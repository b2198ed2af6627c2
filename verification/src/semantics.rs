//! The mathematical semantics of expressions: what value an expression text
//! denotes in a given variable environment, and where parsing of it stops.
//!
//! The grammar is
//! ```text
//! expr   ::= [ + | - ] term ( ( + | - ) term )*
//! term   ::= factor ( ( * | / ) factor )?
//! factor ::= var | number | ( expr )
//! ```
//! The evaluation functions take a fuel argument to bound their recursion;
//! any fuel larger than the remaining text gives the same answer (see
//! `lemma_eval_expr_fuel`), and `eval_fuel` names the canonical amount.

use vstd::prelude::*;
use crate::char_stream::{keyword_of, relop_at, statement_of, Keyword, RelationalOperator, Statement};
use crate::error::{ErrorKind, NumberParseErrorKind};
use crate::text::{after_ws, digits_val, scan_end, CharClass};
use crate::types::{spec_div, spec_wrap_add, spec_wrap_mul, Number};

verus! {

/// A variable environment: a map from variable name to value.
pub type Env = Map<Seq<u8>, Number>;

/// The value of a variable: its value in the environment, or zero when it is
/// not defined.
pub open spec fn env_value(env: Env, name: Seq<u8>) -> Number {
    if env.contains_key(name) {
        env[name]
    } else {
        0
    }
}

/// Fuel that is always enough to evaluate an expression starting at `i`.
pub open spec fn eval_fuel(s: Seq<u8>, i: int) -> nat {
    (s.len() - i + 1) as nat
}

/// Evaluates `expr`: an optional sign, a term, then further signed terms.
pub open spec fn eval_expr(s: Seq<u8>, i: int, env: Env, fuel: nat) -> Result<
    (Number, int),
    ErrorKind,
>
    decreases fuel, 3int,
{
    let (sign, i1): (Number, int) = if i < s.len() && s[i] == 43 {
        (1, after_ws(s, i + 1))
    } else if i < s.len() && s[i] == 45 {
        ((-1) as Number, after_ws(s, i + 1))
    } else {
        (1, after_ws(s, i))
    };
    match eval_term(s, i1, env, fuel) {
        Ok((t, i2)) => eval_expr_rest(s, i2, env, spec_wrap_mul(sign, t), fuel),
        Err(e) => Err(e),
    }
}

/// Evaluates the `( ( + | - ) term )*` tail of an expression, folding the
/// terms into `acc` from the left.
pub open spec fn eval_expr_rest(s: Seq<u8>, i: int, env: Env, acc: Number, fuel: nat) -> Result<
    (Number, int),
    ErrorKind,
>
    decreases fuel, 2int,
{
    if i < s.len() && (s[i] == 43 || s[i] == 45) {
        let sign: Number = if s[i] == 43 {
            1
        } else {
            (-1) as Number
        };
        let i1 = after_ws(s, i + 1);
        match eval_term(s, i1, env, fuel) {
            Ok((t, i2)) => if fuel == 0 {
                Err(ErrorKind::FactorCouldNotBeParsed)
            } else {
                eval_expr_rest(
                    s,
                    i2,
                    env,
                    spec_wrap_add(acc, spec_wrap_mul(sign, t)),
                    (fuel - 1) as nat,
                )
            },
            Err(e) => Err(e),
        }
    } else {
        Ok((acc, after_ws(s, i)))
    }
}

/// Evaluates `term`: a factor, optionally followed by one `*` or `/` and a
/// second factor.
pub open spec fn eval_term(s: Seq<u8>, i: int, env: Env, fuel: nat) -> Result<
    (Number, int),
    ErrorKind,
>
    decreases fuel, 1int,
{
    match eval_factor(s, i, env, fuel) {
        Ok((f, i1)) => if i1 < s.len() && (s[i1] == 42 || s[i1] == 47) {
            let op = s[i1];
            let i2 = after_ws(s, i1 + 1);
            match eval_factor(s, i2, env, fuel) {
                Ok((g, i3)) => if op == 47 {
                    Ok((spec_div(f, g), i3))
                } else {
                    Ok((spec_wrap_mul(f, g), i3))
                },
                Err(e) => Err(e),
            }
        } else {
            Ok((f, after_ws(s, i1)))
        },
        Err(e) => Err(e),
    }
}

/// Evaluates `factor`: a variable, a number literal, or a parenthesized
/// expression.
pub open spec fn eval_factor(s: Seq<u8>, i: int, env: Env, fuel: nat) -> Result<
    (Number, int),
    ErrorKind,
>
    decreases fuel, 0int,
{
    let e1 = scan_end(s, i, CharClass::Alpha);
    let ed = scan_end(s, i, CharClass::Digit);
    if e1 > i {
        let e2 = scan_end(s, e1, CharClass::VarBody);
        Ok((env_value(env, s.subrange(i, e2)), after_ws(s, e2)))
    } else if ed > i {
        let d = s.subrange(i, ed);
        if digits_val(d) > Number::MAX {
            Err(ErrorKind::NumberParseError(NumberParseErrorKind::PosOverflow))
        } else {
            Ok((digits_val(d) as Number, after_ws(s, ed)))
        }
    } else if i < s.len() && s[i] == 40 {
        if fuel == 0 {
            Err(ErrorKind::FactorCouldNotBeParsed)
        } else {
            match eval_expr(s, after_ws(s, i + 1), env, (fuel - 1) as nat) {
                Ok((v, i2)) => if i2 < s.len() && s[i2] == 41 {
                    Ok((v, after_ws(s, i2 + 1)))
                } else {
                    Err(ErrorKind::Expected(')'))
                },
                Err(e) => Err(e),
            }
        }
    } else {
        Err(ErrorKind::FactorCouldNotBeParsed)
    }
}

/// Successful evaluation never moves the position backwards or past the end
/// of the text.
pub proof fn lemma_eval_expr_pos(s: Seq<u8>, i: int, env: Env, fuel: nat)
    requires
        0 <= i <= s.len(),
    ensures
        eval_expr(s, i, env, fuel) matches Ok((v, p)) ==> i < p <= s.len(),
    decreases fuel, 3int,
{
    crate::text::lemma_scan_end(s, i, CharClass::Whitespace);
    if i < s.len() {
        crate::text::lemma_scan_end(s, i + 1, CharClass::Whitespace);
    }
    let (sign, i1): (Number, int) = if i < s.len() && s[i] == 43 {
        (1int as Number, after_ws(s, i + 1))
    } else if i < s.len() && s[i] == 45 {
        (-1int as Number, after_ws(s, i + 1))
    } else {
        (1int as Number, after_ws(s, i))
    };
    lemma_eval_term_pos(s, i1, env, fuel);
    match eval_term(s, i1, env, fuel) {
        Ok((t, i2)) => {
            lemma_eval_expr_rest_pos(s, i2, env, spec_wrap_mul(sign, t), fuel);
        },
        Err(_) => {},
    }
}

pub proof fn lemma_eval_expr_rest_pos(s: Seq<u8>, i: int, env: Env, acc: Number, fuel: nat)
    requires
        0 <= i <= s.len(),
    ensures
        eval_expr_rest(s, i, env, acc, fuel) matches Ok((v, p)) ==> i <= p <= s.len(),
    decreases fuel, 2int,
{
    crate::text::lemma_scan_end(s, i, CharClass::Whitespace);
    if i < s.len() && (s[i] == 43 || s[i] == 45) {
        let sign: Number = if s[i] == 43 {
            1
        } else {
            (-1) as Number
        };
        let i1 = after_ws(s, i + 1);
        crate::text::lemma_scan_end(s, i + 1, CharClass::Whitespace);
        lemma_eval_term_pos(s, i1, env, fuel);
        match eval_term(s, i1, env, fuel) {
            Ok((t, i2)) => {
                if fuel != 0 {
                    lemma_eval_expr_rest_pos(
                        s,
                        i2,
                        env,
                        spec_wrap_add(acc, spec_wrap_mul(sign, t)),
                        (fuel - 1) as nat,
                    );
                }
            },
            Err(_) => {},
        }
    }
}

pub proof fn lemma_eval_term_pos(s: Seq<u8>, i: int, env: Env, fuel: nat)
    requires
        0 <= i <= s.len(),
    ensures
        eval_term(s, i, env, fuel) matches Ok((v, p)) ==> i < p <= s.len(),
    decreases fuel, 1int,
{
    lemma_eval_factor_pos(s, i, env, fuel);
    match eval_factor(s, i, env, fuel) {
        Ok((f, i1)) => {
            crate::text::lemma_scan_end(s, i1, CharClass::Whitespace);
            if i1 < s.len() && (s[i1] == 42 || s[i1] == 47) {
                let i2 = after_ws(s, i1 + 1);
                crate::text::lemma_scan_end(s, i1 + 1, CharClass::Whitespace);
                lemma_eval_factor_pos(s, i2, env, fuel);
            }
        },
        Err(_) => {},
    }
}

pub proof fn lemma_eval_factor_pos(s: Seq<u8>, i: int, env: Env, fuel: nat)
    requires
        0 <= i <= s.len(),
    ensures
        eval_factor(s, i, env, fuel) matches Ok((v, p)) ==> i < p <= s.len(),
    decreases fuel, 0int,
{
    let e1 = scan_end(s, i, CharClass::Alpha);
    let ed = scan_end(s, i, CharClass::Digit);
    crate::text::lemma_scan_end(s, i, CharClass::Alpha);
    crate::text::lemma_scan_end(s, i, CharClass::Digit);
    if e1 > i {
        let e2 = scan_end(s, e1, CharClass::VarBody);
        crate::text::lemma_scan_end(s, e1, CharClass::VarBody);
        crate::text::lemma_scan_end(s, e2, CharClass::Whitespace);
    } else if ed > i {
        crate::text::lemma_scan_end(s, ed, CharClass::Whitespace);
    } else if i < s.len() && s[i] == 40 {
        if fuel != 0 {
            let j = after_ws(s, i + 1);
            crate::text::lemma_scan_end(s, i + 1, CharClass::Whitespace);
            lemma_eval_expr_pos(s, j, env, (fuel - 1) as nat);
            match eval_expr(s, j, env, (fuel - 1) as nat) {
                Ok((v, i2)) => {
                    if i2 < s.len() && s[i2] == 41 {
                        crate::text::lemma_scan_end(s, i2 + 1, CharClass::Whitespace);
                    }
                },
                Err(_) => {},
            }
        }
    }
}

/// Any two sufficient amounts of fuel evaluate an expression to the same
/// answer.
pub proof fn lemma_eval_expr_fuel(s: Seq<u8>, i: int, env: Env, f1: nat, f2: nat)
    requires
        0 <= i <= s.len(),
        f1 >= eval_fuel(s, i),
        f2 >= eval_fuel(s, i),
    ensures
        eval_expr(s, i, env, f1) == eval_expr(s, i, env, f2),
    decreases f1 + f2, 3int,
{
    crate::text::lemma_scan_end(s, i, CharClass::Whitespace);
    if i < s.len() {
        crate::text::lemma_scan_end(s, i + 1, CharClass::Whitespace);
    }
    let (sign, i1): (Number, int) = if i < s.len() && s[i] == 43 {
        (1int as Number, after_ws(s, i + 1))
    } else if i < s.len() && s[i] == 45 {
        (-1int as Number, after_ws(s, i + 1))
    } else {
        (1int as Number, after_ws(s, i))
    };
    lemma_eval_term_fuel(s, i1, env, f1, f2);
    lemma_eval_term_pos(s, i1, env, f1);
    match eval_term(s, i1, env, f1) {
        Ok((t, i2)) => {
            lemma_eval_expr_rest_fuel(s, i2, env, spec_wrap_mul(sign, t), f1, f2);
        },
        Err(_) => {},
    }
}

pub proof fn lemma_eval_expr_rest_fuel(
    s: Seq<u8>,
    i: int,
    env: Env,
    acc: Number,
    f1: nat,
    f2: nat,
)
    requires
        0 <= i <= s.len(),
        f1 >= eval_fuel(s, i),
        f2 >= eval_fuel(s, i),
    ensures
        eval_expr_rest(s, i, env, acc, f1) == eval_expr_rest(s, i, env, acc, f2),
    decreases f1 + f2, 2int,
{
    crate::text::lemma_scan_end(s, i, CharClass::Whitespace);
    if i < s.len() && (s[i] == 43 || s[i] == 45) {
        let sign: Number = if s[i] == 43 {
            1
        } else {
            (-1) as Number
        };
        let i1 = after_ws(s, i + 1);
        crate::text::lemma_scan_end(s, i + 1, CharClass::Whitespace);
        lemma_eval_term_fuel(s, i1, env, f1, f2);
        lemma_eval_term_pos(s, i1, env, f1);
        match eval_term(s, i1, env, f1) {
            Ok((t, i2)) => {
                let acc2 = spec_wrap_add(acc, spec_wrap_mul(sign, t));
                lemma_eval_expr_rest_fuel(s, i2, env, acc2, (f1 - 1) as nat, (f2 - 1) as nat);
            },
            Err(_) => {},
        }
    }
}

pub proof fn lemma_eval_term_fuel(s: Seq<u8>, i: int, env: Env, f1: nat, f2: nat)
    requires
        0 <= i <= s.len(),
        f1 >= eval_fuel(s, i),
        f2 >= eval_fuel(s, i),
    ensures
        eval_term(s, i, env, f1) == eval_term(s, i, env, f2),
    decreases f1 + f2, 1int,
{
    lemma_eval_factor_fuel(s, i, env, f1, f2);
    lemma_eval_factor_pos(s, i, env, f1);
    match eval_factor(s, i, env, f1) {
        Ok((f, i1)) => {
            crate::text::lemma_scan_end(s, i1, CharClass::Whitespace);
            if i1 < s.len() && (s[i1] == 42 || s[i1] == 47) {
                let i2 = after_ws(s, i1 + 1);
                crate::text::lemma_scan_end(s, i1 + 1, CharClass::Whitespace);
                lemma_eval_factor_fuel(s, i2, env, f1, f2);
            }
        },
        Err(_) => {},
    }
}

pub proof fn lemma_eval_factor_fuel(s: Seq<u8>, i: int, env: Env, f1: nat, f2: nat)
    requires
        0 <= i <= s.len(),
        f1 >= eval_fuel(s, i),
        f2 >= eval_fuel(s, i),
    ensures
        eval_factor(s, i, env, f1) == eval_factor(s, i, env, f2),
    decreases f1 + f2, 0int,
{
    let e1 = scan_end(s, i, CharClass::Alpha);
    let ed = scan_end(s, i, CharClass::Digit);
    crate::text::lemma_scan_end(s, i, CharClass::Alpha);
    crate::text::lemma_scan_end(s, i, CharClass::Digit);
    if e1 > i || ed > i {
    } else if i < s.len() && s[i] == 40 {
        let j = after_ws(s, i + 1);
        crate::text::lemma_scan_end(s, i + 1, CharClass::Whitespace);
        lemma_eval_expr_fuel(s, j, env, (f1 - 1) as nat, (f2 - 1) as nat);
    }
}


/// What `execute` reports: the statement ran to completion, or it is an
/// `INPUT` statement that now awaits a line of input.
#[derive(Clone, Copy, Debug, PartialEq, Eq, Structural)]
pub enum ExecOutcome {
    Done,
    AwaitingInput,
}

/// The observable state of the interpreter: the program counter, the
/// variable environment, the return stack, the output produced so far, and
/// the variables of an `INPUT` statement that still await values.
#[verifier::ext_equal]
pub struct InterpState {
    pub pc: Option<int>,
    pub env: Env,
    pub stack: Seq<int>,
    pub out: Seq<u8>,
    pub pending: Seq<Seq<u8>>,
}

/// Whether a relational operator holds of two values.
pub open spec fn relop_holds(op: RelationalOperator, a: Number, b: Number) -> bool {
    match op {
        RelationalOperator::Less => a < b,
        RelationalOperator::Greater => a > b,
        RelationalOperator::LessEqual => a <= b,
        RelationalOperator::GreaterEqual => a >= b,
        RelationalOperator::NotEqual => a != b,
        RelationalOperator::Equal => a == b,
    }
}

/// One item of a `PRINT` list: the body of a string literal, or the decimal
/// of an evaluated expression, followed by one space.
pub open spec fn print_item(s: Seq<u8>, i: int, env: Env, fuel: nat) -> Result<
    (Seq<u8>, int),
    ErrorKind,
>
    decreases fuel, 5int,
{
    if i < s.len() && s[i] == 34 {
        let b = after_ws(s, i + 1);
        let e = scan_end(s, b, CharClass::StringBody);
        if e < s.len() && s[e] == 34 {
            Ok((s.subrange(b, e) + seq![32u8], after_ws(s, e + 1)))
        } else {
            Err(ErrorKind::Expected('"'))
        }
    } else {
        match eval_expr(s, after_ws(s, i), env, fuel) {
            Ok((v, p)) => Ok((crate::text::dec_rep(v as int) + seq![32u8], p)),
            Err(e) => Err(e),
        }
    }
}

/// A printed item always consumes at least one character.
pub proof fn lemma_print_item_pos(s: Seq<u8>, i: int, env: Env, fuel: nat)
    requires
        0 <= i <= s.len(),
    ensures
        print_item(s, i, env, fuel) matches Ok((t, p)) ==> i < p <= s.len(),
{
    if i < s.len() && s[i] == 34 {
        crate::text::lemma_scan_end(s, i + 1, CharClass::Whitespace);
        let b = after_ws(s, i + 1);
        crate::text::lemma_scan_end(s, b, CharClass::StringBody);
        let e = scan_end(s, b, CharClass::StringBody);
        if e < s.len() && s[e] == 34 {
            crate::text::lemma_scan_end(s, e + 1, CharClass::Whitespace);
        }
    } else {
        crate::text::lemma_scan_end(s, i, CharClass::Whitespace);
        lemma_eval_expr_pos(s, after_ws(s, i), env, fuel);
    }
}

/// The remaining items of a `PRINT` list: `, item` repeated.
pub open spec fn print_items_rest(s: Seq<u8>, i: int, env: Env, fuel: nat) -> Result<
    (Seq<u8>, int),
    ErrorKind,
>
    decreases fuel, 6int,
{
    if i < s.len() && s[i] == 44 {
        match print_item(s, after_ws(s, i + 1), env, fuel) {
            Ok((t, p)) => if fuel == 0 {
                Err(ErrorKind::FactorCouldNotBeParsed)
            } else {
                match print_items_rest(s, p, env, (fuel - 1) as nat) {
                    Ok((t2, p2)) => Ok((t + t2, p2)),
                    Err(e) => Err(e),
                }
            },
            Err(e) => Err(e),
        }
    } else {
        Ok((Seq::empty(), after_ws(s, i)))
    }
}

/// The whole output of a `PRINT` statement: its items, then a newline.
pub open spec fn print_stmt_spec(s: Seq<u8>, i: int, env: Env, fuel: nat) -> Result<
    (Seq<u8>, int),
    ErrorKind,
>
    decreases fuel, 7int,
{
    match print_item(s, i, env, fuel) {
        Ok((t, p)) => match print_items_rest(s, p, env, fuel) {
            Ok((t2, p2)) => Ok((t + t2 + seq![10u8], p2)),
            Err(e) => Err(e),
        },
        Err(e) => Err(e),
    }
}

/// The variable list of an `INPUT` statement: names separated by commas.
pub open spec fn input_vars(s: Seq<u8>, i: int, fuel: nat) -> Result<
    (Seq<Seq<u8>>, int),
    ErrorKind,
>
    decreases fuel, 5int,
{
    let e1 = scan_end(s, i, CharClass::Alpha);
    if e1 == i {
        Err(ErrorKind::ExpectedVariableName)
    } else {
        let e2 = scan_end(s, e1, CharClass::VarBody);
        let name = s.subrange(i, e2);
        let i1 = after_ws(s, e2);
        if i1 < s.len() && s[i1] == 44 {
            if fuel == 0 {
                Err(ErrorKind::FactorCouldNotBeParsed)
            } else {
                match input_vars(s, after_ws(s, i1 + 1), (fuel - 1) as nat) {
                    Ok((names, p)) => Ok((seq![name] + names, p)),
                    Err(e) => Err(e),
                }
            }
        } else {
            Ok((seq![name], after_ws(s, i1)))
        }
    }
}

/// A parsed variable list holds at least one name and consumes text.
pub proof fn lemma_input_vars_shape(s: Seq<u8>, i: int, fuel: nat)
    requires
        0 <= i <= s.len(),
    ensures
        input_vars(s, i, fuel) matches Ok((names, p)) ==> names.len() >= 1 && i < p <= s.len(),
    decreases fuel, 6int,
{
    let e1 = scan_end(s, i, CharClass::Alpha);
    crate::text::lemma_scan_end(s, i, CharClass::Alpha);
    if e1 > i {
        let e2 = scan_end(s, e1, CharClass::VarBody);
        crate::text::lemma_scan_end(s, e1, CharClass::VarBody);
        crate::text::lemma_scan_end(s, e2, CharClass::Whitespace);
        let i1 = after_ws(s, e2);
        if i1 < s.len() && s[i1] == 44 {
            if fuel != 0 {
                crate::text::lemma_scan_end(s, i1 + 1, CharClass::Whitespace);
                lemma_input_vars_shape(s, after_ws(s, i1 + 1), (fuel - 1) as nat);
            }
        } else {
            crate::text::lemma_scan_end(s, i1, CharClass::Whitespace);
        }
    }
}

/// The prompt written for one `INPUT` variable: its name, `?` and a space.
pub open spec fn prompt_of(name: Seq<u8>) -> Seq<u8> {
    name + seq![63u8, 32u8]
}

/// Executes the statement at position `i` of `s`: the new state, the
/// position where parsing of the statement stopped, and whether input is now
/// awaited.  The trailing-junk check and the `END` signal are handled by
/// `execute_spec`, which wraps this.
#[verifier::opaque]
pub open spec fn exec_stmt(s: Seq<u8>, i: int, st: InterpState, fuel: nat) -> Result<
    (InterpState, int, ExecOutcome),
    ErrorKind,
>
    decreases fuel, 8int,
{
    let e = scan_end(s, i, CharClass::Alpha);
    if e == i {
        Err(ErrorKind::ExpectedStatement)
    } else {
        let i1 = after_ws(s, e);
        let stmt = match keyword_of(s.subrange(i, e)) {
            Some(k) => statement_of(k),
            None => None,
        };
        match stmt {
            None => Err(ErrorKind::ExpectedStatement),
            Some(Statement::Print) => match print_stmt_spec(s, i1, st.env, fuel) {
                Ok((t, p)) => Ok(
                    (InterpState { out: st.out + t, ..st }, p, ExecOutcome::Done),
                ),
                Err(e2) => Err(e2),
            },
            Some(Statement::Goto) => match eval_expr(s, i1, st.env, fuel) {
                Ok((v, p)) => if v < 1 {
                    Err(ErrorKind::InvalidLineIndex)
                } else {
                    Ok((InterpState { pc: Some(v as int), ..st }, p, ExecOutcome::Done))
                },
                Err(e2) => Err(e2),
            },
            Some(Statement::Let) => {
                let ev1 = scan_end(s, i1, CharClass::Alpha);
                if ev1 == i1 {
                    Err(ErrorKind::ExpectedVariableName)
                } else {
                    let ev2 = scan_end(s, ev1, CharClass::VarBody);
                    let name = s.subrange(i1, ev2);
                    let i2 = after_ws(s, ev2);
                    if i2 < s.len() && s[i2] == 61 {
                        match eval_expr(s, after_ws(s, i2 + 1), st.env, fuel) {
                            Ok((v, p)) => Ok(
                                (
                                    InterpState { env: st.env.insert(name, v), ..st },
                                    p,
                                    ExecOutcome::Done,
                                ),
                            ),
                            Err(e2) => Err(e2),
                        }
                    } else {
                        Err(ErrorKind::Expected('='))
                    }
                }
            },
            Some(Statement::Gosub) => match eval_expr(s, i1, st.env, fuel) {
                Ok((v, p)) => if v < 1 {
                    Err(ErrorKind::InvalidLineIndex)
                } else {
                    match st.pc {
                        None => Err(ErrorKind::CommandNotUsableInInteractiveMode),
                        Some(ret) => Ok(
                            (
                                InterpState {
                                    pc: Some(v as int),
                                    stack: st.stack.push(ret),
                                    ..st
                                },
                                p,
                                ExecOutcome::Done,
                            ),
                        ),
                    }
                },
                Err(e2) => Err(e2),
            },
            Some(Statement::Return) => if st.stack.len() == 0 {
                Err(ErrorKind::ReturnOnEmptyStack)
            } else {
                Ok(
                    (
                        InterpState { pc: Some(st.stack.last()), stack: st.stack.drop_last(), ..st },
                        i1,
                        ExecOutcome::Done,
                    ),
                )
            },
            Some(Statement::End) => Ok((InterpState { pc: None, ..st }, i1, ExecOutcome::Done)),
            Some(Statement::Input) => match input_vars(s, i1, fuel) {
                Ok((names, p)) => if p < s.len() {
                    Ok((st, p, ExecOutcome::Done))
                } else {
                    Ok(
                        (
                            InterpState {
                                out: st.out + prompt_of(names[0]),
                                pending: names,
                                ..st
                            },
                            p,
                            ExecOutcome::AwaitingInput,
                        ),
                    )
                },
                Err(e2) => Err(e2),
            },
            Some(Statement::If) => match eval_expr(s, i1, st.env, fuel) {
                Err(e2) => Err(e2),
                Ok((lhs, p1)) => {
                    let (opo, p2) = relop_at(s, p1);
                    match opo {
                        None => Err(ErrorKind::ExpectedRelationalOperator),
                        Some(op) => match eval_expr(s, p2, st.env, fuel) {
                            Err(e2) => Err(e2),
                            Ok((rhs, p3)) => if relop_holds(op, lhs, rhs) {
                                let ek = scan_end(s, p3, CharClass::Alpha);
                                if ek == p3 {
                                    Err(ErrorKind::ExpectedKeyword)
                                } else if keyword_of(s.subrange(p3, ek)) == Some(Keyword::Then) {
                                    if fuel == 0 {
                                        Err(ErrorKind::FactorCouldNotBeParsed)
                                    } else {
                                        match execute_spec(
                                            s,
                                            after_ws(s, ek),
                                            st,
                                            (fuel - 1) as nat,
                                        ) {
                                            Ok((st2, o)) => Ok((st2, s.len() as int, o)),
                                            Err(e2) => Err(e2),
                                        }
                                    }
                                } else {
                                    Err(ErrorKind::ExpectedKeyword)
                                }
                            } else {
                                Ok((st, s.len() as int, ExecOutcome::Done))
                            },
                        },
                    }
                },
            },
        }
    }
}

/// Executes exactly one statement: the statement's own effect, then the
/// demand that nothing follows it on the line.
pub open spec fn execute_spec(s: Seq<u8>, i: int, st: InterpState, fuel: nat) -> Result<
    (InterpState, ExecOutcome),
    ErrorKind,
>
    decreases fuel, 9int,
{
    match exec_stmt(s, i, st, fuel) {
        Ok((st2, p, o)) => if p < s.len() {
            Err(ErrorKind::UnexpectedTokensAtEndOfLine)
        } else {
            Ok((st2, o))
        },
        Err(e) => Err(e),
    }
}

/// The position just before the trailing whitespace of `s`, scanning from
/// `j` leftwards.
pub open spec fn ws_trim_end(s: Seq<u8>, j: int) -> int
    decreases j,
{
    if 0 < j <= s.len() && crate::text::is_whitespace_byte(s[j - 1]) {
        ws_trim_end(s, j - 1)
    } else {
        j
    }
}

/// `s` without its leading and trailing whitespace.
pub open spec fn trim_ws(s: Seq<u8>) -> Seq<u8> {
    let b = after_ws(s, 0);
    let e = ws_trim_end(s, s.len() as int);
    if b <= e {
        s.subrange(b, e)
    } else {
        Seq::empty()
    }
}

/// Right-trimming stays within the text.
pub proof fn lemma_ws_trim_end(s: Seq<u8>, j: int)
    requires
        0 <= j <= s.len(),
    ensures
        0 <= ws_trim_end(s, j) <= j,
    decreases j,
{
    if 0 < j <= s.len() && crate::text::is_whitespace_byte(s[j - 1]) {
        lemma_ws_trim_end(s, j - 1);
    }
}

/// Trimming ASCII text yields ASCII text.
pub proof fn lemma_trim_ws_ascii(s: Seq<u8>)
    requires
        crate::text::ascii_text(s),
    ensures
        crate::text::ascii_text(trim_ws(s)),
{
    crate::text::lemma_scan_end(s, 0, CharClass::Whitespace);
    lemma_ws_trim_end(s, s.len() as int);
    let t = trim_ws(s);
    assert forall|i: int| 0 <= i < t.len() implies crate::text::is_ascii_byte(
        #[trigger] t[i],
    ) by {
        let b = after_ws(s, 0);
        assert(t[i] == s[b + i]);
    }
}

/// A signed number literal: an optional sign, then digits, within the
/// `Number` range.
pub open spec fn all_digits(d: Seq<u8>) -> bool {
    forall|i: int| 0 <= i < d.len() ==> crate::text::is_digit_byte(#[trigger] d[i])
}

pub open spec fn parse_signed(t: Seq<u8>) -> Option<Number> {
    if t.len() == 0 {
        None
    } else {
        let neg = t[0] == 45;
        let d = if t[0] == 45 || t[0] == 43 {
            t.drop_first()
        } else {
            t
        };
        if d.len() == 0 || !all_digits(d) {
            None
        } else {
            let v = digits_val(d);
            if neg {
                if v <= 32768 {
                    Some((-v) as Number)
                } else {
                    None
                }
            } else {
                if v <= 32767 {
                    Some(v as Number)
                } else {
                    None
                }
            }
        }
    }
}

/// The value stored for one line of `INPUT`: the line trimmed, read as a
/// number; or the code of its first character when it is not a number.
pub open spec fn input_value(line: Seq<u8>) -> Number {
    let t = trim_ws(line);
    match parse_signed(t) {
        Some(v) => v,
        None => t[0] as Number,
    }
}

} // verus!
