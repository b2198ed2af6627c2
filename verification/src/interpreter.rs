//! The interpreter: the expression evaluator and the statement executor,
//! owning the program counter, the return stack, the variable environment,
//! the output produced so far, and the variables of an `INPUT` statement
//! that still await values.
//!
//! All output is collected in a buffer that the caller drains and writes;
//! all input arrives through `provide_input`.  A stored program runs one
//! line per `run_step` call, so the driving loop — which a program like
//! `10 GOTO 10` keeps going forever — lives with the caller.

use vstd::prelude::*;
use crate::char_stream::{AsciiCharStream, Keyword, RelationalOperator, Statement};
use crate::error::{Error, ErrorKind};
use crate::semantics::{
    env_value, eval_expr, eval_expr_rest, eval_factor, eval_fuel, eval_term, Env, ExecOutcome,
    InterpState,
};
use crate::text::{after_ws, ascii_text, byte_in_class, bytes_eq, CharClass};
use crate::types::{wrap_add, wrap_mul, number_div, LineIndex, Number};

verus! {

/// What one driving step of a stored-program run reports: the run finished,
/// it goes on at the next line, or an `INPUT` statement awaits a line of
/// input.
#[derive(Clone, Copy, Debug, PartialEq, Eq, Structural)]
pub enum RunStep {
    Finished,
    Continuing,
    AwaitingInput,
}

/// The interpreter state.
pub struct Interpreter {
    pub next_line_to_execute: Option<LineIndex>,
    pub current_line_number: Option<LineIndex>,
    pub environment: Vec<(Vec<u8>, Number)>,
    pub return_stack: Vec<LineIndex>,
    pub output: Vec<u8>,
    pub pending_input: Vec<Vec<u8>>,
    pub running: bool,
}

/// Whether the entry table defines variable `k`.
pub open spec fn entries_have(entries: Seq<(Vec<u8>, Number)>, k: Seq<u8>) -> bool {
    exists|i: int| 0 <= i < entries.len() && (#[trigger] entries[i]).0@ == k
}

/// The position of variable `k` in the entry table.
pub open spec fn entries_index(entries: Seq<(Vec<u8>, Number)>, k: Seq<u8>) -> int {
    choose|i: int| 0 <= i < entries.len() && (#[trigger] entries[i]).0@ == k
}

/// The keys of the entry table are unique, so each variable has one value.
pub open spec fn entries_unique(entries: Seq<(Vec<u8>, Number)>) -> bool {
    forall|i: int, j: int|
        0 <= i < j < entries.len() ==> (#[trigger] entries[i]).0@ != (#[trigger] entries[j]).0@
}

/// The entry table as a map from name to value.
pub open spec fn env_of(entries: Seq<(Vec<u8>, Number)>) -> Env {
    Map::new(
        |k: Seq<u8>| entries_have(entries, k),
        |k: Seq<u8>| entries[entries_index(entries, k)].1,
    )
}

impl Interpreter {
    /// Whether the environment defines variable `k`.
    pub open spec fn has_var(self, k: Seq<u8>) -> bool {
        entries_have(self.environment@, k)
    }

    /// The position of variable `k` in the environment.
    pub open spec fn var_index(self, k: Seq<u8>) -> int {
        entries_index(self.environment@, k)
    }

    /// The value bound to variable `k`.
    pub open spec fn var_val(self, k: Seq<u8>) -> Number {
        self.environment@[self.var_index(k)].1
    }

    /// The environment as a map from name to value.
    pub open spec fn env(self) -> Env {
        env_of(self.environment@)
    }

    /// The program counter as a plain number.
    pub open spec fn pc(self) -> Option<int> {
        match self.next_line_to_execute {
            Some(ix) => Some(ix.spec_value()),
            None => None,
        }
    }

    /// The return stack as a sequence of plain numbers.
    pub open spec fn stack(self) -> Seq<int> {
        self.return_stack@.map_values(|ix: LineIndex| ix.spec_value())
    }

    /// The variables still awaiting input.
    pub open spec fn pending(self) -> Seq<Seq<u8>> {
        self.pending_input@.map_values(|v: Vec<u8>| v@)
    }

    /// The whole observable state.
    pub open spec fn st(self) -> InterpState {
        InterpState {
            pc: self.pc(),
            env: self.env(),
            stack: self.stack(),
            out: self.output@,
            pending: self.pending(),
        }
    }

    /// Environment keys are unique, so each variable has one value.
    pub open spec fn wf(self) -> bool {
        entries_unique(self.environment@)
    }

    /// The entry at each position binds the variable it names.
    proof fn lemma_var_at(self, i: int)
        requires
            self.wf(),
            0 <= i < self.environment@.len(),
        ensures
            self.has_var(self.environment@[i].0@),
            self.var_index(self.environment@[i].0@) == i,
            self.var_val(self.environment@[i].0@) == self.environment@[i].1,
            env_value(self.env(), self.environment@[i].0@) == self.environment@[i].1,
    {
        let k = self.environment@[i].0@;
        assert(self.has_var(k));
        let j = self.var_index(k);
        assert(0 <= j < self.environment@.len() && self.environment@[j].0@ == k);
        if i < j || j < i {
            assert(self.environment@[i].0@ != self.environment@[j].0@ || self.environment@[j].0@
                != self.environment@[i].0@);
        }
        assert(self.env().contains_key(k));
    }

    /// A fresh interpreter: immediate mode, empty environment, empty return
    /// stack, no output, no pending input.
    pub fn new() -> (r: Self)
        ensures
            r.wf(),
            r.pc() is None,
            r.env() == Map::<Seq<u8>, Number>::empty(),
            r.stack() == Seq::<int>::empty(),
            r.output@ == Seq::<u8>::empty(),
            r.pending() == Seq::<Seq<u8>>::empty(),
            !r.running,
            r.current_line_number is None,
    {
        let r = Interpreter {
            next_line_to_execute: None,
            current_line_number: None,
            environment: Vec::new(),
            return_stack: Vec::new(),
            output: Vec::new(),
            pending_input: Vec::new(),
            running: false,
        };
        proof {
            assert(r.env() =~= Map::<Seq<u8>, Number>::empty());
            assert(r.stack() =~= Seq::<int>::empty());
            assert(r.pending() =~= Seq::<Seq<u8>>::empty());
        }
        r
    }

    /// Looks a variable up; undefined variables read as zero.
    fn env_get(&self, name: &Vec<u8>) -> (r: Number)
        requires
            self.wf(),
        ensures
            r == env_value(self.env(), name@),
    {
        let n = self.environment.len();
        let mut i: usize = 0;
        while i < n
            invariant
                self.wf(),
                n == self.environment@.len(),
                0 <= i <= n,
                forall|j: int| 0 <= j < i ==> (#[trigger] self.environment@[j]).0@ != name@,
            decreases n - i,
        {
            if bytes_eq(&self.environment[i].0, name) {
                proof {
                    self.lemma_var_at(i as int);
                }
                return self.environment[i].1;
            }
            i += 1;
        }
        proof {
            if self.has_var(name@) {
                let j = self.var_index(name@);
                assert(0 <= j < n && self.environment@[j].0@ == name@);
                assert(false);
            }
            assert(!self.env().contains_key(name@));
        }
        0
    }

    /// Binds `name` to `value`, replacing any previous binding.
    fn env_set(&mut self, name: Vec<u8>, value: Number)
        requires
            old(self).wf(),
        ensures
            final(self).wf(),
            final(self).env() == old(self).env().insert(name@, value),
            final(self).next_line_to_execute == old(self).next_line_to_execute,
            final(self).current_line_number == old(self).current_line_number,
            final(self).return_stack == old(self).return_stack,
            final(self).output == old(self).output,
            final(self).pending_input == old(self).pending_input,
            final(self).running == old(self).running,
    {
        let ghost pre = *self;
        let n = self.environment.len();
        let mut i: usize = 0;
        let mut found = n;
        while i < n && found == n
            invariant
                self.wf(),
                *self == pre,
                n == self.environment@.len(),
                0 <= i <= n,
                found <= n,
                found == n ==> forall|j: int|
                    0 <= j < i ==> (#[trigger] self.environment@[j]).0@ != name@,
                found < n ==> self.environment@[found as int].0@ == name@,
            decreases n - i + (if found == n {
                1int
            } else {
                0int
            }),
        {
            if bytes_eq(&self.environment[i].0, &name) {
                found = i;
            } else {
                i += 1;
            }
        }
        let ghost mid: Interpreter;
        let ghost removed: int;
        if found < n {
            proof {
                pre.environment@.remove_ensures(found as int);
            }
            self.environment.remove(found);
            proof {
                mid = *self;
                removed = 1;
            }
        } else {
            proof {
                mid = *self;
                removed = 0;
                if pre.has_var(name@) {
                    let j = pre.var_index(name@);
                    assert(0 <= j < n && pre.environment@[j].0@ == name@);
                    assert((self.environment@[j]).0@ != name@);
                    assert(false);
                }
            }
        }
        self.environment.push((name, value));
        proof {
            let m = mid.environment@.len() as int;
            // The new table: `mid`'s entries, then the new binding at the end.
            assert(self.environment@ == mid.environment@.push((name, value)));
            assert(self.environment@.len() == m + 1);
            assert(self.environment@[m] == (name, value));
            assert forall|j: int| 0 <= j < m implies #[trigger] self.environment@[j]
                == mid.environment@[j] by {}
            // `mid`'s keys are `pre`'s keys without `name`.
            assert forall|j: int| 0 <= j < m implies (#[trigger] mid.environment@[j]).0@
                != name@ by {
                if found < n {
                    if j < found {
                        assert(mid.environment@[j] == pre.environment@[j]);
                        if pre.environment@[j].0@ == name@ {
                            assert(pre.environment@[found as int].0@ == name@);
                            assert(false);
                        }
                    } else {
                        assert(mid.environment@[j] == pre.environment@[j + 1]);
                        if pre.environment@[j + 1].0@ == name@ {
                            assert(pre.environment@[found as int].0@ == name@);
                            assert(false);
                        }
                    }
                }
            }
            assert forall|a: int, b: int|
                0 <= a < b < self.environment@.len() implies (
            #[trigger] self.environment@[a]).0@ != (#[trigger] self.environment@[b]).0@ by {
                if b < m {
                    if found < n {
                        let aa = if a < found {
                            a
                        } else {
                            a + 1
                        };
                        let bb = if b < found {
                            b
                        } else {
                            b + 1
                        };
                        assert(mid.environment@[a] == pre.environment@[aa]);
                        assert(mid.environment@[b] == pre.environment@[bb]);
                    }
                }
            }
            // The map view gained exactly the binding of `name`.
            assert forall|k: Seq<u8>| true implies #[trigger] self.env().contains_key(k) == pre.env(
            ).insert(name@, value).contains_key(k) && (self.env().contains_key(k)
                ==> self.env()[k] == pre.env().insert(name@, value)[k]) by {
                if k == name@ {
                    self.lemma_var_at(m);
                } else {
                    if pre.has_var(k) {
                        let j = pre.var_index(k);
                        assert(0 <= j < n && pre.environment@[j].0@ == k);
                        pre.lemma_var_at(j);
                        let jj = if removed == 1 && j > found {
                            j - 1
                        } else {
                            j
                        };
                        assert(self.environment@[jj].0@ == k);
                        self.lemma_var_at(jj);
                        assert(self.environment@[jj].1 == pre.environment@[j].1);
                    } else {
                        if self.has_var(k) {
                            let j = self.var_index(k);
                            assert(0 <= j < m + 1 && self.environment@[j].0@ == k);
                            assert(j != m);
                            let jj = if removed == 1 && j >= found {
                                j + 1
                            } else {
                                j
                            };
                            assert(pre.environment@[jj].0@ == k);
                            assert(false);
                        }
                    }
                }
            }
            assert(self.env() =~= pre.env().insert(name@, value));
        }
    }

    /// Evaluates `expr`: an optional sign, a term, then further signed
    /// terms, folded from the left.
    fn expression(&self, stmt: &mut AsciiCharStream) -> (r: Result<Number, Error>)
        requires
            self.wf(),
            old(stmt).wf(),
        ensures
            final(stmt).wf(),
            final(stmt).text() == old(stmt).text(),
            ({
                let s = old(stmt).text();
                let i = old(stmt).cur();
                match eval_expr(s, i, self.env(), eval_fuel(s, i)) {
                    Ok((v, p)) => r matches Ok(x) && x == v && final(stmt).cur() == p,
                    Err(k) => r matches Err(e) && e.spec_kind() == k,
                }
            }),
        decreases stmt.text().len() - stmt.cur(), 3int,
    {
        let ghost s = stmt.text();
        let ghost i0 = stmt.cur();
        let ghost env = self.env();
        let ghost fuel = eval_fuel(s, i0);
        let sign_res = stmt.consume_char_if(CharClass::Sign);
        let sign: Number = match sign_res {
            Some(c) => if c == 43 {
                1
            } else {
                -1
            },
            None => 1,
        };
        let ghost i1 = stmt.cur();
        proof {
            crate::text::lemma_scan_end(s, i0, CharClass::Whitespace);
            if i0 < s.len() {
                crate::text::lemma_scan_end(s, i0 + 1, CharClass::Whitespace);
            }
            crate::semantics::lemma_eval_term_fuel(s, i1, env, fuel, eval_fuel(s, i1));
        }
        let t = self.term(stmt)?;
        let acc = wrap_mul(sign, t);
        proof {
            crate::semantics::lemma_eval_term_pos(s, i1, env, fuel);
            crate::semantics::lemma_eval_expr_rest_fuel(s, stmt.cur(), env, acc, fuel, eval_fuel(
                s,
                stmt.cur(),
            ));
        }
        let r = self.expr_rest(stmt, acc)?;
        Ok(r)
    }

    /// Evaluates the `( ( + | - ) term )*` tail of an expression.
    fn expr_rest(&self, stmt: &mut AsciiCharStream, acc: Number) -> (r: Result<Number, Error>)
        requires
            self.wf(),
            old(stmt).wf(),
        ensures
            final(stmt).wf(),
            final(stmt).text() == old(stmt).text(),
            ({
                let s = old(stmt).text();
                let i = old(stmt).cur();
                match eval_expr_rest(s, i, self.env(), acc, eval_fuel(s, i)) {
                    Ok((v, p)) => r matches Ok(x) && x == v && final(stmt).cur() == p,
                    Err(k) => r matches Err(e) && e.spec_kind() == k,
                }
            }),
        decreases stmt.text().len() - stmt.cur(), 2int,
    {
        let ghost s = stmt.text();
        let ghost i0 = stmt.cur();
        let ghost env = self.env();
        let ghost fuel = eval_fuel(s, i0);
        let sign_res = stmt.consume_char_if(CharClass::Sign);
        match sign_res {
            None => Ok(acc),
            Some(c) => {
                let sign: Number = if c == 43 {
                    1
                } else {
                    -1
                };
                let ghost i1 = stmt.cur();
                proof {
                    crate::text::lemma_scan_end(s, i0 + 1, CharClass::Whitespace);
                    crate::semantics::lemma_eval_term_fuel(s, i1, env, fuel, eval_fuel(s, i1));
                }
                let t = self.term(stmt)?;
                let acc2 = wrap_add(acc, wrap_mul(sign, t));
                proof {
                    crate::semantics::lemma_eval_term_pos(s, i1, env, fuel);
                    crate::semantics::lemma_eval_expr_rest_fuel(
                        s,
                        stmt.cur(),
                        env,
                        acc2,
                        (fuel - 1) as nat,
                        eval_fuel(s, stmt.cur()),
                    );
                }
                let r = self.expr_rest(stmt, acc2)?;
                Ok(r)
            },
        }
    }

    /// Evaluates `term`: a factor, optionally followed by one `*` or `/`
    /// and a second factor.
    fn term(&self, stmt: &mut AsciiCharStream) -> (r: Result<Number, Error>)
        requires
            self.wf(),
            old(stmt).wf(),
        ensures
            final(stmt).wf(),
            final(stmt).text() == old(stmt).text(),
            ({
                let s = old(stmt).text();
                let i = old(stmt).cur();
                match eval_term(s, i, self.env(), eval_fuel(s, i)) {
                    Ok((v, p)) => r matches Ok(x) && x == v && final(stmt).cur() == p,
                    Err(k) => r matches Err(e) && e.spec_kind() == k,
                }
            }),
        decreases stmt.text().len() - stmt.cur(), 1int,
    {
        let ghost s = stmt.text();
        let ghost i0 = stmt.cur();
        let ghost env = self.env();
        let ghost fuel = eval_fuel(s, i0);
        proof {
            crate::semantics::lemma_eval_factor_fuel(s, i0, env, fuel, eval_fuel(s, i0));
        }
        let f = self.factor(stmt)?;
        let ghost i1 = stmt.cur();
        proof {
            crate::semantics::lemma_eval_factor_pos(s, i0, env, fuel);
            crate::text::lemma_scan_end(s, i1, CharClass::Whitespace);
        }
        let op_res = stmt.consume_char_if(CharClass::MulDiv);
        match op_res {
            None => Ok(f),
            Some(op) => {
                proof {
                    crate::text::lemma_scan_end(s, i1 + 1, CharClass::Whitespace);
                    crate::semantics::lemma_eval_factor_fuel(s, stmt.cur(), env, fuel, eval_fuel(
                        s,
                        stmt.cur(),
                    ));
                }
                let g = self.factor(stmt)?;
                if op == 47 {
                    Ok(number_div(f, g))
                } else {
                    Ok(wrap_mul(f, g))
                }
            },
        }
    }

    /// Evaluates `factor`: a variable, a number literal, or a
    /// parenthesized expression.
    fn factor(&self, stmt: &mut AsciiCharStream) -> (r: Result<Number, Error>)
        requires
            self.wf(),
            old(stmt).wf(),
        ensures
            final(stmt).wf(),
            final(stmt).text() == old(stmt).text(),
            ({
                let s = old(stmt).text();
                let i = old(stmt).cur();
                match eval_factor(s, i, self.env(), eval_fuel(s, i)) {
                    Ok((v, p)) => r matches Ok(x) && x == v && final(stmt).cur() == p,
                    Err(k) => r matches Err(e) && e.spec_kind() == k,
                }
            }),
        decreases stmt.text().len() - stmt.cur(), 0int,
    {
        let ghost s = stmt.text();
        let ghost i0 = stmt.cur();
        let ghost env = self.env();
        let ghost fuel = eval_fuel(s, i0);
        if let Some(name) = stmt.consume_var() {
            let v = self.env_get(&name);
            proof {
                crate::text::lemma_scan_end(s, i0, CharClass::Alpha);
            }
            return Ok(v);
        }
        if let Some(digits) = stmt.consume_number() {
            proof {
                crate::text::lemma_scan_end(s, i0, CharClass::Digit);
                assert forall|j: int| 0 <= j < digits@.len() implies crate::text::is_digit_byte(
                    #[trigger] digits@[j],
                ) by {
                    assert(digits@[j] == s[i0 + j]);
                }
            }
            return match crate::types::parse_number(&digits) {
                Ok(v) => Ok(v),
                Err(k) => Err(Error::from_context(stmt, k, self.current_line())),
            };
        }
        if stmt.consume_char(40).is_some() {
            proof {
                crate::text::lemma_scan_end(s, i0 + 1, CharClass::Whitespace);
                crate::semantics::lemma_eval_expr_fuel(s, stmt.cur(), env, (fuel - 1) as nat,
                    eval_fuel(s, stmt.cur()));
            }
            let v = self.expression(stmt)?;
            proof {
                crate::semantics::lemma_eval_expr_pos(s, after_ws(s, i0 + 1), env, (fuel - 1) as nat);
            }
            if stmt.consume_char(41).is_some() {
                Ok(v)
            } else {
                Err(Error::from_context(stmt, ErrorKind::Expected(')'), self.current_line()))
            }
        } else {
            Err(Error::from_context(stmt, ErrorKind::FactorCouldNotBeParsed, self.current_line()))
        }
    }

    /// Everything but the output and the cursor is untouched.
    pub open spec fn same_but_output(pre: Interpreter, post: Interpreter) -> bool {
        &&& post.next_line_to_execute == pre.next_line_to_execute
        &&& post.current_line_number == pre.current_line_number
        &&& post.environment == pre.environment
        &&& post.return_stack == pre.return_stack
        &&& post.pending_input == pre.pending_input
        &&& post.running == pre.running
    }

    /// Reads one item of a `PRINT` list and renders it as text.
    fn print_item_text(&self, stmt: &mut AsciiCharStream, Ghost(fuel): Ghost<nat>) -> (r: Result<
        Vec<u8>,
        Error,
    >)
        requires
            self.wf(),
            old(stmt).wf(),
            fuel >= eval_fuel(old(stmt).text(), old(stmt).cur()),
        ensures
            final(stmt).wf(),
            final(stmt).text() == old(stmt).text(),
            ({
                let s = old(stmt).text();
                let i = old(stmt).cur();
                match crate::semantics::print_item(s, i, self.env(), fuel) {
                    Ok((t, p)) => r matches Ok(v) && v@ == t && final(stmt).cur() == p,
                    Err(k) => r matches Err(e) && e.spec_kind() == k,
                }
            }),
        decreases stmt.text().len() - stmt.cur(), 4int,
    {
        let ghost s = stmt.text();
        let ghost i0 = stmt.cur();
        let ghost env = self.env();
        match stmt.consume_string() {
            Err(e) => Err(e),
            Ok(Some(body)) => {
                let mut text = body;
                text.push(32);
                Ok(text)
            },
            Ok(None) => {
                proof {
                    crate::text::lemma_scan_end(s, i0, CharClass::Whitespace);
                    crate::semantics::lemma_eval_expr_fuel(s, stmt.cur(), env, fuel, eval_fuel(
                        s,
                        stmt.cur(),
                    ));
                }
                let v = self.expression(stmt)?;
                let mut text: Vec<u8> = Vec::new();
                crate::text::push_dec(&mut text, v);
                text.push(32);
                proof {
                    assert(text@ =~= crate::text::dec_rep(v as int) + seq![32u8]);
                }
                Ok(text)
            },
        }
    }

    /// Reads the remaining `, item` parts of a `PRINT` list and renders them
    /// as text.
    fn print_rest_text(&self, stmt: &mut AsciiCharStream, Ghost(fuel): Ghost<nat>) -> (r: Result<
        Vec<u8>,
        Error,
    >)
        requires
            self.wf(),
            old(stmt).wf(),
            fuel >= eval_fuel(old(stmt).text(), old(stmt).cur()),
        ensures
            final(stmt).wf(),
            final(stmt).text() == old(stmt).text(),
            ({
                let s = old(stmt).text();
                let i = old(stmt).cur();
                match crate::semantics::print_items_rest(s, i, self.env(), fuel) {
                    Ok((t, p)) => r matches Ok(v) && v@ == t && final(stmt).cur() == p,
                    Err(k) => r matches Err(e) && e.spec_kind() == k,
                }
            }),
        decreases stmt.text().len() - stmt.cur(), 5int,
    {
        let ghost s = stmt.text();
        let ghost i0 = stmt.cur();
        let ghost env = self.env();
        if stmt.consume_char(44).is_none() {
            return Ok(Vec::new());
        }
        proof {
            crate::text::lemma_scan_end(s, i0 + 1, CharClass::Whitespace);
        }
        let mut text = self.print_item_text(stmt, Ghost(fuel))?;
        proof {
            crate::semantics::lemma_print_item_pos(s, after_ws(s, i0 + 1), env, fuel);
        }
        let mut rest = self.print_rest_text(stmt, Ghost((fuel - 1) as nat))?;
        text.append(&mut rest);
        Ok(text)
    }

    /// Executes a `PRINT` statement: each item, then a newline.
    fn print_stmt(&mut self, stmt: &mut AsciiCharStream, Ghost(fuel): Ghost<nat>) -> (r: Result<
        (),
        Error,
    >)
        requires
            old(self).wf(),
            old(stmt).wf(),
            fuel >= eval_fuel(old(stmt).text(), old(stmt).cur()),
        ensures
            final(self).wf(),
            final(stmt).wf(),
            final(stmt).text() == old(stmt).text(),
            Self::same_but_output(*old(self), *final(self)),
            ({
                let s = old(stmt).text();
                let i = old(stmt).cur();
                match crate::semantics::print_stmt_spec(s, i, old(self).env(), fuel) {
                    Ok((t, p)) => r matches Ok(u) && final(self).output@ == old(self).output@ + t
                        && final(stmt).cur() == p,
                    Err(k) => r matches Err(e) && e.spec_kind() == k && final(self).output == old(self).output,
                }
            }),
        decreases stmt.text().len() - stmt.cur(), 5int,
    {
        let ghost s = stmt.text();
        let ghost i0 = stmt.cur();
        let ghost env = self.env();
        let text = self.print_item_text(stmt, Ghost(fuel))?;
        proof {
            crate::semantics::lemma_print_item_pos(s, i0, env, fuel);
        }
        let rest = self.print_rest_text(stmt, Ghost(fuel))?;
        self.output.extend_from_slice(text.as_slice());
        self.output.extend_from_slice(rest.as_slice());
        self.output.push(10);
        proof {
            assert(self.output@ =~= old(self).output@ + (text@ + rest@ + seq![10u8]));
        }
        Ok(())
    }

    /// Executes `GOTO expr`: evaluates the target and sets the program
    /// counter to it.
    fn goto_stmt(&mut self, stmt: &mut AsciiCharStream, Ghost(fuel): Ghost<nat>) -> (r: Result<
        (),
        Error,
    >)
        requires
            old(self).wf(),
            old(stmt).wf(),
            fuel >= eval_fuel(old(stmt).text(), old(stmt).cur()),
        ensures
            final(self).wf(),
            final(stmt).wf(),
            final(stmt).text() == old(stmt).text(),
            ({
                let s = old(stmt).text();
                let i = old(stmt).cur();
                match eval_expr(s, i, old(self).env(), fuel) {
                    Ok((v, p)) => if v < 1 {
                        r matches Err(e) && e.spec_kind() == ErrorKind::InvalidLineIndex && *final(self) == *old(self)
                    } else {
                        &&& r matches Ok(u)
                        &&& final(self).pc() == Some(v as int)
                        &&& *final(self) == Interpreter {
                            next_line_to_execute: final(self).next_line_to_execute,
                            ..*old(self)
                        }
                        &&& final(stmt).cur() == p
                    },
                    Err(k) => r matches Err(e) && e.spec_kind() == k && *final(self) == *old(self),
                }
            }),
    {
        let ghost fc = eval_fuel(old(stmt).text(), old(stmt).cur());
        proof {
            crate::semantics::lemma_eval_expr_fuel(
                stmt.text(),
                stmt.cur(),
                self.env(),
                fuel,
                fc,
            );
        }
        let v = self.expression(stmt)?;
        match LineIndex::try_from(v) {
            Ok(ix) => {
                self.next_line_to_execute = Some(ix);
                Ok(())
            },
            Err(k) => Err(Error::from_kind(k)),
        }
    }

    /// Executes `LET var = expr`: stores the value of the expression under
    /// the variable's name.
    fn let_stmt(&mut self, stmt: &mut AsciiCharStream, Ghost(fuel): Ghost<nat>) -> (r: Result<
        (),
        Error,
    >)
        requires
            old(self).wf(),
            old(stmt).wf(),
            fuel >= eval_fuel(old(stmt).text(), old(stmt).cur()),
        ensures
            final(self).wf(),
            final(stmt).wf(),
            final(stmt).text() == old(stmt).text(),
            ({
                let s = old(stmt).text();
                let i = old(stmt).cur();
                let ev1 = crate::text::scan_end(s, i, CharClass::Alpha);
                let ev2 = crate::text::scan_end(s, ev1, CharClass::VarBody);
                let name = s.subrange(i, ev2);
                let i2 = after_ws(s, ev2);
                if ev1 == i {
                    r matches Err(e) && e.spec_kind() == ErrorKind::ExpectedVariableName && *final(self) == *old(self)
                } else if !(i2 < s.len() && s[i2] == 61) {
                    r matches Err(e) && e.spec_kind() == ErrorKind::Expected('=') && *final(self)
                        == *old(self)
                } else {
                    match eval_expr(s, after_ws(s, i2 + 1), old(self).env(), fuel) {
                        Ok((v, p)) => {
                            &&& r matches Ok(u)
                            &&& final(self).env() == old(self).env().insert(name, v)
                            &&& *final(self) == Interpreter {
                                environment: final(self).environment,
                                ..*old(self)
                            }
                            &&& final(stmt).cur() == p
                        },
                        Err(k) => r matches Err(e) && e.spec_kind() == k && *final(self) == *old(self),
                    }
                }
            }),
    {
        let ghost s = stmt.text();
        let ghost i0 = stmt.cur();
        let name = match stmt.consume_var() {
            Some(n) => n,
            None => {
                return Err(
                    Error::from_context(stmt, ErrorKind::ExpectedVariableName, self.current_line()),
                );
            },
        };
        proof {
            crate::text::lemma_scan_end(s, i0, CharClass::Alpha);
            crate::text::lemma_scan_end(
                s,
                crate::text::scan_end(s, i0, CharClass::Alpha),
                CharClass::VarBody,
            );
        }
        if stmt.consume_char(61).is_none() {
            return Err(Error::from_context(stmt, ErrorKind::Expected('='), self.current_line()));
        }
        let ghost i3 = stmt.cur();
        proof {
            let ev2 = crate::text::scan_end(
                s,
                crate::text::scan_end(s, i0, CharClass::Alpha),
                CharClass::VarBody,
            );
            crate::text::lemma_scan_end(s, ev2, CharClass::Whitespace);
            crate::text::lemma_scan_end(s, after_ws(s, ev2) + 1, CharClass::Whitespace);
            crate::semantics::lemma_eval_expr_fuel(s, i3, self.env(), fuel, eval_fuel(s, i3));
        }
        let value = self.expression(stmt)?;
        self.env_set(name, value);
        Ok(())
    }

    /// Executes `GOSUB expr`: pushes the pending program counter on the
    /// return stack and transfers to the target line.  Outside of a run the
    /// program counter is unset and the statement is refused.
    fn gosub_stmt(&mut self, stmt: &mut AsciiCharStream, Ghost(fuel): Ghost<nat>) -> (r: Result<
        (),
        Error,
    >)
        requires
            old(self).wf(),
            old(stmt).wf(),
            fuel >= eval_fuel(old(stmt).text(), old(stmt).cur()),
        ensures
            final(self).wf(),
            final(stmt).wf(),
            final(stmt).text() == old(stmt).text(),
            ({
                let s = old(stmt).text();
                let i = old(stmt).cur();
                match eval_expr(s, i, old(self).env(), fuel) {
                    Ok((v, p)) => if v < 1 {
                        r matches Err(e) && e.spec_kind() == ErrorKind::InvalidLineIndex && *final(self) == *old(self)
                    } else {
                        match old(self).pc() {
                            None => r matches Err(e) && e.spec_kind()
                                == ErrorKind::CommandNotUsableInInteractiveMode && *final(self)
                                == *old(self),
                            Some(ret) => {
                                &&& r matches Ok(u)
                                &&& final(self).pc() == Some(v as int)
                                &&& final(self).stack() == old(self).stack().push(ret)
                                &&& *final(self) == Interpreter {
                                    next_line_to_execute: final(self).next_line_to_execute,
                                    return_stack: final(self).return_stack,
                                    ..*old(self)
                                }
                                &&& final(stmt).cur() == p
                            },
                        }
                    },
                    Err(k) => r matches Err(e) && e.spec_kind() == k && *final(self) == *old(self),
                }
            }),
    {
        let ghost fc = eval_fuel(old(stmt).text(), old(stmt).cur());
        proof {
            crate::semantics::lemma_eval_expr_fuel(stmt.text(), stmt.cur(), self.env(), fuel, fc);
        }
        let v = self.expression(stmt)?;
        let target = match LineIndex::try_from(v) {
            Ok(ix) => ix,
            Err(k) => {
                return Err(Error::from_kind(k));
            },
        };
        let ret = match self.next_line_to_execute {
            Some(ix) => ix,
            None => {
                return Err(
                    Error::from_context(
                        stmt,
                        ErrorKind::CommandNotUsableInInteractiveMode,
                        self.current_line(),
                    ),
                );
            },
        };
        self.return_stack.push(ret);
        self.next_line_to_execute = Some(target);
        proof {
            assert(self.stack() =~= old(self).stack().push(ret.spec_value()));
        }
        Ok(())
    }

    /// Executes `RETURN`: pops a line index off the return stack and
    /// transfers to it; an empty stack is an error.
    fn return_stmt(&mut self) -> (r: Result<(), Error>)
        ensures
            final(self).wf() == old(self).wf(),
            ({
                if old(self).stack().len() == 0 {
                    r matches Err(e) && e.spec_kind() == ErrorKind::ReturnOnEmptyStack && *final(self) == *old(self)
                } else {
                    &&& r matches Ok(u)
                    &&& final(self).pc() == Some(old(self).stack().last())
                    &&& final(self).stack() == old(self).stack().drop_last()
                    &&& *final(self) == Interpreter {
                        next_line_to_execute: final(self).next_line_to_execute,
                        return_stack: final(self).return_stack,
                        ..*old(self)
                    }
                }
            }),
    {
        if self.return_stack.len() == 0 {
            return Err(Error::from_kind(ErrorKind::ReturnOnEmptyStack));
        }
        match self.return_stack.pop() {
            Some(ret) => {
                self.next_line_to_execute = Some(ret);
                proof {
                    assert(self.stack() =~= old(self).stack().drop_last());
                }
                Ok(())
            },
            None => Err(Error::from_kind(ErrorKind::ReturnOnEmptyStack)),
        }
    }

    /// Executes `END`: halts the run by clearing the program counter, so the
    /// run loop stops.  (The error model reserves `ExecutionReachedEnd` for
    /// signalling this through the error channel; here the halt is written
    /// directly, which behaves the same.)
    fn end_stmt(&mut self) -> (r: Result<(), Error>)
        ensures
            r is Ok,
            final(self).pc() is None,
            (*final(self) == Interpreter {
                next_line_to_execute: final(self).next_line_to_execute,
                ..*old(self)
            }),
    {
        self.next_line_to_execute = None;
        Ok(())
    }

    /// Reads the variable list of an `INPUT` statement.
    fn input_var_list(&self, stmt: &mut AsciiCharStream, Ghost(fuel): Ghost<nat>) -> (r: Result<
        Vec<Vec<u8>>,
        Error,
    >)
        requires
            old(stmt).wf(),
            fuel >= eval_fuel(old(stmt).text(), old(stmt).cur()),
        ensures
            final(stmt).wf(),
            final(stmt).text() == old(stmt).text(),
            ({
                let s = old(stmt).text();
                let i = old(stmt).cur();
                match crate::semantics::input_vars(s, i, fuel) {
                    Ok((names, p)) => r matches Ok(v) && v@.map_values(|x: Vec<u8>| x@) == names
                        && final(stmt).cur() == p,
                    Err(k) => r matches Err(e) && e.spec_kind() == k,
                }
            }),
        decreases stmt.text().len() - stmt.cur(),
    {
        let ghost s = stmt.text();
        let ghost i0 = stmt.cur();
        let name = match stmt.consume_var() {
            Some(n) => n,
            None => {
                return Err(
                    Error::from_context(stmt, ErrorKind::ExpectedVariableName, self.current_line()),
                );
            },
        };
        proof {
            crate::text::lemma_scan_end(s, i0, CharClass::Alpha);
            crate::text::lemma_scan_end(
                s,
                crate::text::scan_end(s, i0, CharClass::Alpha),
                CharClass::VarBody,
            );
        }
        let ghost name_seq = name@;
        let mut list: Vec<Vec<u8>> = Vec::new();
        list.push(name);
        let ghost ev2 = crate::text::scan_end(
            s,
            crate::text::scan_end(s, i0, CharClass::Alpha),
            CharClass::VarBody,
        );
        proof {
            crate::text::lemma_scan_end(s, ev2, CharClass::Whitespace);
        }
        if stmt.consume_char(44).is_some() {
            proof {
                crate::text::lemma_scan_end(s, after_ws(s, ev2) + 1, CharClass::Whitespace);
            }
            let mut rest = self.input_var_list(stmt, Ghost((fuel - 1) as nat))?;
            let ghost rest_seq = rest@;
            list.append(&mut rest);
            proof {
                assert(list@.map_values(|x: Vec<u8>| x@) =~= seq![name_seq] + rest_seq.map_values(
                    |x: Vec<u8>| x@,
                ));
            }
            Ok(list)
        } else {
            proof {
                assert(list@.map_values(|x: Vec<u8>| x@) =~= seq![name_seq]);
            }
            Ok(list)
        }
    }

    /// Executes `INPUT var_list`: parses the variable names; when nothing
    /// follows them, writes the first prompt and awaits input.
    fn input_stmt(&mut self, stmt: &mut AsciiCharStream, Ghost(fuel): Ghost<nat>) -> (r: Result<
        ExecOutcome,
        Error,
    >)
        requires
            old(self).wf(),
            old(stmt).wf(),
            fuel >= eval_fuel(old(stmt).text(), old(stmt).cur()),
        ensures
            final(self).wf(),
            final(stmt).wf(),
            final(stmt).text() == old(stmt).text(),
            ({
                let s = old(stmt).text();
                let i = old(stmt).cur();
                match crate::semantics::input_vars(s, i, fuel) {
                    Ok((names, p)) => if p < s.len() {
                        r matches Ok(o) && o == ExecOutcome::Done && *final(self) == *old(self)
                            && final(stmt).cur() == p
                    } else {
                        &&& r matches Ok(o) && o == ExecOutcome::AwaitingInput
                        &&& final(self).output@ == old(self).output@
                            + crate::semantics::prompt_of(names[0])
                        &&& final(self).pending() == names
                        &&& *final(self) == Interpreter {
                            output: final(self).output,
                            pending_input: final(self).pending_input,
                            ..*old(self)
                        }
                        &&& final(stmt).cur() == p
                    },
                    Err(k) => r matches Err(e) && e.spec_kind() == k && *final(self) == *old(self),
                }
            }),
    {
        let names = self.input_var_list(stmt, Ghost(fuel))?;
        proof {
            crate::semantics::lemma_input_vars_shape(stmt.text(), old(stmt).cur(), fuel);
        }
        if stmt.is_empty() {
            self.output.extend_from_slice(names[0].as_slice());
            self.output.push(63);
            self.output.push(32);
            proof {
                assert(self.output@ =~= old(self).output@ + crate::semantics::prompt_of(
                    names@.map_values(|x: Vec<u8>| x@)[0],
                ));
            }
            self.pending_input = names;
            Ok(ExecOutcome::AwaitingInput)
        } else {
            Ok(ExecOutcome::Done)
        }
    }

    /// Executes `IF expr relop expr THEN statement`: when the condition
    /// holds, the trailing statement runs; otherwise the rest of the line is
    /// discarded.
    fn if_stmt(&mut self, stmt: &mut AsciiCharStream, Ghost(fuel): Ghost<nat>) -> (r: Result<
        ExecOutcome,
        Error,
    >)
        requires
            old(self).wf(),
            old(stmt).wf(),
            fuel >= eval_fuel(old(stmt).text(), old(stmt).cur()),
        ensures
            final(self).wf(),
            final(stmt).wf(),
            final(stmt).text() == old(stmt).text(),
            final(self).running == old(self).running,
            final(self).current_line_number == old(self).current_line_number,
            ({
                let s = old(stmt).text();
                let i = old(stmt).cur();
                match eval_expr(s, i, old(self).env(), fuel) {
                    Err(k) => r matches Err(e) && e.spec_kind() == k && *final(self) == *old(self),
                    Ok((lhs, p1)) => {
                        let (opo, p2) = crate::char_stream::relop_at(s, p1);
                        match opo {
                            None => r matches Err(e) && e.spec_kind()
                                == ErrorKind::ExpectedRelationalOperator && *final(self) == *old(self),
                            Some(op) => match eval_expr(s, p2, old(self).env(), fuel) {
                                Err(k) => r matches Err(e) && e.spec_kind() == k && *final(self)
                                    == *old(self),
                                Ok((rhs, p3)) => if crate::semantics::relop_holds(op, lhs, rhs) {
                                    let ek = crate::text::scan_end(s, p3, CharClass::Alpha);
                                    if ek == p3 || crate::char_stream::keyword_of(
                                        s.subrange(p3, ek),
                                    ) != Some(crate::char_stream::Keyword::Then) {
                                        r matches Err(e) && e.spec_kind()
                                            == ErrorKind::ExpectedKeyword && *final(self) == *old(self)
                                    } else {
                                        match crate::semantics::execute_spec(
                                            s,
                                            after_ws(s, ek),
                                            old(self).st(),
                                            (fuel - 1) as nat,
                                        ) {
                                            Ok((st2, o)) => r matches Ok(o2) && o2 == o && final(
                                                self
                                            ).st() == st2 && final(stmt).cur() == s.len(),
                                            Err(k) => r matches Err(e) && e.spec_kind() == k,
                                        }
                                    }
                                } else {
                                    r matches Ok(o) && o == ExecOutcome::Done && *final(self)
                                        == *old(self) && final(stmt).cur() == s.len()
                                },
                            },
                        }
                    },
                }
            }),
        decreases stmt.text().len() - stmt.cur(), 5int,
    {
        let ghost s = stmt.text();
        let ghost i0 = stmt.cur();
        let ghost env = self.env();
        proof {
            crate::semantics::lemma_eval_expr_fuel(s, i0, env, fuel, eval_fuel(s, i0));
        }
        let lhs = self.expression(stmt)?;
        let ghost p1 = stmt.cur();
        proof {
            crate::semantics::lemma_eval_expr_pos(s, i0, env, fuel);
        }
        let relop = match stmt.consume_relop() {
            Some(op) => op,
            None => {
                return Err(
                    Error::from_context(
                        stmt,
                        ErrorKind::ExpectedRelationalOperator,
                        self.current_line(),
                    ),
                );
            },
        };
        let ghost p2 = stmt.cur();
        proof {
            crate::char_stream::lemma_relop_at_pos(s, p1);
            crate::semantics::lemma_eval_expr_fuel(s, p2, env, fuel, eval_fuel(s, p2));
        }
        let rhs = self.expression(stmt)?;
        proof {
            crate::semantics::lemma_eval_expr_pos(s, p2, env, fuel);
        }
        let condition = match relop {
            RelationalOperator::Less => lhs < rhs,
            RelationalOperator::Greater => lhs > rhs,
            RelationalOperator::LessEqual => lhs <= rhs,
            RelationalOperator::GreaterEqual => lhs >= rhs,
            RelationalOperator::NotEqual => lhs != rhs,
            RelationalOperator::Equal => lhs == rhs,
        };
        if condition {
            let ghost p3 = stmt.cur();
            let then_seen = match stmt.consume_keyword() {
                Some(Keyword::Then) => true,
                _ => false,
            };
            if !then_seen {
                return Err(Error::from_context(stmt, ErrorKind::ExpectedKeyword, self.current_line()));
            }
            proof {
                crate::text::lemma_scan_end(s, p3, CharClass::Alpha);
                let ek = crate::text::scan_end(s, p3, CharClass::Alpha);
                crate::text::lemma_scan_end(s, ek, CharClass::Whitespace);
            }
            let o = self.execute_at(stmt, Ghost((fuel - 1) as nat))?;
            proof {
                assert(stmt.cur() == s.len());
            }
            Ok(o)
        } else {
            stmt.flush();
            Ok(ExecOutcome::Done)
        }
    }

    /// Parses and executes exactly one statement from `stmt`, which must end
    /// with it; afterwards the whole line must have been consumed.
    fn execute_at(&mut self, stmt: &mut AsciiCharStream, Ghost(fuel): Ghost<nat>) -> (r: Result<
        ExecOutcome,
        Error,
    >)
        requires
            old(self).wf(),
            old(stmt).wf(),
            fuel >= eval_fuel(old(stmt).text(), old(stmt).cur()),
        ensures
            final(self).wf(),
            final(stmt).wf(),
            final(stmt).text() == old(stmt).text(),
            final(self).running == old(self).running,
            final(self).current_line_number == old(self).current_line_number,
            ({
                let s = old(stmt).text();
                let i = old(stmt).cur();
                match crate::semantics::execute_spec(s, i, old(self).st(), fuel) {
                    Ok((st2, o)) => r matches Ok(o2) && o2 == o && final(self).st() == st2 && final(stmt).cur() >= s.len(),
                    Err(k) => r matches Err(e) && e.spec_kind() == k,
                }
            }),
        decreases stmt.text().len() - stmt.cur(), 6int,
    {
        proof {
            reveal(crate::semantics::exec_stmt);
        }
        let ghost s = stmt.text();
        let ghost i0 = stmt.cur();
        let ghost st0 = self.st();
        let statement = match stmt.consume_statement() {
            Some(k) => k,
            None => {
                return Err(
                    Error::from_context(stmt, ErrorKind::ExpectedStatement, self.current_line()),
                );
            },
        };
        proof {
            crate::text::lemma_scan_end(s, i0, CharClass::Alpha);
            crate::text::lemma_scan_end(
                s,
                crate::text::scan_end(s, i0, CharClass::Alpha),
                CharClass::Whitespace,
            );
        }
        let res: Result<ExecOutcome, Error> = match statement {
            Statement::Print => match self.print_stmt(stmt, Ghost(fuel)) {
                Ok(u) => Ok(ExecOutcome::Done),
                Err(e) => Err(e),
            },
            Statement::If => self.if_stmt(stmt, Ghost(fuel)),
            Statement::Goto => match self.goto_stmt(stmt, Ghost(fuel)) {
                Ok(u) => Ok(ExecOutcome::Done),
                Err(e) => Err(e),
            },
            Statement::Let => match self.let_stmt(stmt, Ghost(fuel)) {
                Ok(u) => Ok(ExecOutcome::Done),
                Err(e) => Err(e),
            },
            Statement::Gosub => match self.gosub_stmt(stmt, Ghost(fuel)) {
                Ok(u) => Ok(ExecOutcome::Done),
                Err(e) => Err(e),
            },
            Statement::Return => match self.return_stmt() {
                Ok(u) => Ok(ExecOutcome::Done),
                Err(e) => Err(e),
            },
            Statement::End => match self.end_stmt() {
                Ok(u) => Ok(ExecOutcome::Done),
                Err(e) => Err(e),
            },
            Statement::Input => self.input_stmt(stmt, Ghost(fuel)),
        };
        match res {
            Err(e) => Err(e),
            Ok(o) => {
                if stmt.is_empty() {
                    Ok(o)
                } else {
                    Err(
                        Error::from_context(
                            stmt,
                            ErrorKind::UnexpectedTokensAtEndOfLine,
                            self.current_line(),
                        ),
                    )
                }
            },
        }
    }

    /// Parses and executes exactly one statement from `stmt`.  On success
    /// the stream has been consumed to its end; anything left over is
    /// `UnexpectedTokensAtEndOfLine`.
    pub fn execute(&mut self, stmt: &mut AsciiCharStream) -> (r: Result<ExecOutcome, Error>)
        requires
            old(self).wf(),
            old(stmt).wf(),
        ensures
            final(self).wf(),
            final(stmt).wf(),
            final(stmt).text() == old(stmt).text(),
            final(self).running == old(self).running,
            final(self).current_line_number == old(self).current_line_number,
            ({
                let s = old(stmt).text();
                let i = old(stmt).cur();
                match crate::semantics::execute_spec(s, i, old(self).st(), eval_fuel(s, i)) {
                    Ok((st2, o)) => r matches Ok(o2) && o2 == o && final(self).st() == st2,
                    Err(k) => r matches Err(e) && e.spec_kind() == k,
                }
            }),
    {
        let ghost f = eval_fuel(stmt.text(), stmt.cur());
        self.execute_at(stmt, Ghost(f))
    }

    /// Begins a run of the stored program: the program counter is set to the
    /// lowest stored line.  An empty program finishes at once, with no
    /// effect.  The caller drives the run by calling `run_step` until it
    /// reports anything other than `Continuing`.
    pub fn run(&mut self, program: &crate::program_storage::ProgramStorage) -> (r: RunStep)
        requires
            old(self).wf(),
            program.wf(),
            old(self).pending().len() == 0,
        ensures
            final(self).wf(),
            program.spec_len() == 0 ==> r == RunStep::Finished && *final(self) == *old(self),
            program.spec_len() > 0 ==> ({
                &&& r == RunStep::Continuing
                &&& final(self).running
                &&& final(self).pc() matches Some(k) && program.has_key(k) && (forall|j: int|
                    #[trigger] program.has_key(j) ==> k <= j)
                &&& (*final(self) == Interpreter {
                    next_line_to_execute: final(self).next_line_to_execute,
                    running: true,
                    ..*old(self)
                })
            }),
    {
        match program.get_first_line_index() {
            None => RunStep::Finished,
            Some(ix) => {
                self.next_line_to_execute = Some(ix);
                self.running = true;
                RunStep::Continuing
            },
        }
    }

    /// Executes one line of a running program: records the line number for
    /// diagnostics, points the program counter at the following line, and
    /// executes the line's statement, whose own control transfers override
    /// the fall-through.  A run error clears the program counter.
    #[verifier::rlimit(100)]
    pub fn run_step(&mut self, program: &crate::program_storage::ProgramStorage) -> (r: Result<
        RunStep,
        Error,
    >)
        requires
            old(self).wf(),
            program.wf(),
            old(self).pending().len() == 0,
        ensures
            final(self).wf(),
            (!old(self).running || old(self).pc() is None) ==> (r matches Ok(o) && o
                == RunStep::Finished && (*final(self) == Interpreter {
                next_line_to_execute: None,
                running: false,
                ..*old(self)
            })),
            old(self).running ==> (old(self).pc() matches Some(cur) ==> ({
                let st1 = InterpState {
                    pc: program.successor_opt(cur),
                    ..old(self).st()
                };
                &&& final(self).current_line_number == old(self).next_line_to_execute
                &&& match program.spec_get(cur) {
                    None => r matches Ok(o) && o == RunStep::Continuing && final(self).st() == st1
                        && final(self).running,
                    Some(text) => match crate::semantics::execute_spec(
                        text,
                        0,
                        st1,
                        eval_fuel(text, 0),
                    ) {
                        Ok((st2, o2)) => r matches Ok(o3) && o3 == (if o2 == ExecOutcome::Done {
                            RunStep::Continuing
                        } else {
                            RunStep::AwaitingInput
                        }) && final(self).st() == st2 && final(self).running,
                        Err(k) => r matches Err(e) && e.spec_kind() == k && final(self).pc() is None
                            && !final(self).running,
                    },
                }
            })),
    {
        if !self.running {
            self.next_line_to_execute = None;
            self.running = false;
            return Ok(RunStep::Finished);
        }
        let cur_ix = match self.next_line_to_execute {
            Some(ix) => ix,
            None => {
                self.next_line_to_execute = None;
                self.running = false;
                return Ok(RunStep::Finished);
            },
        };
        self.current_line_number = Some(cur_ix);
        let next = program.get_following_line_index(cur_ix);
        proof {
            let k = cur_ix.spec_value();
            match next {
                Some(jx) => {
                    let j = jx.spec_value();
                    assert(program.has_successor(k));
                    let j0 = program.spec_successor(k);
                    assert(program.has_key(j0) && j0 > k && (forall|m: int|
                        #[trigger] program.has_key(m) && m > k ==> j0 <= m));
                    assert(j0 <= j && j <= j0);
                },
                None => {
                    if program.has_successor(k) {
                        let j = choose|j: int| #[trigger] program.has_key(j) && j > k;
                        assert(j <= k);
                        assert(false);
                    }
                },
            }
        }
        self.next_line_to_execute = next;
        let text = match program.get_line(cur_ix) {
            None => {
                return Ok(RunStep::Continuing);
            },
            Some(t) => t,
        };
        let mut stream = AsciiCharStream::from_ascii_str(text);
        match self.execute(&mut stream) {
            Ok(ExecOutcome::Done) => Ok(RunStep::Continuing),
            Ok(ExecOutcome::AwaitingInput) => Ok(RunStep::AwaitingInput),
            Err(e) => {
                self.next_line_to_execute = None;
                self.running = false;
                Err(e)
            },
        }
    }

    /// Supplies one line of input to the `INPUT` variable that awaits it:
    /// the line, trimmed, is stored as a number when it reads as one, and as
    /// the code of its first character otherwise.  When further variables
    /// await input the next prompt is written.  Input that is not ASCII is
    /// refused and aborts the run.
    pub fn provide_input(&mut self, line: Vec<u8>) -> (r: Result<ExecOutcome, Error>)
        requires
            old(self).wf(),
            old(self).pending().len() > 0,
            crate::semantics::trim_ws(line@).len() > 0,
        ensures
            final(self).wf(),
            ({
                if !ascii_text(line@) {
                    &&& r matches Err(e) && e.spec_kind() == ErrorKind::ExpectedAsciiInput
                    &&& final(self).pc() is None
                    &&& !final(self).running
                    &&& final(self).pending().len() == 0
                    &&& final(self).env() == old(self).env()
                    &&& final(self).output == old(self).output
                } else {
                    let v = crate::semantics::input_value(line@);
                    let name = old(self).pending()[0];
                    let rest = old(self).pending().drop_first();
                    &&& final(self).env() == old(self).env().insert(name, v)
                    &&& final(self).pending() == rest
                    &&& final(self).next_line_to_execute == old(self).next_line_to_execute
                    &&& final(self).running == old(self).running
                    &&& final(self).current_line_number == old(self).current_line_number
                    &&& final(self).return_stack == old(self).return_stack
                    &&& if rest.len() > 0 {
                        r matches Ok(o) && o == ExecOutcome::AwaitingInput && final(self).output@
                            == old(self).output@ + crate::semantics::prompt_of(rest[0])
                    } else {
                        r matches Ok(o) && o == ExecOutcome::Done && final(self).output == old(
                            self,
                        ).output
                    }
                }
            }),
    {
        if !crate::text::check_ascii(&line) {
            self.next_line_to_execute = None;
            self.running = false;
            self.pending_input = Vec::new();
            proof {
                assert(self.pending() =~= Seq::<Seq<u8>>::empty());
            }
            return Err(Error::from_kind(ErrorKind::ExpectedAsciiInput));
        }
        let value = input_line_value(&line);
        let name = self.pending_input.remove(0);
        proof {
            assert(self.pending() =~= old(self).pending().drop_first());
        }
        self.env_set(name, value);
        if self.pending_input.len() > 0 {
            self.output.extend_from_slice(self.pending_input[0].as_slice());
            self.output.push(63);
            self.output.push(32);
            proof {
                assert(self.output@ =~= old(self).output@ + crate::semantics::prompt_of(
                    self.pending()[0],
                ));
            }
            Ok(ExecOutcome::AwaitingInput)
        } else {
            Ok(ExecOutcome::Done)
        }
    }

    /// The number of the line being executed, as a plain number, for
    /// diagnostics.
    fn current_line(&self) -> (r: Option<Number>)
        ensures
            r == match self.current_line_number {
                Some(ix) => Some(ix.index),
                None => None::<Number>,
            },
    {
        match self.current_line_number {
            Some(ix) => Some(ix.value()),
            None => None,
        }
    }
}

/// Trims ASCII whitespace from both ends of a line.
pub fn trim_bytes(line: &Vec<u8>) -> (t: Vec<u8>)
    ensures
        t@ == crate::semantics::trim_ws(line@),
{
    let ghost s = line@;
    let n = line.len();
    let mut b: usize = 0;
    while b < n && byte_in_class(CharClass::Whitespace, line[b])
        invariant
            n == s.len(),
            s == line@,
            0 <= b <= n,
            after_ws(s, 0) == crate::text::scan_end(s, b as int, CharClass::Whitespace),
        decreases n - b,
    {
        proof {
            assert(crate::text::scan_end(s, b as int, CharClass::Whitespace)
                == crate::text::scan_end(s, b + 1, CharClass::Whitespace));
        }
        b += 1;
    }
    proof {
        assert(crate::text::scan_end(s, b as int, CharClass::Whitespace) == b);
    }
    let mut e: usize = n;
    while e > 0 && byte_in_class(CharClass::Whitespace, line[e - 1])
        invariant
            n == s.len(),
            s == line@,
            0 <= e <= n,
            crate::semantics::ws_trim_end(s, n as int) == crate::semantics::ws_trim_end(
                s,
                e as int,
            ),
        decreases e,
    {
        proof {
            assert(crate::semantics::ws_trim_end(s, e as int) == crate::semantics::ws_trim_end(
                s,
                e - 1,
            ));
        }
        e -= 1;
    }
    proof {
        assert(crate::semantics::ws_trim_end(s, e as int) == e);
    }
    let mut t: Vec<u8> = Vec::new();
    if b >= e {
        proof {
            assert(t@ =~= crate::semantics::trim_ws(s));
        }
        return t;
    }
    let mut k = b;
    while k < e
        invariant
            s == line@,
            b <= k <= e <= s.len(),
            t@ == s.subrange(b as int, k as int),
        decreases e - k,
    {
        t.push(line[k]);
        k += 1;
        proof {
            assert(s.subrange(b as int, k as int) =~= s.subrange(b as int, k - 1).push(
                s[k - 1],
            ));
        }
    }
    proof {
        assert(t@ =~= crate::semantics::trim_ws(s));
    }
    t
}

/// Reads a trimmed line as a signed number literal.
fn parse_signed_bytes(t: &Vec<u8>) -> (r: Option<Number>)
    ensures
        r == crate::semantics::parse_signed(t@),
{
    let n = t.len();
    if n == 0 {
        return None;
    }
    let neg = t[0] == 45;
    let start: usize = if t[0] == 45 || t[0] == 43 {
        1
    } else {
        0
    };
    let ghost d = if t@[0] == 45 || t@[0] == 43 {
        t@.drop_first()
    } else {
        t@
    };
    proof {
        assert(d =~= t@.subrange(start as int, n as int));
    }
    if start >= n {
        return None;
    }
    let mut digits: Vec<u8> = Vec::new();
    let mut k = start;
    while k < n
        invariant
            n == t@.len(),
            start <= k <= n,
            start == (if t@[0] == 45 || t@[0] == 43 {
                1int
            } else {
                0int
            }),
            d == (if t@[0] == 45 || t@[0] == 43 {
                t@.drop_first()
            } else {
                t@
            }),
            d == t@.subrange(start as int, n as int),
            digits@ == t@.subrange(start as int, k as int),
            forall|j: int| 0 <= j < digits@.len() ==> crate::text::is_digit_byte(#[trigger] digits@[j]),
        decreases n - k,
    {
        let c = t[k];
        if !(48 <= c && c <= 57) {
            proof {
                assert(d[k - start] == c);
                assert(!crate::text::is_digit_byte(d[k - start]));
                assert(0 <= k - start < d.len());
                assert(!crate::semantics::all_digits(d));
            }
            return None;
        }
        digits.push(c);
        k += 1;
        proof {
            assert(t@.subrange(start as int, k as int) =~= t@.subrange(start as int, k - 1).push(
                t@[k - 1],
            ));
        }
    }
    proof {
        assert(digits@ =~= d);
        assert(crate::semantics::all_digits(d));
        crate::text::lemma_digits_val_nonneg(d);
    }
    if neg {
        match crate::text::parse_digits(&digits, 32768) {
            Some(v) => if v == 32768 {
                Some(Number::MIN)
            } else {
                Some(-(v as Number))
            },
            None => None,
        }
    } else {
        match crate::text::parse_digits(&digits, 32767) {
            Some(v) => Some(v as Number),
            None => None,
        }
    }
}

/// The value one line of `INPUT` stores: the trimmed line as a number, or
/// the code of its first character.
fn input_line_value(line: &Vec<u8>) -> (r: Number)
    requires
        crate::semantics::trim_ws(line@).len() > 0,
    ensures
        r == crate::semantics::input_value(line@),
{
    let t = trim_bytes(line);
    match parse_signed_bytes(&t) {
        Some(v) => v,
        None => t[0] as Number,
    }
}

} // verus!
