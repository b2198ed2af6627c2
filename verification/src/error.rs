//! The error model: tagged error kinds, optionally carrying the offending
//! line number, the statement text and the offset at which parsing stopped.

use vstd::prelude::*;
use vstd::string::StringSliceAdditionalSpecFns;
use crate::char_stream::AsciiCharStream;
use crate::text::{dec_rep, push_dec, push_str_bytes};
use crate::types::Number;

verus! {

/// Why a number literal could not be parsed.
#[derive(Clone, Copy, Debug, PartialEq, Eq, Structural)]
pub enum NumberParseErrorKind {
    /// The digits name a value above the largest `Number`.
    PosOverflow,
}

/// The kinds of errors that tokenizing, parsing and execution can raise.
#[derive(Clone, Copy, Debug, PartialEq, Eq, Structural)]
pub enum ErrorKind {
    /// A specific character was required and not found.
    Expected(char),
    ExpectedKeyword,
    UnexpectedOperator,
    FactorCouldNotBeParsed,
    UnexpectedTokensAtEndOfLine,
    ExpectedRelationalOperator,
    UnexpectedKeyword,
    ExpectedVariableName,
    NumberParseError(NumberParseErrorKind),
    /// A number stood where a line index was required and was out of range.
    InvalidLineIndex,
    /// `GOSUB` was executed while no stored program was running.
    CommandNotUsableInInteractiveMode,
    /// `RETURN` was executed with an empty return stack.
    ReturnOnEmptyStack,
    /// Internal signal reserved for `END` reaching the end of execution; it
    /// never escapes `execute` and is never rendered.
    ExecutionReachedEnd,
    /// The caller passed bytes that are not ASCII.
    ExpectedAsciiInput,
    ExpectedStatement,
    ExpectedCommand,
}

/// An error kind together with its diagnostic context: the line number being
/// executed, the text being parsed, and the offset where parsing stopped.
#[derive(Debug)]
pub struct Error {
    pub line_number: Option<Number>,
    pub context: Option<Vec<u8>>,
    pub location: Option<usize>,
    pub kind: ErrorKind,
}

impl Error {
    pub open spec fn spec_kind(self) -> ErrorKind {
        self.kind
    }

    pub open spec fn spec_line_number(self) -> Option<Number> {
        self.line_number
    }

    pub open spec fn spec_context(self) -> Option<Seq<u8>> {
        match self.context {
            Some(c) => Some(c@),
            None => None,
        }
    }

    pub open spec fn spec_location(self) -> Option<usize> {
        self.location
    }

    /// An error of kind `kind` with no context recorded.
    pub fn from_kind(kind: ErrorKind) -> (r: Error)
        ensures
            r.spec_kind() == kind,
            r.spec_line_number() is None,
            r.spec_context() is None,
            r.spec_location() is None,
    {
        Error { line_number: None, context: None, location: None, kind }
    }

    /// An error of kind `kind` raised at the current position of `context`,
    /// while executing the line numbered `line_number` (if any).
    pub fn from_context(context: &AsciiCharStream, kind: ErrorKind, line_number: Option<Number>) -> (r:
        Error)
        ensures
            r.spec_kind() == kind,
            r.spec_line_number() == line_number,
            r.spec_context() == Some(context.text()),
            r.spec_location() == Some(context.location()),
    {
        Error {
            line_number,
            context: Some(context.get_stream()),
            location: Some(context.get_location()),
            kind,
        }
    }

    /// Records the context stream, unless one was already recorded.
    pub fn set_context(self, context: &AsciiCharStream) -> (r: Error)
        ensures
            r.spec_kind() == self.spec_kind(),
            r.spec_line_number() == self.spec_line_number(),
            r.spec_context() == if self.spec_context() is Some {
                self.spec_context()
            } else {
                Some(context.text())
            },
            r.spec_location() == if self.spec_location() is Some {
                self.spec_location()
            } else {
                Some(context.location())
            },
    {
        let Error { line_number, context: old_context, location, kind } = self;
        let new_context = match old_context {
            Some(c) => Some(c),
            None => Some(context.get_stream()),
        };
        let new_location = match location {
            Some(l) => Some(l),
            None => Some(context.get_location()),
        };
        Error { line_number, context: new_context, location: new_location, kind }
    }

    /// Replaces the recorded line number.
    pub fn set_line_number(self, line_number: Option<Number>) -> (r: Error)
        ensures
            r.spec_kind() == self.spec_kind(),
            r.spec_line_number() == line_number,
            r.spec_context() == self.spec_context(),
            r.spec_location() == self.spec_location(),
    {
        Error { line_number, ..self }
    }

    pub fn get_kind(&self) -> (r: ErrorKind)
        ensures
            r == self.spec_kind(),
    {
        self.kind
    }
}


/// The description of an error kind.  `ExecutionReachedEnd` is an internal
/// signal and is never described.
pub open spec fn kind_msg(k: ErrorKind) -> Seq<u8> {
    match k {
        ErrorKind::Expected(c) => ("Expected ").spec_bytes() + seq![c as u8],
        ErrorKind::ExpectedKeyword => ("Expected keyword").spec_bytes(),
        ErrorKind::UnexpectedOperator => ("Unexpected operator").spec_bytes(),
        ErrorKind::FactorCouldNotBeParsed => ("Factor could not be parsed").spec_bytes(),
        ErrorKind::UnexpectedTokensAtEndOfLine => (
        "Unexpected tokens at the end of line").spec_bytes(),
        ErrorKind::ExpectedRelationalOperator => ("Expected relational operator").spec_bytes(),
        ErrorKind::UnexpectedKeyword => ("Unexpected keyword").spec_bytes(),
        ErrorKind::ExpectedVariableName => ("Expected variable name").spec_bytes(),
        ErrorKind::NumberParseError(_) => ("Number could not be parsed").spec_bytes(),
        ErrorKind::InvalidLineIndex => ("Invalid line index").spec_bytes(),
        ErrorKind::CommandNotUsableInInteractiveMode => (
        "This command is not intended to be used in interactive mode").spec_bytes(),
        ErrorKind::ReturnOnEmptyStack => (
        "Attempt to RETURN while the return stack is empty").spec_bytes(),
        ErrorKind::ExecutionReachedEnd => Seq::empty(),
        ErrorKind::ExpectedAsciiInput => ("All input is expected to be ASCII-only").spec_bytes(),
        ErrorKind::ExpectedStatement => ("Expected statement").spec_bytes(),
        ErrorKind::ExpectedCommand => ("Expected command").spec_bytes(),
    }
}

/// `n` copies of the byte `c`.
pub open spec fn byte_run(c: u8, n: int) -> Seq<u8> {
    Seq::new(if n >= 0 {
        n as nat
    } else {
        0
    }, |i: int| c)
}

/// The rendered diagnostic: the kind's description; then, when a context was
/// recorded, the offending line (prefixed by its line number) with a caret
/// underline anchored at the recorded offset.
pub open spec fn render_spec(e: Error) -> Seq<u8> {
    let header = ("Error: ").spec_bytes() + kind_msg(e.spec_kind()) + seq![10u8, 10u8];
    match e.spec_context() {
        None => header,
        Some(ctx) => {
            let prefix: Seq<u8> = match e.spec_line_number() {
                Some(n) => dec_rep(n as int) + seq![32u8],
                None => Seq::empty(),
            };
            let errloc = prefix.len() + match e.spec_location() {
                Some(l) => l as int,
                None => 0,
            };
            let carets = if ctx.len() > 0 {
                ctx.len() as int
            } else {
                3
            };
            header + prefix + ctx + seq![10u8] + byte_run(32, errloc) + byte_run(94, carets)
        },
    }
}

impl ErrorKind {
    /// The description of this kind, as ASCII text.
    ///
    /// `ExecutionReachedEnd` is an internal signal that is never shown.
    pub fn describe(&self) -> (r: Vec<u8>)
        requires
            *self != ErrorKind::ExecutionReachedEnd,
        ensures
            r@ == kind_msg(*self),
    {
        let mut out: Vec<u8> = Vec::new();
        match self {
            ErrorKind::Expected(c) => {
                push_str_bytes(&mut out, "Expected ");
                out.push((*c as u32) as u8);
                proof {
                    assert(out@ =~= kind_msg(*self));
                }
            },
            ErrorKind::ExpectedKeyword => push_str_bytes(&mut out, "Expected keyword"),
            ErrorKind::UnexpectedOperator => push_str_bytes(&mut out, "Unexpected operator"),
            ErrorKind::FactorCouldNotBeParsed => push_str_bytes(
                &mut out,
                "Factor could not be parsed",
            ),
            ErrorKind::UnexpectedTokensAtEndOfLine => push_str_bytes(
                &mut out,
                "Unexpected tokens at the end of line",
            ),
            ErrorKind::ExpectedRelationalOperator => push_str_bytes(
                &mut out,
                "Expected relational operator",
            ),
            ErrorKind::UnexpectedKeyword => push_str_bytes(&mut out, "Unexpected keyword"),
            ErrorKind::ExpectedVariableName => push_str_bytes(&mut out, "Expected variable name"),
            ErrorKind::NumberParseError(_) => push_str_bytes(&mut out, "Number could not be parsed"),
            ErrorKind::InvalidLineIndex => push_str_bytes(&mut out, "Invalid line index"),
            ErrorKind::CommandNotUsableInInteractiveMode => push_str_bytes(
                &mut out,
                "This command is not intended to be used in interactive mode",
            ),
            ErrorKind::ReturnOnEmptyStack => push_str_bytes(
                &mut out,
                "Attempt to RETURN while the return stack is empty",
            ),
            ErrorKind::ExecutionReachedEnd => {},
            ErrorKind::ExpectedAsciiInput => push_str_bytes(
                &mut out,
                "All input is expected to be ASCII-only",
            ),
            ErrorKind::ExpectedStatement => push_str_bytes(&mut out, "Expected statement"),
            ErrorKind::ExpectedCommand => push_str_bytes(&mut out, "Expected command"),
        }
        out
    }
}

impl Error {
    /// Renders the diagnostic text for this error.
    pub fn render(&self) -> (r: Vec<u8>)
        requires
            self.spec_kind() != ErrorKind::ExecutionReachedEnd,
            self.spec_location() matches Some(l) ==> l <= usize::MAX - 8,
        ensures
            r@ == render_spec(*self),
    {
        let mut out: Vec<u8> = Vec::new();
        push_str_bytes(&mut out, "Error: ");
        let msg = self.kind.describe();
        out.extend_from_slice(msg.as_slice());
        out.push(10);
        out.push(10);
        let ctx = match &self.context {
            None => {
                proof {
                    assert(out@ =~= render_spec(*self));
                }
                return out;
            },
            Some(c) => c,
        };
        let ghost header = out@;
        let mut errloc: usize = 0;
        match self.line_number {
            Some(n) => {
                let before = out.len();
                push_dec(&mut out, n);
                out.push(32);
                errloc = out.len() - before;
            },
            None => (),
        }
        let ghost prefix = out@.subrange(header.len() as int, out@.len() as int);
        proof {
            assert(out@ =~= header + prefix);
        }
        proof {
            if self.line_number is Some {
                reveal_with_fuel(crate::text::pow10, 6);
                assert(crate::text::pow10(5) == 100000);
                crate::text::lemma_dec_digits_len(
                    if self.line_number->0 < 0 {
                        -(self.line_number->0 as int)
                    } else {
                        self.line_number->0 as int
                    },
                    5,
                );
                assert(errloc <= 7);
            }
        }
        match self.location {
            Some(l) => {
                errloc = errloc + l;
            },
            None => (),
        }
        out.extend_from_slice(ctx.as_slice());
        out.push(10);
        let caret_count = if ctx.len() > 0 {
            ctx.len()
        } else {
            3
        };
        let ghost mid = out@;
        let mut k: usize = 0;
        while k < errloc
            invariant
                0 <= k <= errloc,
                out@ == mid + byte_run(32, k as int),
            decreases errloc - k,
        {
            out.push(32);
            k += 1;
            proof {
                assert(mid + byte_run(32, k - 1) + seq![32u8] =~= mid + byte_run(32, k as int));
            }
        }
        let ghost mid2 = out@;
        let mut j: usize = 0;
        while j < caret_count
            invariant
                0 <= j <= caret_count,
                out@ == mid2 + byte_run(94, j as int),
            decreases caret_count - j,
        {
            out.push(94);
            j += 1;
            proof {
                assert(mid2 + byte_run(94, j - 1) + seq![94u8] =~= mid2 + byte_run(94, j as int));
            }
        }
        proof {
            assert(out@ =~= render_spec(*self));
        }
        out
    }
}

} // verus!
