//! The read-eval-print state: classifying one input line as a numbered line,
//! a command or a statement, and dispatching it to the stored program or the
//! interpreter.
//!
//! Reading lines, writing the collected output and printing diagnostics are
//! the caller's work; this module only decides and records.

use vstd::prelude::*;
use crate::char_stream::{command_of, keyword_of, statement_of, AsciiCharStream};
use crate::code_line::{line_digits_end, line_number_value, line_statement, Line};
use crate::error::{Error, ErrorKind};
use crate::interpreter::{Interpreter, RunStep};
use crate::program_storage::ProgramStorage;
use crate::semantics::{eval_fuel, trim_ws, ExecOutcome};
use crate::text::{ascii_text, check_ascii, dec_rep, push_dec, scan_end, CharClass};
use crate::types::{LineIndex, Number};

verus! {

/// What handling one input line amounts to: nothing worth acknowledging, a
/// completed statement or command (the caller prints `OK`), a started run
/// that the caller must drive with `run_step`, or a statement that awaits
/// input.
#[derive(Clone, Copy, Debug, PartialEq, Eq, Structural)]
pub enum ReplOutcome {
    Silent,
    Acknowledge,
    RunStarted,
    AwaitingInput,
}

/// One stored line of a listing: the index, a space, the text, a newline.
pub open spec fn line_text(ix: int, text: Seq<u8>) -> Seq<u8> {
    dec_rep(ix) + seq![32u8] + text + seq![10u8]
}

/// The `LIST` output: every stored line in ascending index order.
pub open spec fn listing_of(entries: Seq<(LineIndex, Vec<u8>)>) -> Seq<u8>
    decreases entries.len(),
{
    if entries.len() == 0 {
        Seq::empty()
    } else {
        line_text(entries[0].0.spec_value(), entries[0].1@) + listing_of(entries.drop_first())
    }
}

/// How one unnumbered line is handled, as a relation between the session
/// before and after: a command is dispatched, a statement is executed, and
/// anything else is ignored.
pub open spec fn immediate_case(
    t: Seq<u8>,
    pre: Repl,
    post: Repl,
    r: Result<ReplOutcome, Error>,
) -> bool {
    let ke = scan_end(t, 0, CharClass::Alpha);
    let kw = if ke == 0 {
        None
    } else {
        keyword_of(t.subrange(0, ke))
    };
    let cmd = match kw {
        Some(k) => command_of(k),
        None => None,
    };
    let stmt = match kw {
        Some(k) => statement_of(k),
        None => None,
    };
    match cmd {
        Some(crate::char_stream::Command::Run) => {
            &&& post.program == pre.program
            &&& if pre.program.spec_len() == 0 {
                r matches Ok(o) && o == ReplOutcome::Acknowledge && post.interpreter
                    == pre.interpreter
            } else {
                &&& r matches Ok(o) && o == ReplOutcome::RunStarted
                &&& post.interpreter.running
                &&& post.interpreter.pc() matches Some(k) && pre.program.has_key(k) && (forall|
                    j: int,
                |
                    #[trigger] pre.program.has_key(j) ==> k <= j)
                &&& post.interpreter.st().env == pre.interpreter.st().env
                &&& post.interpreter.output == pre.interpreter.output
            }
        },
        Some(crate::char_stream::Command::List) => {
            &&& r matches Ok(o) && o == ReplOutcome::Silent
            &&& post.program == pre.program
            &&& post.interpreter.output@ == pre.interpreter.output@ + listing_of(
                pre.program.entries@,
            )
            &&& post.interpreter.env() == pre.interpreter.env()
        },
        Some(crate::char_stream::Command::Clear) => {
            &&& r matches Ok(o) && o == ReplOutcome::Silent
            &&& post.interpreter == pre.interpreter
            &&& post.program.spec_len() == 0
            &&& forall|k: int| post.program.spec_get(k) is None
        },
        None => {
            match stmt {
                None => r matches Ok(o) && o == ReplOutcome::Silent && post == pre,
                Some(_) => {
                    &&& post.program == pre.program
                    &&& match crate::semantics::execute_spec(
                        t,
                        0,
                        pre.interpreter.st(),
                        eval_fuel(t, 0),
                    ) {
                        Ok((st2, o2)) => r matches Ok(o3) && o3 == (if o2 == ExecOutcome::Done {
                            ReplOutcome::Acknowledge
                        } else {
                            ReplOutcome::AwaitingInput
                        }) && post.interpreter.st() == st2,
                        Err(k) => r matches Err(err) && err.spec_kind() == k,
                    }
                },
            }
        },
    }
}

/// The interpreter and the stored program, as the read-eval-print loop
/// drives them.
pub struct Repl {
    pub interpreter: Interpreter,
    pub program: ProgramStorage,
}

impl Repl {
    pub open spec fn wf(self) -> bool {
        &&& self.interpreter.wf()
        &&& self.program.wf()
    }

    /// A fresh session: an empty program and a fresh interpreter.
    pub fn new() -> (r: Self)
        ensures
            r.wf(),
            r.program.spec_len() == 0,
            r.interpreter.pending().len() == 0,
            r.interpreter.output@ == Seq::<u8>::empty(),
    {
        Repl { interpreter: Interpreter::new(), program: ProgramStorage::new() }
    }

    /// Hands out the output collected so far and clears the buffer.
    pub fn take_output(&mut self) -> (r: Vec<u8>)
        ensures
            r@ == old(self).interpreter.output@,
            final(self).interpreter.output@ == Seq::<u8>::empty(),
            (*final(self) == Repl {
                interpreter: Interpreter {
                    output: final(self).interpreter.output,
                    ..old(self).interpreter
                },
                ..*old(self)
            }),
    {
        let r = self.interpreter.output.split_off(0);
        proof {
            assert(r@ =~= old(self).interpreter.output@);
            assert(self.interpreter.output@ =~= Seq::<u8>::empty());
        }
        r
    }

    /// The `LIST` text of the stored program.
    pub fn listing(&self) -> (r: Vec<u8>)
        requires
            self.program.wf(),
        ensures
            r@ == listing_of(self.program.entries@),
    {
        let ghost entries = self.program.entries@;
        let n = self.program.entries.len();
        let mut out: Vec<u8> = Vec::new();
        let mut k: usize = 0;
        proof {
            assert(entries.skip(0) =~= entries);
            assert(Seq::<u8>::empty() + listing_of(entries) =~= listing_of(entries));
        }
        while k < n
            invariant
                self.program.wf(),
                entries == self.program.entries@,
                n == entries.len(),
                0 <= k <= n,
                listing_of(entries) =~= out@ + listing_of(entries.skip(k as int)),
            decreases n - k,
        {
            proof {
                assert(entries.skip(k as int).drop_first() =~= entries.skip(k + 1));
                assert(entries.skip(k as int)[0] == entries[k as int]);
            }
            let ix = self.program.entries[k].0;
            push_dec(&mut out, ix.value());
            out.push(32);
            out.extend_from_slice(self.program.entries[k].1.as_slice());
            out.push(10);
            k += 1;
        }
        proof {
            assert(entries.skip(n as int) =~= Seq::<(LineIndex, Vec<u8>)>::empty());
            assert(out@ + Seq::<u8>::empty() =~= out@);
        }
        out
    }

    /// Handles one input line: a numbered line edits the stored program, a
    /// command is dispatched, and anything else is executed as an immediate
    /// statement.  Input that is not ASCII is refused.
    #[verifier::rlimit(100)]
    pub fn process_line(&mut self, line: Vec<u8>) -> (r: Result<ReplOutcome, Error>)
        requires
            old(self).wf(),
            old(self).interpreter.pending().len() == 0,
            !old(self).interpreter.running,
        ensures
            final(self).wf(),
            ({
                let t = trim_ws(line@);
                let e = line_digits_end(t);
                if !ascii_text(line@) {
                    &&& r matches Err(err) && err.spec_kind() == ErrorKind::ExpectedAsciiInput
                    &&& *final(self) == *old(self)
                } else if e > 0 {
                    if line_number_value(t) > Number::MAX {
                        r matches Err(err) && err.spec_kind() == ErrorKind::NumberParseError(
                            crate::error::NumberParseErrorKind::PosOverflow,
                        ) && *final(self) == *old(self)
                    } else if line_number_value(t) < 1 {
                        r matches Err(err) && err.spec_kind() == ErrorKind::InvalidLineIndex
                            && *final(self) == *old(self)
                    } else {
                        let ix = line_number_value(t);
                        let body = line_statement(t);
                        &&& r matches Ok(o) && o == ReplOutcome::Silent
                        &&& final(self).interpreter == old(self).interpreter
                        &&& final(self).program.spec_get(ix) == (if body.len() == 0 {
                            None
                        } else {
                            Some(body)
                        })
                        &&& forall|k: int|
                            k != ix ==> #[trigger] final(self).program.spec_get(k) == old(
                                self,
                            ).program.spec_get(k)
                    }
                } else {
                    immediate_case(t, *old(self), *final(self), r)
                }
            }),
    {
        if !check_ascii(&line) {
            return Err(Error::from_kind(ErrorKind::ExpectedAsciiInput));
        }
        let trimmed = crate::interpreter::trim_bytes(&line);
        proof {
            crate::semantics::lemma_trim_ws_ascii(line@);
        }
        let parsed = match Line::parse(trimmed) {
            Ok(l) => l,
            Err(k) => {
                proof {
                    crate::text::lemma_scan_end(trim_ws(line@), 0, CharClass::Digit);
                    assert(line_digits_end(trim_ws(line@)) > 0);
                }
                return Err(Error::from_kind(k));
            },
        };
        proof {
            let t0 = trim_ws(line@);
            crate::semantics::lemma_trim_ws_ascii(line@);
            crate::text::lemma_scan_end(t0, 0, CharClass::Digit);
            crate::text::lemma_scan_end(t0, line_digits_end(t0), CharClass::Whitespace);
            assert forall|i: int| 0 <= i < parsed.statement@.len() implies crate::text::is_ascii_byte(
                #[trigger] parsed.statement@[i],
            ) by {
                if line_digits_end(t0) == 0 {
                    assert(parsed.statement@[i] == t0[i]);
                } else {
                    let b = crate::text::after_ws(t0, line_digits_end(t0));
                    assert(parsed.statement@[i] == t0[b + i]);
                }
            }
        }
        match parsed.index {
            Some(ix) => {
                if parsed.statement.len() == 0 {
                    self.program.erase_line(ix);
                } else {
                    self.program.insert_line(ix, parsed.statement);
                }
                Ok(ReplOutcome::Silent)
            },
            None => self.immediate_line(parsed.statement),
        }
    }

    /// Handles one unnumbered line: a command or an immediate statement.
    fn immediate_line(&mut self, statement: Vec<u8>) -> (r: Result<ReplOutcome, Error>)
        requires
            old(self).wf(),
            ascii_text(statement@),
            old(self).interpreter.pending().len() == 0,
            !old(self).interpreter.running,
        ensures
            final(self).wf(),
            immediate_case(statement@, *old(self), *final(self), r),
    {
        let mut probe = AsciiCharStream::from_ascii_str(statement);
        let ghost t = probe.text();
                match probe.consume_command() {
                    Some(crate::char_stream::Command::Run) => {
                        match self.interpreter.run(&self.program) {
                            RunStep::Finished => Ok(ReplOutcome::Acknowledge),
                            _ => Ok(ReplOutcome::RunStarted),
                        }
                    },
                    Some(crate::char_stream::Command::List) => {
                        let text = self.listing();
                        self.interpreter.output.extend_from_slice(text.as_slice());
                        proof {
                            assert(self.interpreter.output@ =~= old(self).interpreter.output@
                                + text@);
                        }
                        Ok(ReplOutcome::Silent)
                    },
                    Some(crate::char_stream::Command::Clear) => {
                        self.program.clear();
                        Ok(ReplOutcome::Silent)
                    },
                    None => {
                        let mut stream = AsciiCharStream::from_ascii_str(probe.get_stream());
                        let mut stmt_probe = AsciiCharStream::from_ascii_str(probe.get_stream());
                        match stmt_probe.consume_statement() {
                            None => Ok(ReplOutcome::Silent),
                            Some(_) => {
                                match self.interpreter.execute(&mut stream) {
                                    Ok(ExecOutcome::Done) => Ok(ReplOutcome::Acknowledge),
                                    Ok(ExecOutcome::AwaitingInput) => Ok(ReplOutcome::AwaitingInput),
                                    Err(e) => Err(e),
                                }
                            },
                        }
                    },
                }
    }
}

} // verus!
