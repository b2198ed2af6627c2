//! Splitting one input line into an optional line index and a statement body.

use vstd::prelude::*;
use crate::char_stream::AsciiCharStream;
use crate::error::{ErrorKind, NumberParseErrorKind};
use crate::text::{after_ws, ascii_text, digits_val, is_digit_byte, scan_end, CharClass};
use crate::types::{LineIndex, Number};

verus! {

/// An input line, split into its optional line index and the statement text
/// that follows it.
pub struct Line {
    pub index: Option<LineIndex>,
    pub statement: Vec<u8>,
}

/// How a line splits: the digit run at its start (if any), its value, and
/// where the statement text begins.
pub open spec fn line_digits_end(s: Seq<u8>) -> int {
    scan_end(s, 0, CharClass::Digit)
}

/// The value of the leading digit run of `s`.
pub open spec fn line_number_value(s: Seq<u8>) -> int {
    digits_val(s.subrange(0, line_digits_end(s)))
}

/// The statement body of a numbered line: what follows the digits and the
/// whitespace after them.
pub open spec fn line_statement(s: Seq<u8>) -> Seq<u8> {
    s.subrange(after_ws(s, line_digits_end(s)), s.len() as int)
}

impl Line {
    /// Splits `value` into an optional line index and the statement body.
    ///
    /// A line that starts with digits is a numbered line: the digits must
    /// parse as a `Number` (otherwise `NumberParseError`) and lie in the
    /// line-index range (otherwise `InvalidLineIndex`).  Any other line is a
    /// bare statement.
    pub fn parse(value: Vec<u8>) -> (r: Result<Line, ErrorKind>)
        requires
            ascii_text(value@),
        ensures
            ({
                let s = value@;
                let e = line_digits_end(s);
                if e == 0 {
                    r matches Ok(line) && line.index is None && line.statement@ == s
                } else if line_number_value(s) > Number::MAX {
                    r matches Err(k) && k == ErrorKind::NumberParseError(
                        NumberParseErrorKind::PosOverflow,
                    )
                } else if line_number_value(s) < 1 {
                    r matches Err(k) && k == ErrorKind::InvalidLineIndex
                } else {
                    r matches Ok(line) && line.index matches Some(ix) && ix.spec_value()
                        == line_number_value(s) && ix.valid() && line.statement@
                        == line_statement(s)
                }
            }),
    {
        let ghost s = value@;
        let mut stream = AsciiCharStream::from_ascii_str(value);
        match stream.consume_number() {
            Some(digits) => {
                proof {
                    crate::text::lemma_scan_end(s, 0, CharClass::Digit);
                }
                let number = crate::types::parse_number(&digits)?;
                let index = LineIndex::try_from(number)?;
                let statement = stream.flush();
                Ok(Line { index: Some(index), statement })
            },
            None => {
                let statement = stream.flush();
                proof {
                    assert(statement@ =~= s);
                }
                Ok(Line { index: None, statement })
            },
        }
    }
}

/// The length of the run of decimal digits that begins `line`, or nothing
/// when `line` does not start with a digit.
pub fn get_line_number_end(line: &Vec<u8>) -> (r: Option<usize>)
    ensures
        r == if line@.len() > 0 && is_digit_byte(line@[0]) {
            Some(scan_end(line@, 0, CharClass::Digit) as usize)
        } else {
            None::<usize>
        },
{
    proof {
        crate::text::lemma_scan_end(line@, 0, CharClass::Digit);
    }
    if line.len() == 0 || !(48 <= line[0] && line[0] <= 57) {
        return None;
    }
    let ghost s = line@;
    let n = line.len();
    let mut j: usize = 0;
    while j < n && 48 <= line[j] && line[j] <= 57
        invariant
            n == s.len(),
            s == line@,
            0 <= j <= n,
            scan_end(s, 0, CharClass::Digit) == scan_end(s, j as int, CharClass::Digit),
        decreases n - j,
    {
        proof {
            assert(scan_end(s, j as int, CharClass::Digit) == scan_end(s, j + 1, CharClass::Digit));
        }
        j += 1;
    }
    proof {
        assert(scan_end(s, j as int, CharClass::Digit) == j);
    }
    Some(j)
}

} // verus!
