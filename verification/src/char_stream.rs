//! A cursor over one line of ASCII text, with the primitive token
//! recognizers: numbers, keywords, identifiers, string literals, relational
//! operators and single characters.
//!
//! Every recognizer that consumes something also skips the whitespace that
//! follows it, so a stream is normally positioned at the next significant
//! character or at the end.

use vstd::prelude::*;
use crate::error::{Error, ErrorKind};
use crate::text::{
    after_ws, ascii_text, byte_in_class, bytes_eq, in_class, lemma_scan_end, scan_end, CharClass,
};

verus! {

/// The keywords of the language.
#[derive(Clone, Copy, Debug, PartialEq, Eq, Structural)]
pub enum Keyword {
    Print,
    If,
    Then,
    Run,
    List,
    Clear,
    Goto,
    Let,
    Gosub,
    Return,
    End,
    Input,
}

/// The keywords that begin a statement.
#[derive(Clone, Copy, Debug, PartialEq, Eq, Structural)]
pub enum Statement {
    Let,
    Print,
    End,
    Goto,
    If,
    Gosub,
    Return,
    Input,
}

/// The keywords that name a command to the read-eval-print loop.
#[derive(Clone, Copy, Debug, PartialEq, Eq, Structural)]
pub enum Command {
    Run,
    List,
    Clear,
}

/// The relational operators of an `IF` condition.
#[derive(Clone, Copy, Debug, PartialEq, Eq, Structural)]
pub enum RelationalOperator {
    Less,
    Greater,
    LessEqual,
    GreaterEqual,
    NotEqual,
    Equal,
}

/// The ASCII spelling of a keyword.
#[verifier::opaque]
pub open spec fn kw_bytes(k: Keyword) -> Seq<u8> {
    match k {
        Keyword::Print => seq![80u8, 82u8, 73u8, 78u8, 84u8],
        Keyword::If => seq![73u8, 70u8],
        Keyword::Then => seq![84u8, 72u8, 69u8, 78u8],
        Keyword::Run => seq![82u8, 85u8, 78u8],
        Keyword::List => seq![76u8, 73u8, 83u8, 84u8],
        Keyword::Clear => seq![67u8, 76u8, 69u8, 65u8, 82u8],
        Keyword::Goto => seq![71u8, 79u8, 84u8, 79u8],
        Keyword::Let => seq![76u8, 69u8, 84u8],
        Keyword::Gosub => seq![71u8, 79u8, 83u8, 85u8, 66u8],
        Keyword::Return => seq![82u8, 69u8, 84u8, 85u8, 82u8, 78u8],
        Keyword::End => seq![69u8, 78u8, 68u8],
        Keyword::Input => seq![73u8, 78u8, 80u8, 85u8, 84u8],
    }
}

/// Looks a word up in the keyword table.
pub open spec fn keyword_of(w: Seq<u8>) -> Option<Keyword> {
    if w == kw_bytes(Keyword::Print) {
        Some(Keyword::Print)
    } else if w == kw_bytes(Keyword::If) {
        Some(Keyword::If)
    } else if w == kw_bytes(Keyword::Then) {
        Some(Keyword::Then)
    } else if w == kw_bytes(Keyword::Run) {
        Some(Keyword::Run)
    } else if w == kw_bytes(Keyword::List) {
        Some(Keyword::List)
    } else if w == kw_bytes(Keyword::Clear) {
        Some(Keyword::Clear)
    } else if w == kw_bytes(Keyword::Goto) {
        Some(Keyword::Goto)
    } else if w == kw_bytes(Keyword::Let) {
        Some(Keyword::Let)
    } else if w == kw_bytes(Keyword::Gosub) {
        Some(Keyword::Gosub)
    } else if w == kw_bytes(Keyword::Return) {
        Some(Keyword::Return)
    } else if w == kw_bytes(Keyword::End) {
        Some(Keyword::End)
    } else if w == kw_bytes(Keyword::Input) {
        Some(Keyword::Input)
    } else {
        None
    }
}

/// The statement named by a keyword, if any.
pub open spec fn statement_of(k: Keyword) -> Option<Statement> {
    match k {
        Keyword::Print => Some(Statement::Print),
        Keyword::If => Some(Statement::If),
        Keyword::Goto => Some(Statement::Goto),
        Keyword::Let => Some(Statement::Let),
        Keyword::Gosub => Some(Statement::Gosub),
        Keyword::Return => Some(Statement::Return),
        Keyword::End => Some(Statement::End),
        Keyword::Input => Some(Statement::Input),
        Keyword::Then => None,
        Keyword::Run => None,
        Keyword::List => None,
        Keyword::Clear => None,
    }
}

/// The command named by a keyword, if any.
pub open spec fn command_of(k: Keyword) -> Option<Command> {
    match k {
        Keyword::Run => Some(Command::Run),
        Keyword::List => Some(Command::List),
        Keyword::Clear => Some(Command::Clear),
        _ => None,
    }
}

/// The relational operator read at position `i` of `s`, and the position
/// after it (and the whitespace that follows it).  A miss still skips
/// whitespace, like every failed single-character consumption.
pub open spec fn relop_at(s: Seq<u8>, i: int) -> (Option<RelationalOperator>, int) {
    if i < s.len() && s[i] == 60 {
        let j = after_ws(s, i + 1);
        if j < s.len() && s[j] == 61 {
            (Some(RelationalOperator::LessEqual), after_ws(s, j + 1))
        } else if j < s.len() && s[j] == 62 {
            (Some(RelationalOperator::NotEqual), after_ws(s, j + 1))
        } else {
            (Some(RelationalOperator::Less), j)
        }
    } else {
        let i2 = after_ws(s, i);
        if i2 < s.len() && s[i2] == 62 {
            let j = after_ws(s, i2 + 1);
            if j < s.len() && s[j] == 61 {
                (Some(RelationalOperator::GreaterEqual), after_ws(s, j + 1))
            } else if j < s.len() && s[j] == 60 {
                (Some(RelationalOperator::NotEqual), after_ws(s, j + 1))
            } else {
                (Some(RelationalOperator::Greater), j)
            }
        } else if i2 < s.len() && s[i2] == 61 {
            (Some(RelationalOperator::Equal), after_ws(s, i2 + 1))
        } else {
            (None, i2)
        }
    }
}

/// Reading a relational operator never moves the position backwards.
pub proof fn lemma_relop_at_pos(s: Seq<u8>, i: int)
    requires
        0 <= i <= s.len(),
    ensures
        i <= relop_at(s, i).1 <= s.len(),
{
    crate::text::lemma_scan_end(s, i, crate::text::CharClass::Whitespace);
    if i < s.len() {
        crate::text::lemma_scan_end(s, i + 1, crate::text::CharClass::Whitespace);
        let j = crate::text::after_ws(s, i + 1);
        if j < s.len() {
            crate::text::lemma_scan_end(s, j + 1, crate::text::CharClass::Whitespace);
        }
    }
    let i2 = crate::text::after_ws(s, i);
    if i2 < s.len() {
        crate::text::lemma_scan_end(s, i2 + 1, crate::text::CharClass::Whitespace);
        let j = crate::text::after_ws(s, i2 + 1);
        if j < s.len() {
            crate::text::lemma_scan_end(s, j + 1, crate::text::CharClass::Whitespace);
        }
    }
}

/// The cursor of a stream.
#[derive(Default, Clone, PartialEq, Eq, Structural, Copy)]
pub struct StreamState {
    pub cur: usize,
}

impl StreamState {
    /// The cursor one character further on.
    pub fn advance(self) -> (r: Self)
        requires
            self.cur < usize::MAX,
        ensures
            r.cur == self.cur + 1,
    {
        StreamState { cur: self.cur + 1 }
    }
}

/// A stream of ASCII characters with a cursor, the input of the tokenizer.
pub struct AsciiCharStream {
    pub stream: Vec<u8>,
    pub state: StreamState,
}

impl AsciiCharStream {
    /// The text the stream reads.
    pub open spec fn text(self) -> Seq<u8> {
        self.stream@
    }

    /// The cursor position.
    pub open spec fn cur(self) -> int {
        self.state.cur as int
    }

    /// The cursor position as the machine word that diagnostics record.
    pub open spec fn location(self) -> usize {
        self.state.cur
    }

    /// The stream text is ASCII and the cursor is inside it.
    pub open spec fn wf(self) -> bool {
        &&& ascii_text(self.stream@)
        &&& self.state.cur <= self.stream@.len()
    }

    /// A stream over `text`, positioned at the start.
    pub fn from_ascii_str(text: Vec<u8>) -> (r: Self)
        requires
            ascii_text(text@),
        ensures
            r.wf(),
            r.text() == text@,
            r.cur() == 0,
    {
        Self { stream: text, state: StreamState { cur: 0 } }
    }

    /// A copy of the whole text of the stream.
    pub fn get_stream(&self) -> (r: Vec<u8>)
        ensures
            r@ == self.text(),
    {
        self.stream.clone()
    }

    /// The current cursor offset.
    pub fn get_location(&self) -> (r: usize)
        ensures
            r == self.location(),
    {
        self.state.cur
    }

    /// The next character, without advancing.
    pub fn peek(&self) -> (r: Option<u8>)
        requires
            self.wf(),
        ensures
            r == if self.cur() < self.text().len() {
                Some(self.text()[self.cur()])
            } else {
                None::<u8>
            },
    {
        if self.state.cur < self.stream.len() {
            Some(self.stream[self.state.cur])
        } else {
            None
        }
    }

    /// The next character if it belongs to `cls`, without advancing.
    pub fn match_char(&self, cls: CharClass) -> (r: Option<u8>)
        requires
            self.wf(),
        ensures
            r == if self.cur() < self.text().len() && in_class(cls, self.text()[self.cur()]) {
                Some(self.text()[self.cur()])
            } else {
                None::<u8>
            },
    {
        match self.peek() {
            Some(ch) => {
                if byte_in_class(cls, ch) {
                    Some(ch)
                } else {
                    None
                }
            },
            None => None,
        }
    }

    /// The end of the run of `cls` characters that starts at `from`.
    fn scan(&self, from: usize, cls: CharClass) -> (e: usize)
        requires
            self.wf(),
            from <= self.text().len(),
        ensures
            e == scan_end(self.text(), from as int, cls),
            from <= e <= self.text().len(),
    {
        let ghost s = self.text();
        let mut j = from;
        while j < self.stream.len() && byte_in_class(cls, self.stream[j])
            invariant
                self.wf(),
                s == self.text(),
                from <= j <= s.len(),
                scan_end(s, from as int, cls) == scan_end(s, j as int, cls),
            decreases s.len() - j,
        {
            proof {
                assert(scan_end(s, j as int, cls) == scan_end(s, j + 1, cls));
            }
            j += 1;
        }
        proof {
            assert(scan_end(s, j as int, cls) == j);
        }
        j
    }

    /// Moves the cursor past any whitespace under it.
    fn trim_start(&mut self)
        requires
            old(self).wf(),
        ensures
            final(self).wf(),
            final(self).text() == old(self).text(),
            final(self).cur() == after_ws(old(self).text(), old(self).cur()),
    {
        proof {
            lemma_scan_end(self.text(), self.cur(), CharClass::Whitespace);
        }
        let e = self.scan(self.state.cur, CharClass::Whitespace);
        self.state.cur = e;
    }

    /// Consumes the next character if it belongs to `cls`, then skips
    /// whitespace; on a miss the cursor still skips whitespace.
    pub fn consume_char_if(&mut self, cls: CharClass) -> (r: Option<u8>)
        requires
            old(self).wf(),
        ensures
            final(self).wf(),
            final(self).text() == old(self).text(),
            ({
                let s = old(self).text();
                let i = old(self).cur();
                if i < s.len() && in_class(cls, s[i]) {
                    r == Some(s[i]) && final(self).cur() == after_ws(s, i + 1)
                } else {
                    r == None::<u8> && final(self).cur() == after_ws(s, i)
                }
            }),
    {
        let match_res = self.match_char(cls);
        if match_res.is_some() {
            let n = self.stream.len();
            proof {
                assert(self.state.cur < n);
            }
            self.state.cur = self.state.cur + 1;
        }
        self.trim_start();
        match_res
    }

    /// Consumes the next character if it is exactly `ch`, then skips
    /// whitespace; on a miss the cursor still skips whitespace.
    pub fn consume_char(&mut self, ch: u8) -> (r: Option<()>)
        requires
            old(self).wf(),
        ensures
            final(self).wf(),
            final(self).text() == old(self).text(),
            ({
                let s = old(self).text();
                let i = old(self).cur();
                if i < s.len() && s[i] == ch {
                    r == Some(()) && final(self).cur() == after_ws(s, i + 1)
                } else {
                    r == None::<()> && final(self).cur() == after_ws(s, i)
                }
            }),
    {
        let matched = match self.peek() {
            Some(c) => c == ch,
            None => false,
        };
        if matched {
            let n = self.stream.len();
            proof {
                assert(self.state.cur < n);
            }
            self.state.cur = self.state.cur + 1;
        }
        self.trim_start();
        if matched {
            Some(())
        } else {
            None
        }
    }

    /// Consumes a run of decimal digits, returning the raw digit string; the
    /// cursor does not move when no digit is under it.
    pub fn consume_number(&mut self) -> (r: Option<Vec<u8>>)
        requires
            old(self).wf(),
        ensures
            final(self).wf(),
            final(self).text() == old(self).text(),
            ({
                let s = old(self).text();
                let i = old(self).cur();
                let e = scan_end(s, i, CharClass::Digit);
                if e == i {
                    r == None::<Vec<u8>> && final(self).cur() == i
                } else {
                    &&& r matches Some(d) && d@ == s.subrange(i, e)
                    &&& final(self).cur() == after_ws(s, e)
                }
            }),
    {
        proof {
            lemma_scan_end(self.text(), self.cur(), CharClass::Digit);
        }
        let e = self.scan(self.state.cur, CharClass::Digit);
        if e == self.state.cur {
            None
        } else {
            let mut digits: Vec<u8> = Vec::new();
            let mut k = self.state.cur;
            while k < e
                invariant
                    self.wf(),
                    old(self) == self,
                    self.state.cur <= k <= e <= self.text().len(),
                    digits@ == self.text().subrange(self.cur(), k as int),
                decreases e - k,
            {
                digits.push(self.stream[k]);
                k += 1;
                proof {
                    assert(self.text().subrange(self.cur(), k as int) =~= self.text().subrange(
                        self.cur(),
                        k - 1,
                    ).push(self.text()[k - 1]));
                }
            }
            proof {
                assert(digits@ =~= self.text().subrange(self.cur(), e as int));
            }
            self.state.cur = e;
            self.trim_start();
            Some(digits)
        }
    }

    /// Consumes a run of letters and looks it up in the keyword table.  With
    /// no letter under the cursor the stream does not move; when letters are
    /// consumed the cursor moves past them (and trailing whitespace) whether
    /// or not they spell a keyword.
    pub fn consume_keyword(&mut self) -> (r: Option<Keyword>)
        requires
            old(self).wf(),
        ensures
            final(self).wf(),
            final(self).text() == old(self).text(),
            ({
                let s = old(self).text();
                let i = old(self).cur();
                let e = scan_end(s, i, CharClass::Alpha);
                if e == i {
                    r == None::<Keyword> && final(self).cur() == i
                } else {
                    r == keyword_of(s.subrange(i, e)) && final(self).cur() == after_ws(s, e)
                }
            }),
    {
        proof {
            lemma_scan_end(self.text(), self.cur(), CharClass::Alpha);
        }
        let e = self.scan(self.state.cur, CharClass::Alpha);
        if e == self.state.cur {
            None
        } else {
            let mut word: Vec<u8> = Vec::new();
            let mut k = self.state.cur;
            while k < e
                invariant
                    self.wf(),
                    old(self) == self,
                    self.state.cur <= k <= e <= self.text().len(),
                    word@ == self.text().subrange(self.cur(), k as int),
                decreases e - k,
            {
                word.push(self.stream[k]);
                k += 1;
                proof {
                    assert(self.text().subrange(self.cur(), k as int) =~= self.text().subrange(
                        self.cur(),
                        k - 1,
                    ).push(self.text()[k - 1]));
                }
            }
            proof {
                assert(word@ =~= self.text().subrange(self.cur(), e as int));
            }
            self.state.cur = e;
            self.trim_start();
            keyword_lookup(&word)
        }
    }

    /// Consumes a keyword and accepts it when it begins a statement.
    pub fn consume_statement(&mut self) -> (r: Option<Statement>)
        requires
            old(self).wf(),
        ensures
            final(self).wf(),
            final(self).text() == old(self).text(),
            ({
                let s = old(self).text();
                let i = old(self).cur();
                let e = scan_end(s, i, CharClass::Alpha);
                if e == i {
                    r == None::<Statement> && final(self).cur() == i
                } else {
                    ({
                        &&& r == match keyword_of(s.subrange(i, e)) {
                            Some(k) => statement_of(k),
                            None => None,
                        }
                        &&& final(self).cur() == after_ws(s, e)
                    })
                }
            }),
    {
        match self.consume_keyword() {
            Some(k) => match k {
                Keyword::Print => Some(Statement::Print),
                Keyword::If => Some(Statement::If),
                Keyword::Goto => Some(Statement::Goto),
                Keyword::Let => Some(Statement::Let),
                Keyword::Gosub => Some(Statement::Gosub),
                Keyword::Return => Some(Statement::Return),
                Keyword::End => Some(Statement::End),
                Keyword::Input => Some(Statement::Input),
                Keyword::Then => None,
                Keyword::Run => None,
                Keyword::List => None,
                Keyword::Clear => None,
            },
            None => None,
        }
    }

    /// Consumes a keyword and accepts it when it names a command.
    pub fn consume_command(&mut self) -> (r: Option<Command>)
        requires
            old(self).wf(),
        ensures
            final(self).wf(),
            final(self).text() == old(self).text(),
            ({
                let s = old(self).text();
                let i = old(self).cur();
                let e = scan_end(s, i, CharClass::Alpha);
                if e == i {
                    r == None::<Command> && final(self).cur() == i
                } else {
                    ({
                        &&& r == match keyword_of(s.subrange(i, e)) {
                            Some(k) => command_of(k),
                            None => None,
                        }
                        &&& final(self).cur() == after_ws(s, e)
                    })
                }
            }),
    {
        match self.consume_keyword() {
            Some(k) => match k {
                Keyword::Run => Some(Command::Run),
                Keyword::List => Some(Command::List),
                Keyword::Clear => Some(Command::Clear),
                _ => None,
            },
            None => None,
        }
    }

    /// Consumes a variable name: a letter, then letters, digits, `_` or `-`.
    /// The cursor does not move when no letter is under it.
    pub fn consume_var(&mut self) -> (r: Option<Vec<u8>>)
        requires
            old(self).wf(),
        ensures
            final(self).wf(),
            final(self).text() == old(self).text(),
            ({
                let s = old(self).text();
                let i = old(self).cur();
                let e1 = scan_end(s, i, CharClass::Alpha);
                let e2 = scan_end(s, e1, CharClass::VarBody);
                if e1 == i {
                    r == None::<Vec<u8>> && final(self).cur() == i
                } else {
                    &&& r matches Some(v) && v@ == s.subrange(i, e2)
                    &&& final(self).cur() == after_ws(s, e2)
                }
            }),
    {
        proof {
            lemma_scan_end(self.text(), self.cur(), CharClass::Alpha);
        }
        let e1 = self.scan(self.state.cur, CharClass::Alpha);
        if e1 == self.state.cur {
            return None;
        }
        proof {
            lemma_scan_end(self.text(), e1 as int, CharClass::VarBody);
        }
        let e2 = self.scan(e1, CharClass::VarBody);
        let mut name: Vec<u8> = Vec::new();
        let mut k = self.state.cur;
        while k < e2
            invariant
                self.wf(),
                old(self) == self,
                self.state.cur <= k <= e2 <= self.text().len(),
                name@ == self.text().subrange(self.cur(), k as int),
            decreases e2 - k,
        {
            name.push(self.stream[k]);
            k += 1;
            proof {
                assert(self.text().subrange(self.cur(), k as int) =~= self.text().subrange(
                    self.cur(),
                    k - 1,
                ).push(self.text()[k - 1]));
            }
        }
        proof {
            assert(name@ =~= self.text().subrange(self.cur(), e2 as int));
        }
        self.state.cur = e2;
        self.trim_start();
        Some(name)
    }

    /// Consumes a double-quoted string literal, returning its body without
    /// the quotes.  Without an opening quote the result is no string; an
    /// opening quote without a closing quote is an error, and the stream does
    /// not move.
    pub fn consume_string(&mut self) -> (r: Result<Option<Vec<u8>>, Error>)
        requires
            old(self).wf(),
        ensures
            final(self).wf(),
            final(self).text() == old(self).text(),
            ({
                let s = old(self).text();
                let i = old(self).cur();
                if i < s.len() && s[i] == 34 {
                    let b = after_ws(s, i + 1);
                    let e = scan_end(s, b, CharClass::StringBody);
                    if e < s.len() && s[e] == 34 {
                        &&& r matches Ok(o) && o matches Some(v) && v@ == s.subrange(b, e)
                        &&& final(self).cur() == after_ws(s, e + 1)
                    } else {
                        &&& r matches Err(err) && err.spec_kind() == ErrorKind::Expected('"')
                            && err.spec_context() == Some(s) && err.spec_location() == Some(
                            after_ws(s, e) as usize,
                        )
                        &&& *final(self) == *old(self)
                    }
                } else {
                    &&& r matches Ok(o) && o is None
                    &&& final(self).cur() == after_ws(s, i)
                }
            }),
    {
        let ghost s = self.text();
        let mut probe = self.clone_stream();
        if probe.consume_char(34).is_none() {
            self.trim_start();
            return Ok(None);
        }
        proof {
            lemma_scan_end(s, probe.cur(), CharClass::StringBody);
        }
        let b = probe.state.cur;
        let e = probe.scan(b, CharClass::StringBody);
        let mut body: Vec<u8> = Vec::new();
        let mut k = b;
        while k < e
            invariant
                probe.wf(),
                b <= k <= e <= probe.text().len(),
                body@ == probe.text().subrange(b as int, k as int),
            decreases e - k,
        {
            body.push(probe.stream[k]);
            k += 1;
            proof {
                assert(probe.text().subrange(b as int, k as int) =~= probe.text().subrange(
                    b as int,
                    k - 1,
                ).push(probe.text()[k - 1]));
            }
        }
        proof {
            assert(body@ =~= probe.text().subrange(b as int, e as int));
        }
        probe.state.cur = e;
        match probe.consume_char(34) {
            Some(_) => {
                self.state = probe.state;
                self.trim_start();
                proof {
                    lemma_scan_end(s, e + 1, CharClass::Whitespace);
                    crate::text::lemma_after_ws_idempotent(s, e + 1);
                }
                Ok(Some(body))
            },
            None => {
                Err(Error::from_context(&probe, ErrorKind::Expected('"'), None))
            },
        }
    }

    /// Consumes a relational operator: `<`, `>`, `<=`, `>=`, `<>` or `>=`
    /// (with `><` meaning the same as `<>`), or `=`.
    pub fn consume_relop(&mut self) -> (r: Option<RelationalOperator>)
        requires
            old(self).wf(),
        ensures
            final(self).wf(),
            final(self).text() == old(self).text(),
            r == relop_at(old(self).text(), old(self).cur()).0,
            final(self).cur() == relop_at(old(self).text(), old(self).cur()).1,
    {
        let ghost s = self.text();
        let ghost i = self.cur();
        if self.consume_char(60).is_some() {
            proof {
                lemma_after_ws_lt(s, i + 1);
            }
            if self.consume_char(61).is_some() {
                Some(RelationalOperator::LessEqual)
            } else if self.consume_char(62).is_some() {
                Some(RelationalOperator::NotEqual)
            } else {
                Some(RelationalOperator::Less)
            }
        } else {
            proof {
                lemma_after_ws_lt(s, i);
            }
            if self.consume_char(62).is_some() {
                proof {
                    lemma_after_ws_lt(s, after_ws(s, i) + 1);
                }
                if self.consume_char(61).is_some() {
                    Some(RelationalOperator::GreaterEqual)
                } else if self.consume_char(60).is_some() {
                    Some(RelationalOperator::NotEqual)
                } else {
                    Some(RelationalOperator::Greater)
                }
            } else if self.consume_char(61).is_some() {
                Some(RelationalOperator::Equal)
            } else {
                None
            }
        }
    }

    /// Returns the rest of the text and leaves the cursor at the end.
    pub fn flush(&mut self) -> (r: Vec<u8>)
        requires
            old(self).wf(),
        ensures
            final(self).wf(),
            final(self).text() == old(self).text(),
            final(self).cur() == final(self).text().len(),
            r@ == old(self).text().subrange(old(self).cur(), old(self).text().len() as int),
    {
        let mut remaining: Vec<u8> = Vec::new();
        let mut k = self.state.cur;
        let n = self.stream.len();
        while k < n
            invariant
                self.wf(),
                old(self) == self,
                self.state.cur <= k <= n == self.text().len(),
                remaining@ == self.text().subrange(self.cur(), k as int),
            decreases n - k,
        {
            remaining.push(self.stream[k]);
            k += 1;
            proof {
                assert(self.text().subrange(self.cur(), k as int) =~= self.text().subrange(
                    self.cur(),
                    k - 1,
                ).push(self.text()[k - 1]));
            }
        }
        self.state.cur = n;
        remaining
    }

    /// True when the cursor is at the end of the text.
    pub fn is_empty(&self) -> (r: bool)
        ensures
            r == (self.cur() >= self.text().len()),
    {
        self.state.cur >= self.stream.len()
    }

    /// An independent copy of the stream with the same text and cursor.
    pub fn clone_stream(&self) -> (r: Self)
        ensures
            r.text() == self.text(),
            r.cur() == self.cur(),
            r.wf() == self.wf(),
    {
        AsciiCharStream { stream: self.stream.clone(), state: self.state }
    }
}

/// Whitespace skipping never moves backwards.
proof fn lemma_after_ws_lt(s: Seq<u8>, i: int)
    requires
        0 <= i <= s.len(),
    ensures
        i <= after_ws(s, i) <= s.len(),
        after_ws(s, after_ws(s, i)) == after_ws(s, i),
{
    lemma_scan_end(s, i, CharClass::Whitespace);
    crate::text::lemma_after_ws_idempotent(s, i);
}

/// Looks a scanned word up in the keyword table.
fn keyword_lookup(word: &Vec<u8>) -> (r: Option<Keyword>)
    ensures
        r == keyword_of(word@),
{
    if bytes_eq(word, &kw_vec(Keyword::Print)) {
        Some(Keyword::Print)
    } else if bytes_eq(word, &kw_vec(Keyword::If)) {
        Some(Keyword::If)
    } else if bytes_eq(word, &kw_vec(Keyword::Then)) {
        Some(Keyword::Then)
    } else if bytes_eq(word, &kw_vec(Keyword::Run)) {
        Some(Keyword::Run)
    } else if bytes_eq(word, &kw_vec(Keyword::List)) {
        Some(Keyword::List)
    } else if bytes_eq(word, &kw_vec(Keyword::Clear)) {
        Some(Keyword::Clear)
    } else if bytes_eq(word, &kw_vec(Keyword::Goto)) {
        Some(Keyword::Goto)
    } else if bytes_eq(word, &kw_vec(Keyword::Let)) {
        Some(Keyword::Let)
    } else if bytes_eq(word, &kw_vec(Keyword::Gosub)) {
        Some(Keyword::Gosub)
    } else if bytes_eq(word, &kw_vec(Keyword::Return)) {
        Some(Keyword::Return)
    } else if bytes_eq(word, &kw_vec(Keyword::End)) {
        Some(Keyword::End)
    } else if bytes_eq(word, &kw_vec(Keyword::Input)) {
        Some(Keyword::Input)
    } else {
        None
    }
}

/// Builds the spelling of a keyword.
fn kw_vec(k: Keyword) -> (r: Vec<u8>)
    ensures
        r@ == kw_bytes(k),
{
    let mut v: Vec<u8> = Vec::new();
    match k {
        Keyword::Print => {
            v.push(80);
            v.push(82);
            v.push(73);
            v.push(78);
            v.push(84);
        },
        Keyword::If => {
            v.push(73);
            v.push(70);
        },
        Keyword::Then => {
            v.push(84);
            v.push(72);
            v.push(69);
            v.push(78);
        },
        Keyword::Run => {
            v.push(82);
            v.push(85);
            v.push(78);
        },
        Keyword::List => {
            v.push(76);
            v.push(73);
            v.push(83);
            v.push(84);
        },
        Keyword::Clear => {
            v.push(67);
            v.push(76);
            v.push(69);
            v.push(65);
            v.push(82);
        },
        Keyword::Goto => {
            v.push(71);
            v.push(79);
            v.push(84);
            v.push(79);
        },
        Keyword::Let => {
            v.push(76);
            v.push(69);
            v.push(84);
        },
        Keyword::Gosub => {
            v.push(71);
            v.push(79);
            v.push(83);
            v.push(85);
            v.push(66);
        },
        Keyword::Return => {
            v.push(82);
            v.push(69);
            v.push(84);
            v.push(85);
            v.push(82);
            v.push(78);
        },
        Keyword::End => {
            v.push(69);
            v.push(78);
            v.push(68);
        },
        Keyword::Input => {
            v.push(73);
            v.push(78);
            v.push(80);
            v.push(85);
            v.push(84);
        },
    }
    proof {
        reveal(kw_bytes);
        assert(v@ =~= kw_bytes(k));
    }
    v
}

} // verus!
