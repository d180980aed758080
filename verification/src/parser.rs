//! The recursive-descent parser: line-level control composed from three
//! per-token scanners (label, mnemonic, number) and three spacing/comment
//! skippers, all driven by the source cursor.
//!
//! Every routine is specified exactly against its spec-level counterpart in
//! [`crate::grammar`]: on success it consumes precisely the characters the
//! grammar function says and returns the token the grammar function names; on
//! a fault it stops exactly where the fault was detected and reports its kind
//! with the cursor's position there. No routine backtracks: a scanner either
//! commits what it consumed or rejects having consumed nothing.

use vstd::prelude::*;

use crate::ast::Instruction;
use crate::ast::InstructionV;
use crate::ast::lemma_lines_view_empty;
use crate::ast::lemma_lines_view_push;
use crate::ast::lines_view;
use crate::ast::LineV;
use crate::ast::Number;
use crate::ast::NumberV;
use crate::ast::ParsedLine;
use crate::ast::ParsedSource;
use crate::cursor::SourceFile;
use crate::error::ParseError;
use crate::error::ParseErrorKind;
use crate::grammar::alnum_pred;
use crate::grammar::alpha_pred;
use crate::grammar::blank_pred;
use crate::grammar::digit_pred;
use crate::grammar::digit_val;
use crate::grammar::digits_value;
use crate::grammar::is_alnum;
use crate::grammar::is_ascii_alpha;
use crate::grammar::is_ascii_digit;
use crate::grammar::is_blank;
use crate::grammar::lemma_digits_value_snoc;
use crate::grammar::lemma_lex_instruction_props;
use crate::grammar::lemma_lex_label_props;
use crate::grammar::lemma_parse_instruction_props;
use crate::grammar::lemma_parse_line_props;
use crate::grammar::lemma_run_len_exact;
use crate::grammar::lemma_skip_opt_space_props;
use crate::grammar::lemma_skip_space_props;
use crate::grammar::not_newline_pred;
use crate::grammar::spec_lex_instruction;
use crate::grammar::spec_lex_label;
use crate::grammar::spec_lex_number;
use crate::grammar::spec_parse_after_label;
use crate::grammar::spec_parse_instruction;
use crate::grammar::spec_parse_line;
use crate::grammar::spec_parse_parameters;
use crate::grammar::spec_parse_source;
use crate::grammar::spec_skip_comment;
use crate::grammar::spec_skip_opt_space;
use crate::grammar::spec_skip_space;
use crate::grammar::Scan;
use crate::grammar::SourceScan;
use vstd::arithmetic::div_mod::lemma_fundamental_div_mod;
use vstd::arithmetic::div_mod::lemma_mod_bound;

verus! {

/// For a non-negative accumulator and a single digit, growing the
/// accumulator by one digit exceeds `m` exactly when the accumulator already
/// exceeds the threshold `(m - d) / 10`.
proof fn lemma_mul10_threshold(v: int, d: int, m: int)
    requires
        0 <= v,
        0 <= d <= 9,
        9 <= m,
    ensures
        (10 * v + d > m) <==> (v > (m - d) / 10),
{
    let x = m - d;
    lemma_fundamental_div_mod(x, 10);
    lemma_mod_bound(x, 10);
}

/// Two sequences obtained by skipping twice or once are the same.
pub proof fn lemma_skip_skip(t: Seq<char>, a: int, b: int)
    requires
        0 <= a,
        0 <= b,
        a + b <= t.len(),
    ensures
        t.skip(a).skip(b) == t.skip(a + b),
{
    assert(t.skip(a).skip(b) =~= t.skip(a + b));
}

/// Whether `c` is an ASCII letter.
fn is_alpha_char(c: char) -> (r: bool)
    ensures
        r == is_ascii_alpha(c),
{
    let u = c as u32;
    (65 <= u && u <= 90) || (97 <= u && u <= 122)
}

/// Whether `c` is an ASCII decimal digit.
fn is_digit_char(c: char) -> (r: bool)
    ensures
        r == is_ascii_digit(c),
{
    let u = c as u32;
    48 <= u && u <= 57
}

/// Whether `c` is an ASCII letter or digit.
fn is_alnum_char(c: char) -> (r: bool)
    ensures
        r == is_alnum(c),
{
    is_alpha_char(c) || is_digit_char(c)
}

/// Whether `c` is a space or tab.
fn is_blank_char(c: char) -> (r: bool)
    ensures
        r == is_blank(c),
{
    c == ' ' || c == '\t'
}

/// The parser: exclusive owner of the source cursor for the run's duration.
pub struct Parser<'a> {
    pub src: SourceFile<'a>,
}

impl<'a> Parser<'a> {
    /// Well-formedness: the cursor is well-formed.
    pub open spec fn wf(self) -> bool {
        self.src.wf()
    }

    /// The whole input as a character sequence.
    pub open spec fn text(self) -> Seq<char> {
        self.src.text()
    }

    /// The characters not yet consumed.
    pub open spec fn remaining(self) -> Seq<char> {
        self.src.remaining()
    }

    /// The parser still reads the same input as `other`.
    pub open spec fn same_input(self, other: Self) -> bool {
        self.src.same_input(other.src)
    }

    /// The parser, previously in state `prev`, stopped `at` characters later
    /// and reported `e` of kind `kind` with the position where it stopped.
    pub open spec fn fails(self, prev: Self, e: ParseError, kind: ParseErrorKind, at: int) -> bool {
        &&& self.src.pos == prev.src.pos + at
        &&& e.kind == kind
        &&& e.line == self.src.line
        &&& e.column == self.src.column
        &&& e.file@ == self.src.file@
    }

    /// A parser at the start of `s`.
    pub fn new(s: &'a str) -> (p: Parser<'a>)
        requires
            s@.len() < usize::MAX,
        ensures
            p.wf(),
            p.text() == s@,
            p.src.pos == 0,
    {
        Parser { src: SourceFile::new(s) }
    }

    /// A diagnostic of kind `kind` at the cursor's current position.
    fn err_here(&self, kind: ParseErrorKind) -> (e: ParseError)
        ensures
            e.kind == kind,
            e.line == self.src.line,
            e.column == self.src.column,
            e.file@ == self.src.file@,
    {
        ParseError {
            kind,
            line: self.src.line,
            column: self.src.column,
            file: self.src.file.clone(),
        }
    }

    /// The label scanner: a letter run ended by a consumed `:` yields the
    /// label; a non-letter first character rejects without consuming.
    #[verifier::loop_isolation(false)]
    pub fn lex_label(&mut self) -> (r: Result<Option<String>, ParseError>)
        requires
            old(self).wf(),
        ensures
            final(self).wf(),
            final(self).same_input(*old(self)),
            match r {
                Ok(opt) => match spec_lex_label(old(self).remaining()) {
                    Scan::Reject => opt is None && final(self).src.pos == old(self).src.pos,
                    Scan::Accept { value, used } => {
                        &&& opt matches Some(lab) && lab@ == value
                        &&& final(self).src.pos == old(self).src.pos + used
                    },
                    Scan::Fail { .. } => false,
                },
                Err(e) => {
                    &&& spec_lex_label(old(self).remaining()) matches Scan::Fail { kind, at }
                        && final(self).fails(*old(self), e, kind, at)
                },
            },
    {
        let ghost t = self.src.text();
        let ghost s0 = self.remaining();
        let start = self.src.pos;
        match self.src.peek() {
            None => {
                return Ok(None);
            },
            Some(c0) => {
                if !is_alpha_char(c0) {
                    return Ok(None);
                }
            },
        }
        self.src.advance();
        loop
            invariant
                self.wf(),
                self.same_input(*old(self)),
                start == old(self).src.pos,
                start < self.src.pos <= self.src.len,
                forall|i: int| 0 <= i < self.src.pos - start ==> is_ascii_alpha(s0[i]),
            decreases self.src.len - self.src.pos,
        {
            let ghost j = self.src.pos - start;
            match self.src.peek() {
                None => {
                    proof {
                        assert forall|i: int| 0 <= i < j implies alpha_pred()(s0[i]) by {}
                        lemma_run_len_exact(s0, alpha_pred(), j);
                    }
                    return Err(self.err_here(ParseErrorKind::UnexpectedEndOfInput));
                },
                Some(c) => {
                    proof {
                        assert(c == s0[j]) by {
                            assert(self.remaining()[0] == t[self.src.pos as int]);
                            assert(s0[j] == t[start + j]);
                        }
                    }
                    if is_alpha_char(c) {
                        self.src.advance();
                    } else if c == ':' {
                        proof {
                            assert forall|i: int| 0 <= i < j implies alpha_pred()(s0[i]) by {}
                            lemma_run_len_exact(s0, alpha_pred(), j);
                        }
                        let tok = self.src.slice_string(start, self.src.pos);
                        proof {
                            assert(tok@ =~= s0.take(j));
                        }
                        self.src.advance();
                        return Ok(Some(tok));
                    } else {
                        proof {
                            assert forall|i: int| 0 <= i < j implies alpha_pred()(s0[i]) by {}
                            lemma_run_len_exact(s0, alpha_pred(), j);
                        }
                        return Err(self.err_here(ParseErrorKind::InvalidLabelCharacter));
                    }
                },
            }
        }
    }

    /// The mnemonic scanner: a letter then a letter/digit run; the first
    /// non-matching character ends the token without being consumed.
    #[verifier::loop_isolation(false)]
    pub fn lex_instruction(&mut self) -> (r: Result<Option<String>, ParseError>)
        requires
            old(self).wf(),
        ensures
            final(self).wf(),
            final(self).same_input(*old(self)),
            match r {
                Ok(opt) => match spec_lex_instruction(old(self).remaining()) {
                    Scan::Reject => opt is None && final(self).src.pos == old(self).src.pos,
                    Scan::Accept { value, used } => {
                        &&& opt matches Some(m) && m@ == value
                        &&& final(self).src.pos == old(self).src.pos + used
                    },
                    Scan::Fail { .. } => false,
                },
                Err(e) => {
                    &&& spec_lex_instruction(old(self).remaining()) matches Scan::Fail { kind, at }
                        && final(self).fails(*old(self), e, kind, at)
                },
            },
    {
        let ghost t = self.src.text();
        let ghost s0 = self.remaining();
        let start = self.src.pos;
        match self.src.peek() {
            None => {
                return Ok(None);
            },
            Some(c0) => {
                if !is_alpha_char(c0) {
                    return Ok(None);
                }
            },
        }
        self.src.advance();
        loop
            invariant
                self.wf(),
                self.same_input(*old(self)),
                start == old(self).src.pos,
                start < self.src.pos <= self.src.len,
                is_ascii_alpha(s0[0]),
                forall|i: int| 1 <= i < self.src.pos - start ==> is_alnum(s0[i]),
            decreases self.src.len - self.src.pos,
        {
            let ghost j = self.src.pos - start;
            match self.src.peek() {
                None => {
                    proof {
                        assert forall|i: int| 0 <= i < j - 1 implies alnum_pred()(
                            s0.skip(1)[i],
                        ) by {
                            assert(s0.skip(1)[i] == s0[i + 1]);
                        }
                        lemma_run_len_exact(s0.skip(1), alnum_pred(), j - 1);
                    }
                    return Err(self.err_here(ParseErrorKind::UnexpectedEndOfInput));
                },
                Some(c) => {
                    proof {
                        assert(c == s0[j]) by {
                            assert(self.remaining()[0] == t[self.src.pos as int]);
                            assert(s0[j] == t[start + j]);
                        }
                    }
                    if is_alnum_char(c) {
                        self.src.advance();
                    } else {
                        proof {
                            assert forall|i: int| 0 <= i < j - 1 implies alnum_pred()(
                                s0.skip(1)[i],
                            ) by {
                                assert(s0.skip(1)[i] == s0[i + 1]);
                            }
                            assert(s0.skip(1)[j - 1] == s0[j]);
                            lemma_run_len_exact(s0.skip(1), alnum_pred(), j - 1);
                        }
                        let tok = self.src.slice_string(start, self.src.pos);
                        proof {
                            assert(tok@ =~= s0.take(j));
                        }
                        return Ok(Some(tok));
                    }
                },
            }
        }
    }

    /// The number scanner: a digit run, its value accumulated in base ten;
    /// the first non-digit ends the token without being consumed. A value
    /// that does not fit in a signed 64-bit integer is reported once the run
    /// ends.
    #[verifier::loop_isolation(false)]
    pub fn lex_number(&mut self) -> (r: Result<Option<i64>, ParseError>)
        requires
            old(self).wf(),
        ensures
            final(self).wf(),
            final(self).same_input(*old(self)),
            match r {
                Ok(opt) => match spec_lex_number(old(self).remaining()) {
                    Scan::Reject => opt is None && final(self).src.pos == old(self).src.pos,
                    Scan::Accept { value, used } => {
                        &&& opt matches Some(n) && n as int == value
                        &&& final(self).src.pos == old(self).src.pos + used
                    },
                    Scan::Fail { .. } => false,
                },
                Err(e) => {
                    &&& spec_lex_number(old(self).remaining()) matches Scan::Fail { kind, at }
                        && final(self).fails(*old(self), e, kind, at)
                },
            },
    {
        let ghost t = self.src.text();
        let ghost s0 = self.remaining();
        let start = self.src.pos;
        let c0 = match self.src.peek() {
            None => {
                return Ok(None);
            },
            Some(c) => c,
        };
        if !is_digit_char(c0) {
            return Ok(None);
        }
        let mut val: i64 = ((c0 as u32) - 48) as i64;
        let mut overflow: bool = false;
        proof {
            assert(c0 == s0[0]);
            assert(s0.take(1).len() == 1);
            assert(s0.take(1).drop_last() =~= Seq::<char>::empty());
            assert(s0.take(1).last() == s0[0]);
            assert(digits_value(Seq::<char>::empty()) == 0);
            assert(digits_value(s0.take(1)) == digit_val(s0[0]));
            assert(val as int == digit_val(s0[0]));
        }
        self.src.advance();
        loop
            invariant
                self.wf(),
                self.same_input(*old(self)),
                start == old(self).src.pos,
                start < self.src.pos <= self.src.len,
                forall|i: int| 0 <= i < self.src.pos - start ==> is_ascii_digit(s0[i]),
                !overflow ==> 0 <= val && val as int == digits_value(
                    s0.take(self.src.pos - start),
                ),
                overflow ==> digits_value(s0.take(self.src.pos - start)) > i64::MAX,
            decreases self.src.len - self.src.pos,
        {
            let ghost j = self.src.pos - start;
            match self.src.peek() {
                None => {
                    proof {
                        assert forall|i: int| 0 <= i < j implies digit_pred()(s0[i]) by {}
                        lemma_run_len_exact(s0, digit_pred(), j);
                    }
                    return Err(self.err_here(ParseErrorKind::UnexpectedEndOfInput));
                },
                Some(c) => {
                    proof {
                        assert(c == s0[j]) by {
                            assert(self.remaining()[0] == t[self.src.pos as int]);
                            assert(s0[j] == t[start + j]);
                        }
                    }
                    if is_digit_char(c) {
                        let d = ((c as u32) - 48) as i64;
                        proof {
                            assert(s0.take(j + 1) =~= s0.take(j).push(s0[j]));
                            lemma_digits_value_snoc(s0.take(j), s0[j]);
                        }
                        if overflow {
                            proof {
                                assert(digits_value(s0.take(j + 1)) > i64::MAX);
                            }
                        } else if val > (i64::MAX - d) / 10 {
                            proof {
                                lemma_mul10_threshold(val as int, d as int, i64::MAX as int);
                            }
                            overflow = true;
                        } else {
                            proof {
                                lemma_mul10_threshold(val as int, d as int, i64::MAX as int);
                            }
                            val = val * 10 + d;
                        }
                        self.src.advance();
                    } else {
                        proof {
                            assert forall|i: int| 0 <= i < j implies digit_pred()(s0[i]) by {}
                            assert(!digit_pred()(s0[j]));
                            lemma_run_len_exact(s0, digit_pred(), j);
                        }
                        if overflow {
                            return Err(self.err_here(ParseErrorKind::NumberTooLarge));
                        }
                        return Ok(Some(val));
                    }
                },
            }
        }
    }

    /// Consume a run of spaces and tabs, if any; reaching the end of the
    /// input while scanning is fatal.
    #[verifier::loop_isolation(false)]
    pub fn skip_optional_space(&mut self) -> (r: Result<(), ParseError>)
        requires
            old(self).wf(),
        ensures
            final(self).wf(),
            final(self).same_input(*old(self)),
            match r {
                Ok(_) => spec_skip_opt_space(old(self).remaining()) matches Scan::Accept {
                    used,
                    ..
                } && final(self).src.pos == old(self).src.pos + used,
                Err(e) => {
                    &&& spec_skip_opt_space(old(self).remaining()) matches Scan::Fail { kind, at }
                        && final(self).fails(*old(self), e, kind, at)
                },
            },
    {
        let ghost t = self.src.text();
        let ghost s0 = self.remaining();
        let start = self.src.pos;
        loop
            invariant
                self.wf(),
                self.same_input(*old(self)),
                start == old(self).src.pos,
                start <= self.src.pos <= self.src.len,
                forall|i: int| 0 <= i < self.src.pos - start ==> is_blank(s0[i]),
            decreases self.src.len - self.src.pos,
        {
            let ghost j = self.src.pos - start;
            match self.src.peek() {
                None => {
                    proof {
                        assert forall|i: int| 0 <= i < j implies blank_pred()(s0[i]) by {}
                        lemma_run_len_exact(s0, blank_pred(), j);
                    }
                    return Err(self.err_here(ParseErrorKind::UnexpectedEndOfInput));
                },
                Some(c) => {
                    proof {
                        assert(c == s0[j]) by {
                            assert(self.remaining()[0] == t[self.src.pos as int]);
                            assert(s0[j] == t[start + j]);
                        }
                    }
                    if is_blank_char(c) {
                        self.src.advance();
                    } else {
                        proof {
                            assert forall|i: int| 0 <= i < j implies blank_pred()(s0[i]) by {}
                            assert(!blank_pred()(s0[j]));
                            lemma_run_len_exact(s0, blank_pred(), j);
                        }
                        return Ok(());
                    }
                },
            }
        }
    }

    /// Consume mandatory spacing: reports whether any spacing was present;
    /// being invoked at the end of the input is fatal.
    pub fn skip_space(&mut self) -> (r: Result<bool, ParseError>)
        requires
            old(self).wf(),
        ensures
            final(self).wf(),
            final(self).same_input(*old(self)),
            match r {
                Ok(b) => spec_skip_space(old(self).remaining()) matches Scan::Accept {
                    value,
                    used,
                } && b == value && final(self).src.pos == old(self).src.pos + used,
                Err(e) => {
                    &&& spec_skip_space(old(self).remaining()) matches Scan::Fail { kind, at }
                        && final(self).fails(*old(self), e, kind, at)
                },
            },
    {
        match self.src.peek() {
            None => Err(self.err_here(ParseErrorKind::UnexpectedEndOfInput)),
            Some(c) => {
                if is_blank_char(c) {
                    match self.skip_optional_space() {
                        Ok(_) => Ok(true),
                        Err(e) => Err(e),
                    }
                } else {
                    Ok(false)
                }
            },
        }
    }

    /// Consume the end of the line: a newline directly, or a `;` comment up
    /// to and including its newline; anything else is fatal.
    #[verifier::loop_isolation(false)]
    pub fn skip_optional_comment(&mut self) -> (r: Result<(), ParseError>)
        requires
            old(self).wf(),
        ensures
            final(self).wf(),
            final(self).same_input(*old(self)),
            match r {
                Ok(_) => spec_skip_comment(old(self).remaining()) matches Scan::Accept {
                    used,
                    ..
                } && final(self).src.pos == old(self).src.pos + used,
                Err(e) => {
                    &&& spec_skip_comment(old(self).remaining()) matches Scan::Fail { kind, at }
                        && final(self).fails(*old(self), e, kind, at)
                },
            },
    {
        let ghost t = self.src.text();
        let ghost s0 = self.remaining();
        let start = self.src.pos;
        match self.src.peek() {
            None => {
                return Err(self.err_here(ParseErrorKind::UnexpectedEndOfInput));
            },
            Some(c) => {
                if c == '\n' {
                    self.src.advance();
                    return Ok(());
                }
                if c != ';' {
                    return Err(self.err_here(ParseErrorKind::ExpectedCommentOrEndOfLine));
                }
                self.src.advance();
            },
        }
        loop
            invariant
                self.wf(),
                self.same_input(*old(self)),
                start == old(self).src.pos,
                start < self.src.pos <= self.src.len,
                s0.len() > 0 && s0[0] == ';',
                forall|i: int| 0 <= i < self.src.pos - start ==> s0[i] != '\n',
            decreases self.src.len - self.src.pos,
        {
            let ghost j = self.src.pos - start;
            match self.src.peek() {
                None => {
                    proof {
                        assert forall|i: int| 0 <= i < j implies not_newline_pred()(s0[i]) by {}
                        lemma_run_len_exact(s0, not_newline_pred(), j);
                    }
                    return Err(self.err_here(ParseErrorKind::UnexpectedEndOfInput));
                },
                Some(c) => {
                    proof {
                        assert(c == s0[j]) by {
                            assert(self.remaining()[0] == t[self.src.pos as int]);
                            assert(s0[j] == t[start + j]);
                        }
                    }
                    self.src.advance();
                    if c == '\n' {
                        proof {
                            assert forall|i: int| 0 <= i < j implies not_newline_pred()(
                                s0[i],
                            ) by {}
                            assert(!not_newline_pred()(s0[j]));
                            lemma_run_len_exact(s0, not_newline_pred(), j);
                        }
                        return Ok(());
                    }
                },
            }
        }
    }

    /// The parameter phrase: a `#` introduces an immediate, a bare number is
    /// an address, and the absence of digits is no parameter at all.
    pub fn parse_parameters(&mut self) -> (r: Result<Option<Number>, ParseError>)
        requires
            old(self).wf(),
        ensures
            final(self).wf(),
            final(self).same_input(*old(self)),
            match r {
                Ok(opt) => spec_parse_parameters(old(self).remaining()) matches Scan::Accept {
                    value,
                    used,
                } && value == (match opt {
                    Some(n) => Some(n@),
                    None => None::<NumberV>,
                }) && final(self).src.pos == old(self).src.pos + used,
                Err(e) => {
                    &&& spec_parse_parameters(old(self).remaining()) matches Scan::Fail {
                        kind,
                        at,
                    } && final(self).fails(*old(self), e, kind, at)
                },
            },
    {
        let ghost t = self.src.text();
        let ghost s0 = self.remaining();
        let ghost start = self.src.pos as int;
        let c = match self.src.peek() {
            None => {
                return Err(self.err_here(ParseErrorKind::UnexpectedEndOfInput));
            },
            Some(c) => c,
        };
        if c == '#' {
            self.src.advance();
            proof {
                lemma_skip_skip(t, start, 1);
                assert(self.remaining() == s0.skip(1));
            }
            let ghost s1 = self.remaining();
            match self.skip_optional_space() {
                Err(e) => Err(e),
                Ok(_) => {
                    let ghost u = self.src.pos - start - 1;
                    proof {
                        lemma_skip_opt_space_props(s1);
                        lemma_skip_skip(t, start, 1 + u);
                        assert(self.remaining() == s0.skip(1 + u));
                    }
                    match self.lex_number() {
                        Err(e) => Err(e),
                        Ok(None) => Ok(None),
                        Ok(Some(v)) => Ok(Some(Number::Immediate(v))),
                    }
                },
            }
        } else {
            match self.lex_number() {
                Err(e) => Err(e),
                Ok(None) => Ok(None),
                Ok(Some(v)) => Ok(Some(Number::Address(v))),
            }
        }
    }

    /// The instruction phrase: an optional mnemonic; when one is present,
    /// mandatory spacing decides whether a parameter phrase follows.
    pub fn parse_instruction(&mut self) -> (r: Result<Option<Instruction>, ParseError>)
        requires
            old(self).wf(),
        ensures
            final(self).wf(),
            final(self).same_input(*old(self)),
            match r {
                Ok(opt) => spec_parse_instruction(old(self).remaining()) matches Scan::Accept {
                    value,
                    used,
                } && value == (match opt {
                    Some(i) => Some(i@),
                    None => None::<InstructionV>,
                }) && final(self).src.pos == old(self).src.pos + used,
                Err(e) => {
                    &&& spec_parse_instruction(old(self).remaining()) matches Scan::Fail {
                        kind,
                        at,
                    } && final(self).fails(*old(self), e, kind, at)
                },
            },
    {
        let ghost t = self.src.text();
        let ghost s0 = self.remaining();
        let ghost start = self.src.pos as int;
        let mn = match self.lex_instruction() {
            Err(e) => {
                return Err(e);
            },
            Ok(None) => {
                return Ok(None);
            },
            Ok(Some(mn)) => mn,
        };
        let ghost m_used = self.src.pos - start;
        proof {
            lemma_lex_instruction_props(s0);
            lemma_skip_skip(t, start, m_used);
            assert(self.remaining() == s0.skip(m_used));
        }
        let spaced = match self.skip_space() {
            Err(e) => {
                return Err(e);
            },
            Ok(b) => b,
        };
        if !spaced {
            return Ok(Some(Instruction { mnemonic: mn, parameter: None }));
        }
        let ghost u = self.src.pos - start - m_used;
        proof {
            lemma_skip_space_props(s0.skip(m_used));
            lemma_skip_skip(t, start, m_used + u);
            assert(self.remaining() == s0.skip(m_used + u));
        }
        match self.parse_parameters() {
            Err(e) => Err(e),
            Ok(p) => Ok(Some(Instruction { mnemonic: mn, parameter: p })),
        }
    }

    /// The rest of a line after its optional label: the optional instruction,
    /// optional spacing, then the comment/end-of-line tail.
    pub fn parse_after_label(&mut self) -> (r: Result<Option<Instruction>, ParseError>)
        requires
            old(self).wf(),
        ensures
            final(self).wf(),
            final(self).same_input(*old(self)),
            match r {
                Ok(opt) => spec_parse_after_label(old(self).remaining()) matches Scan::Accept {
                    value,
                    used,
                } && value == (match opt {
                    Some(i) => Some(i@),
                    None => None::<InstructionV>,
                }) && final(self).src.pos == old(self).src.pos + used,
                Err(e) => {
                    &&& spec_parse_after_label(old(self).remaining()) matches Scan::Fail {
                        kind,
                        at,
                    } && final(self).fails(*old(self), e, kind, at)
                },
            },
    {
        let ghost t = self.src.text();
        let ghost s0 = self.remaining();
        let ghost start = self.src.pos as int;
        let inst = match self.parse_instruction() {
            Err(e) => {
                return Err(e);
            },
            Ok(i) => i,
        };
        let ghost u = self.src.pos - start;
        proof {
            lemma_parse_instruction_props(s0);
            lemma_skip_skip(t, start, u);
            assert(self.remaining() == s0.skip(u));
        }
        match self.skip_optional_space() {
            Err(e) => {
                return Err(e);
            },
            Ok(_) => {},
        }
        let ghost v = self.src.pos - start - u;
        proof {
            lemma_skip_opt_space_props(s0.skip(u));
            lemma_skip_skip(t, start, u + v);
            assert(self.remaining() == s0.skip(u + v));
        }
        match self.skip_optional_comment() {
            Err(e) => {
                return Err(e);
            },
            Ok(_) => {},
        }
        Ok(inst)
    }

    /// One whole physical line: an optional label, or mandatory spacing,
    /// leading into the instruction phrase; otherwise a blank or comment-only
    /// line. Every successful path consumes exactly one physical line,
    /// trailing newline included.
    pub fn parse_line(&mut self) -> (r: Result<ParsedLine, ParseError>)
        requires
            old(self).wf(),
        ensures
            final(self).wf(),
            final(self).same_input(*old(self)),
            match r {
                Ok(line) => spec_parse_line(old(self).remaining()) matches Scan::Accept {
                    value,
                    used,
                } && line@ == value && final(self).src.pos == old(self).src.pos + used,
                Err(e) => {
                    &&& spec_parse_line(old(self).remaining()) matches Scan::Fail { kind, at }
                        && final(self).fails(*old(self), e, kind, at)
                },
            },
    {
        let ghost t = self.src.text();
        let ghost s0 = self.remaining();
        let ghost start = self.src.pos as int;
        let lab = match self.lex_label() {
            Err(e) => {
                return Err(e);
            },
            Ok(l) => l,
        };
        if let Some(l) = lab {
            let ghost u = self.src.pos - start;
            proof {
                lemma_lex_label_props(s0);
                lemma_skip_skip(t, start, u);
                assert(self.remaining() == s0.skip(u));
            }
            match self.skip_optional_space() {
                Err(e) => {
                    return Err(e);
                },
                Ok(_) => {},
            }
            let ghost v = self.src.pos - start - u;
            proof {
                lemma_skip_opt_space_props(s0.skip(u));
                lemma_skip_skip(t, start, u + v);
                assert(self.remaining() == s0.skip(u + v));
            }
            let inst = match self.parse_after_label() {
                Err(e) => {
                    return Err(e);
                },
                Ok(i) => i,
            };
            return Ok(ParsedLine { label: Some(l), instruction: inst });
        }
        let spaced = match self.skip_space() {
            Err(e) => {
                return Err(e);
            },
            Ok(b) => b,
        };
        if spaced {
            let ghost u = self.src.pos - start;
            proof {
                lemma_skip_space_props(s0);
                lemma_skip_skip(t, start, u);
                assert(self.remaining() == s0.skip(u));
            }
            let inst = match self.parse_after_label() {
                Err(e) => {
                    return Err(e);
                },
                Ok(i) => i,
            };
            return Ok(ParsedLine { label: None, instruction: inst });
        }
        match self.skip_optional_comment() {
            Err(e) => {
                return Err(e);
            },
            Ok(_) => {},
        }
        Ok(ParsedLine { label: None, instruction: None })
    }

    /// Parse the whole source: one line at a time until the cursor is
    /// exhausted, yielding one parsed line per physical line, in order.
    #[verifier::loop_isolation(false)]
    pub fn parse_source(&mut self) -> (r: Result<ParsedSource, ParseError>)
        requires
            old(self).wf(),
        ensures
            final(self).wf(),
            final(self).same_input(*old(self)),
            match r {
                Ok(prog) => spec_parse_source(old(self).remaining()) == SourceScan::Lines(prog@)
                    && final(self).remaining().len() == 0,
                Err(e) => {
                    &&& spec_parse_source(old(self).remaining()) matches SourceScan::Fail {
                        kind,
                        at,
                    } && final(self).fails(*old(self), e, kind, at)
                },
            },
    {
        let ghost t = self.src.text();
        let ghost s0 = self.remaining();
        let ghost start = self.src.pos as int;
        let mut lines: Vec<ParsedLine> = Vec::new();
        proof {
            assert(lines@ =~= Seq::<ParsedLine>::empty());
            lemma_lines_view_empty();
        }
        loop
            invariant
                self.wf(),
                self.same_input(*old(self)),
                start == old(self).src.pos,
                start <= self.src.pos <= self.src.len,
                match spec_parse_source(self.remaining()) {
                    SourceScan::Lines(rest) => spec_parse_source(s0) == SourceScan::Lines(
                        lines_view(lines@) + rest,
                    ),
                    SourceScan::Fail { kind, at } => spec_parse_source(s0) == SourceScan::Fail {
                        kind,
                        at: at + (self.src.pos - start),
                    },
                },
            decreases self.src.len - self.src.pos,
        {
            if self.src.is_eof() {
                proof {
                    assert(self.remaining().len() == 0);
                    assert(spec_parse_source(self.remaining()) == SourceScan::Lines(
                        Seq::<LineV>::empty(),
                    ));
                    assert(lines_view(lines@) + Seq::<LineV>::empty() =~= lines_view(lines@));
                }
                return Ok(ParsedSource { lines });
            }
            let ghost rem = self.remaining();
            let ghost consumed = self.src.pos - start;
            proof {
                lemma_parse_line_props(rem);
            }
            let line = match self.parse_line() {
                Err(e) => {
                    return Err(e);
                },
                Ok(l) => l,
            };
            let ghost used = self.src.pos - start - consumed;
            proof {
                lemma_skip_skip(t, start + consumed, used);
                assert(self.remaining() == rem.skip(used));
            }
            let ghost prev = lines@;
            lines.push(line);
            proof {
                lemma_lines_view_push(prev, line);
                match spec_parse_source(rem.skip(used)) {
                    SourceScan::Lines(rest) => {
                        assert(spec_parse_source(rem) == SourceScan::Lines(seq![line@] + rest));
                        assert(lines_view(prev) + (seq![line@] + rest) =~= lines_view(prev).push(
                            line@,
                        ) + rest);
                    },
                    SourceScan::Fail { .. } => {},
                }
            }
        }
    }
}

} // verus!
