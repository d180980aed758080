//! The source cursor: a character-stream reader over one in-memory text
//! buffer, with 1-based line/column tracking.
//!
//! The cursor exposes the current lookahead character (`peek`), a
//! single-character advance, and an end-of-input test. Advancing consumes the
//! current character, then increments the column, or resets the column to 1
//! and increments the line if the consumed character was a newline. Advancing
//! an exhausted cursor is a programming error, so `advance` requires that the
//! cursor is not at the end.

use vstd::prelude::*;
use vstd::string::StrSliceExecFns;
use vstd::string::StringExecFns;

verus! {

/// The 1-based line number of the position reached after consuming the first
/// `p` characters of `t`: one more than the number of newlines consumed.
pub open spec fn line_of(t: Seq<char>, p: int) -> int
    decreases p,
{
    if p <= 0 {
        1
    } else if t[p - 1] == '\n' {
        line_of(t, p - 1) + 1
    } else {
        line_of(t, p - 1)
    }
}

/// The 1-based column of the position reached after consuming the first `p`
/// characters of `t`: the count of characters consumed since the last
/// newline, plus one.
pub open spec fn col_of(t: Seq<char>, p: int) -> int
    decreases p,
{
    if p <= 0 {
        1
    } else if t[p - 1] == '\n' {
        1
    } else {
        col_of(t, p - 1) + 1
    }
}

/// Line and column are 1-based and never exceed the count of consumed
/// characters plus one.
pub proof fn lemma_line_col_bounds(t: Seq<char>, p: int)
    requires
        0 <= p,
    ensures
        1 <= line_of(t, p) <= p + 1,
        1 <= col_of(t, p) <= p + 1,
    decreases p,
{
    if p > 0 {
        lemma_line_col_bounds(t, p - 1);
    }
}

/// A cursor over one source text, tracking the current position and its
/// line/column for diagnostics.
pub struct SourceFile<'a> {
    /// The whole input text.
    pub src: &'a str,
    /// Index of the current (lookahead) character; characters before it are
    /// consumed.
    pub pos: usize,
    /// Character length of `src`, fixed at construction.
    pub len: usize,
    /// 1-based line of the current position.
    pub line: u64,
    /// 1-based column of the current position.
    pub column: u64,
    /// Source identifier used in diagnostics.
    pub file: String,
}

impl<'a> SourceFile<'a> {
    /// The whole input as a character sequence.
    pub open spec fn text(self) -> Seq<char> {
        self.src@
    }

    /// The characters not yet consumed, the current character first.
    pub open spec fn remaining(self) -> Seq<char> {
        self.src@.skip(self.pos as int)
    }

    /// Well-formedness: the position is inside the text and the line/column
    /// counters agree with the consumed prefix.
    pub open spec fn wf(self) -> bool {
        &&& self.len == self.src@.len()
        &&& self.pos <= self.len
        &&& self.len < usize::MAX
        &&& self.line as int == line_of(self.src@, self.pos as int)
        &&& self.column as int == col_of(self.src@, self.pos as int)
    }

    /// The cursor keeps the same text and source identifier as `other`.
    pub open spec fn same_input(self, other: Self) -> bool {
        &&& self.src@ == other.src@
        &&& self.len == other.len
        &&& self.file@ == other.file@
    }

    /// A fresh cursor at the start of `s`, on line 1, column 1.
    pub fn new(s: &'a str) -> (r: SourceFile<'a>)
        requires
            s@.len() < usize::MAX,
        ensures
            r.wf(),
            r.text() == s@,
            r.pos == 0,
            r.line == 1,
            r.column == 1,
            r.file@ == "<builtin>"@,
    {
        let len = s.unicode_len();
        SourceFile { src: s, pos: 0, len, line: 1, column: 1, file: String::from_str("<builtin>") }
    }

    /// The current character, or `None` once the input is exhausted.
    pub fn peek(&self) -> (r: Option<char>)
        requires
            self.wf(),
        ensures
            r == (if self.remaining().len() > 0 {
                Some(self.remaining()[0])
            } else {
                None::<char>
            }),
    {
        if self.pos < self.len {
            Some(self.src.get_char(self.pos))
        } else {
            None
        }
    }

    /// Whether the cursor is exhausted.
    pub fn is_eof(&self) -> (r: bool)
        requires
            self.wf(),
        ensures
            r == (self.remaining().len() == 0),
    {
        self.pos >= self.len
    }

    /// Consume the current character and move the line/column counters past
    /// it.
    pub fn advance(&mut self)
        requires
            old(self).wf(),
            old(self).remaining().len() > 0,
        ensures
            final(self).wf(),
            final(self).same_input(*old(self)),
            final(self).pos == old(self).pos + 1,
            final(self).line as int == (if old(self).text()[old(self).pos as int] == '\n' {
                old(self).line + 1
            } else {
                old(self).line as int
            }),
            final(self).column as int == (if old(self).text()[old(self).pos as int] == '\n' {
                1
            } else {
                old(self).column + 1
            }),
    {
        proof {
            lemma_line_col_bounds(self.src@, self.pos as int);
        }
        let c = self.src.get_char(self.pos);
        self.pos = self.pos + 1;
        if c == '\n' {
            self.line = self.line + 1;
            self.column = 1;
        } else {
            self.column = self.column + 1;
        }
    }

    /// The characters from position `from` (inclusive) to `to` (exclusive),
    /// as a fresh `String`.
    pub fn slice_string(&self, from: usize, to: usize) -> (r: String)
        requires
            self.wf(),
            from <= to <= self.len,
        ensures
            r@ == self.text().subrange(from as int, to as int),
    {
        String::from_str(self.src.substring_char(from, to))
    }
}

} // verus!
