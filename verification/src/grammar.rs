//! The mathematical model of the source grammar.
//!
//! Each scanner and parser routine of [`crate::parser`] is specified against
//! a spec function here that maps the cursor's remaining character sequence
//! to an exact outcome: no token, a token with the count of characters
//! consumed, or a fault with its kind and the count of characters consumed
//! before it was detected. The spec functions are denotational: a token is a
//! maximal run of characters of its class, described by [`run_len`], and a
//! numeric token's value is [`digits_value`] of its digits.

use vstd::prelude::*;

use crate::ast::InstructionV;
use crate::ast::LineV;
use crate::ast::NumberV;
use crate::error::ParseErrorKind;

verus! {

/// An ASCII letter, the entry and continuation class of labels and the entry
/// class of mnemonics.
pub open spec fn is_ascii_alpha(c: char) -> bool {
    (65 <= c as u32 && c as u32 <= 90) || (97 <= c as u32 && c as u32 <= 122)
}

/// An ASCII decimal digit.
pub open spec fn is_ascii_digit(c: char) -> bool {
    48 <= c as u32 && c as u32 <= 57
}

/// The continuation class of mnemonics: letters and digits.
pub open spec fn is_alnum(c: char) -> bool {
    is_ascii_alpha(c) || is_ascii_digit(c)
}

/// Horizontal spacing: space or tab.
pub open spec fn is_blank(c: char) -> bool {
    c == ' ' || c == '\t'
}

/// The numeric value of a digit character.
pub open spec fn digit_val(c: char) -> int {
    c as u32 - 48
}

pub open spec fn alpha_pred() -> spec_fn(char) -> bool {
    |c: char| is_ascii_alpha(c)
}

pub open spec fn alnum_pred() -> spec_fn(char) -> bool {
    |c: char| is_alnum(c)
}

pub open spec fn digit_pred() -> spec_fn(char) -> bool {
    |c: char| is_ascii_digit(c)
}

pub open spec fn blank_pred() -> spec_fn(char) -> bool {
    |c: char| is_blank(c)
}

pub open spec fn not_newline_pred() -> spec_fn(char) -> bool {
    |c: char| c != '\n'
}

/// Length of the longest prefix of `s` whose characters all satisfy `p`.
pub open spec fn run_len(s: Seq<char>, p: spec_fn(char) -> bool) -> int
    decreases s.len(),
{
    if s.len() > 0 && p(s[0]) {
        1 + run_len(s.skip(1), p)
    } else {
        0
    }
}

/// The value of a digit string, most significant digit first.
pub open spec fn digits_value(s: Seq<char>) -> int
    decreases s.len(),
{
    if s.len() == 0 {
        0
    } else {
        10 * digits_value(s.drop_last()) + digit_val(s.last())
    }
}

/// Outcome of one scanner or parser routine on a remaining character
/// sequence.
pub enum Scan<T> {
    /// The entry predicate failed on the very first character; nothing was
    /// consumed.
    Reject,
    /// A token or phrase was recognized; `used` characters were consumed.
    Accept { value: T, used: int },
    /// A fatal fault of kind `kind`, detected after consuming `at`
    /// characters.
    Fail { kind: ParseErrorKind, at: int },
}

/// The label scanner: an ASCII-letter run terminated by a consumed `:`.
/// Anything else while inside the label is fatal.
pub open spec fn spec_lex_label(s: Seq<char>) -> Scan<Seq<char>> {
    if s.len() == 0 || !is_ascii_alpha(s[0]) {
        Scan::Reject
    } else {
        let r = run_len(s, alpha_pred());
        if r == s.len() {
            Scan::Fail { kind: ParseErrorKind::UnexpectedEndOfInput, at: r }
        } else if s[r] == ':' {
            Scan::Accept { value: s.take(r), used: r + 1 }
        } else {
            Scan::Fail { kind: ParseErrorKind::InvalidLabelCharacter, at: r }
        }
    }
}

/// The mnemonic scanner: a letter followed by letters and digits; the first
/// non-matching character ends the token without being consumed.
pub open spec fn spec_lex_instruction(s: Seq<char>) -> Scan<Seq<char>> {
    if s.len() == 0 || !is_ascii_alpha(s[0]) {
        Scan::Reject
    } else {
        let r = 1 + run_len(s.skip(1), alnum_pred());
        if r == s.len() {
            Scan::Fail { kind: ParseErrorKind::UnexpectedEndOfInput, at: r }
        } else {
            Scan::Accept { value: s.take(r), used: r }
        }
    }
}

/// The number scanner: a digit run, the first non-digit ending the token
/// without being consumed. A value that does not fit in a signed 64-bit
/// integer is fatal.
pub open spec fn spec_lex_number(s: Seq<char>) -> Scan<int> {
    if s.len() == 0 || !is_ascii_digit(s[0]) {
        Scan::Reject
    } else {
        let r = run_len(s, digit_pred());
        if r == s.len() {
            Scan::Fail { kind: ParseErrorKind::UnexpectedEndOfInput, at: r }
        } else if digits_value(s.take(r)) > i64::MAX {
            Scan::Fail { kind: ParseErrorKind::NumberTooLarge, at: r }
        } else {
            Scan::Accept { value: digits_value(s.take(r)), used: r }
        }
    }
}

/// The optional-space skipper: consumes a run of blanks; reaching the end of
/// the input (including being invoked there) is fatal.
pub open spec fn spec_skip_opt_space(s: Seq<char>) -> Scan<()> {
    let r = run_len(s, blank_pred());
    if r == s.len() {
        Scan::Fail { kind: ParseErrorKind::UnexpectedEndOfInput, at: r }
    } else {
        Scan::Accept { value: (), used: r }
    }
}

/// The mandatory-space skipper: reports whether any spacing was consumed;
/// a no-op when the current character is not blank.
pub open spec fn spec_skip_space(s: Seq<char>) -> Scan<bool> {
    if s.len() == 0 {
        Scan::Fail { kind: ParseErrorKind::UnexpectedEndOfInput, at: 0 }
    } else if !is_blank(s[0]) {
        Scan::Accept { value: false, used: 0 }
    } else {
        match spec_skip_opt_space(s) {
            Scan::Accept { used, .. } => Scan::Accept { value: true, used },
            Scan::Fail { kind, at } => Scan::Fail { kind, at },
            Scan::Reject => Scan::Reject,
        }
    }
}

/// The comment/end-of-line skipper: a newline ends the line; a `;` consumes
/// everything up to and including the next newline; anything else is fatal.
pub open spec fn spec_skip_comment(s: Seq<char>) -> Scan<()> {
    if s.len() == 0 {
        Scan::Fail { kind: ParseErrorKind::UnexpectedEndOfInput, at: 0 }
    } else if s[0] == '\n' {
        Scan::Accept { value: (), used: 1 }
    } else if s[0] == ';' {
        let r = run_len(s, not_newline_pred());
        if r == s.len() {
            Scan::Fail { kind: ParseErrorKind::UnexpectedEndOfInput, at: r }
        } else {
            Scan::Accept { value: (), used: r + 1 }
        }
    } else {
        Scan::Fail { kind: ParseErrorKind::ExpectedCommentOrEndOfLine, at: 0 }
    }
}

/// The parameter phrase: `#` then optional spacing then a number yields an
/// immediate; a bare number yields an address; no digits yield no parameter.
pub open spec fn spec_parse_parameters(s: Seq<char>) -> Scan<Option<NumberV>> {
    if s.len() == 0 {
        Scan::Fail { kind: ParseErrorKind::UnexpectedEndOfInput, at: 0 }
    } else if s[0] == '#' {
        match spec_skip_opt_space(s.skip(1)) {
            Scan::Fail { kind, at } => Scan::Fail { kind, at: 1 + at },
            Scan::Accept { used: u, .. } => match spec_lex_number(s.skip(1 + u)) {
                Scan::Reject => Scan::Accept { value: None, used: 1 + u },
                Scan::Fail { kind, at } => Scan::Fail { kind, at: 1 + u + at },
                Scan::Accept { value: n, used: r } => Scan::Accept {
                    value: Some(NumberV::Immediate(n)),
                    used: 1 + u + r,
                },
            },
            Scan::Reject => Scan::Reject,
        }
    } else {
        match spec_lex_number(s) {
            Scan::Reject => Scan::Accept { value: None, used: 0 },
            Scan::Fail { kind, at } => Scan::Fail { kind, at },
            Scan::Accept { value: n, used: r } => Scan::Accept {
                value: Some(NumberV::Address(n)),
                used: r,
            },
        }
    }
}

/// The instruction phrase: an optional mnemonic; if one is present,
/// mandatory spacing decides whether a parameter phrase follows.
pub open spec fn spec_parse_instruction(s: Seq<char>) -> Scan<Option<InstructionV>> {
    match spec_lex_instruction(s) {
        Scan::Reject => Scan::Accept { value: None, used: 0 },
        Scan::Fail { kind, at } => Scan::Fail { kind, at },
        Scan::Accept { value: m, used: r } => match spec_skip_space(s.skip(r)) {
            Scan::Fail { kind, at } => Scan::Fail { kind, at: r + at },
            Scan::Accept { value: false, .. } => Scan::Accept {
                value: Some(InstructionV { mnemonic: m, parameter: None }),
                used: r,
            },
            Scan::Accept { value: true, used: u } => match spec_parse_parameters(
                s.skip(r + u),
            ) {
                Scan::Fail { kind, at } => Scan::Fail { kind, at: r + u + at },
                Scan::Accept { value: p, used: w } => Scan::Accept {
                    value: Some(InstructionV { mnemonic: m, parameter: p }),
                    used: r + u + w,
                },
                Scan::Reject => Scan::Reject,
            },
            Scan::Reject => Scan::Reject,
        },
    }
}

/// The rest of a line after its optional label: the optional instruction,
/// optional spacing, then the comment/end-of-line tail.
pub open spec fn spec_parse_after_label(s: Seq<char>) -> Scan<Option<InstructionV>> {
    match spec_parse_instruction(s) {
        Scan::Fail { kind, at } => Scan::Fail { kind, at },
        Scan::Reject => Scan::Reject,
        Scan::Accept { value: inst, used: u } => match spec_skip_opt_space(s.skip(u)) {
            Scan::Fail { kind, at } => Scan::Fail { kind, at: u + at },
            Scan::Reject => Scan::Reject,
            Scan::Accept { used: v, .. } => match spec_skip_comment(s.skip(u + v)) {
                Scan::Fail { kind, at } => Scan::Fail { kind, at: u + v + at },
                Scan::Reject => Scan::Reject,
                Scan::Accept { used: w, .. } => Scan::Accept { value: inst, used: u + v + w },
            },
        },
    }
}

/// One whole physical line: an optional label, or mandatory spacing, leading
/// into the instruction phrase; otherwise a blank or comment-only line.
pub open spec fn spec_parse_line(s: Seq<char>) -> Scan<LineV> {
    match spec_lex_label(s) {
        Scan::Fail { kind, at } => Scan::Fail { kind, at },
        Scan::Accept { value: lab, used: u } => match spec_skip_opt_space(s.skip(u)) {
            Scan::Fail { kind, at } => Scan::Fail { kind, at: u + at },
            Scan::Reject => Scan::Reject,
            Scan::Accept { used: v, .. } => match spec_parse_after_label(s.skip(u + v)) {
                Scan::Fail { kind, at } => Scan::Fail { kind, at: u + v + at },
                Scan::Reject => Scan::Reject,
                Scan::Accept { value: inst, used: w } => Scan::Accept {
                    value: LineV { label: Some(lab), instruction: inst },
                    used: u + v + w,
                },
            },
        },
        Scan::Reject => match spec_skip_space(s) {
            Scan::Fail { kind, at } => Scan::Fail { kind, at },
            Scan::Reject => Scan::Reject,
            Scan::Accept { value: true, used: u } => match spec_parse_after_label(s.skip(u)) {
                Scan::Fail { kind, at } => Scan::Fail { kind, at: u + at },
                Scan::Reject => Scan::Reject,
                Scan::Accept { value: inst, used: w } => Scan::Accept {
                    value: LineV { label: None, instruction: inst },
                    used: u + w,
                },
            },
            Scan::Accept { value: false, .. } => match spec_skip_comment(s) {
                Scan::Fail { kind, at } => Scan::Fail { kind, at },
                Scan::Reject => Scan::Reject,
                Scan::Accept { used: w, .. } => Scan::Accept {
                    value: LineV { label: None, instruction: None },
                    used: w,
                },
            },
        },
    }
}

/// Outcome of parsing a whole source text.
pub enum SourceScan {
    /// Every line parsed; one entry per physical line, in order.
    Lines(Seq<LineV>),
    /// A fatal fault of kind `kind`, detected after consuming `at`
    /// characters of the whole text.
    Fail { kind: ParseErrorKind, at: int },
}

/// A whole source text: lines parsed one at a time until the text is
/// exhausted. The two `Fail` fallbacks for a malformed line outcome are
/// unreachable; see [`lemma_parse_line_props`].
pub open spec fn spec_parse_source(s: Seq<char>) -> SourceScan
    decreases s.len(),
{
    if s.len() == 0 {
        SourceScan::Lines(Seq::empty())
    } else {
        match spec_parse_line(s) {
            Scan::Fail { kind, at } => SourceScan::Fail { kind, at },
            Scan::Accept { value: line, used } => {
                if 1 <= used <= s.len() {
                    match spec_parse_source(s.skip(used)) {
                        SourceScan::Fail { kind, at } => SourceScan::Fail {
                            kind,
                            at: used + at,
                        },
                        SourceScan::Lines(rest) => SourceScan::Lines(seq![line] + rest),
                    }
                } else {
                    SourceScan::Fail { kind: ParseErrorKind::UnexpectedEndOfInput, at: 0 }
                }
            },
            Scan::Reject => SourceScan::Fail {
                kind: ParseErrorKind::UnexpectedEndOfInput,
                at: 0,
            },
        }
    }
}

/// The run length is within bounds, every character inside the run satisfies
/// the predicate, and the character after the run (if any) does not.
pub proof fn lemma_run_len_props(s: Seq<char>, p: spec_fn(char) -> bool)
    ensures
        0 <= run_len(s, p) <= s.len(),
        forall|j: int| 0 <= j < run_len(s, p) ==> p(s[j]),
        run_len(s, p) < s.len() ==> !p(s[run_len(s, p)]),
    decreases s.len(),
{
    if s.len() > 0 && p(s[0]) {
        lemma_run_len_props(s.skip(1), p);
        let r = run_len(s, p);
        assert forall|j: int| 0 <= j < r implies p(s[j]) by {
            if j > 0 {
                assert(s.skip(1)[j - 1] == s[j]);
            }
        }
        if r < s.len() {
            assert(s.skip(1)[r - 1] == s[r]);
        }
    }
}

/// A prefix of characters satisfying the predicate, ended by the end of the
/// sequence or a character that does not, is exactly the run.
pub proof fn lemma_run_len_exact(s: Seq<char>, p: spec_fn(char) -> bool, j: int)
    requires
        0 <= j <= s.len(),
        forall|i: int| 0 <= i < j ==> p(s[i]),
        j == s.len() || !p(s[j]),
    ensures
        run_len(s, p) == j,
    decreases j,
{
    if j == 0 {
        if s.len() > 0 {
            assert(!p(s[0]));
        }
    } else {
        assert(p(s[0]));
        assert forall|i: int| 0 <= i < j - 1 implies p(s.skip(1)[i]) by {
            assert(s.skip(1)[i] == s[i + 1]);
        }
        if j < s.len() {
            assert(s.skip(1)[j - 1] == s[j]);
        }
        lemma_run_len_exact(s.skip(1), p, j - 1);
    }
}

/// The value of a digit string is non-negative.
pub proof fn lemma_digits_value_nonneg(s: Seq<char>)
    requires
        forall|i: int| 0 <= i < s.len() ==> is_ascii_digit(s[i]),
    ensures
        0 <= digits_value(s),
    decreases s.len(),
{
    if s.len() > 0 {
        assert forall|i: int| 0 <= i < s.drop_last().len() implies is_ascii_digit(
            s.drop_last()[i],
        ) by {
            assert(s.drop_last()[i] == s[i]);
        }
        lemma_digits_value_nonneg(s.drop_last());
        assert(is_ascii_digit(s.last()));
    }
}

/// Appending one digit multiplies the value by ten and adds the digit.
pub proof fn lemma_digits_value_snoc(s: Seq<char>, c: char)
    ensures
        digits_value(s.push(c)) == 10 * digits_value(s) + digit_val(c),
{
    assert(s.push(c).drop_last() =~= s);
    assert(s.push(c).last() == c);
}

/// Bounds, content and newline-freeness of a recognized label.
pub proof fn lemma_lex_label_props(s: Seq<char>)
    ensures
        spec_lex_label(s) matches Scan::Accept { value, used } ==> {
            &&& 2 <= used <= s.len()
            &&& value == s.take(used - 1)
            &&& s[used - 1] == ':'
            &&& forall|j: int| 0 <= j < used ==> s[j] != '\n'
        },
        spec_lex_label(s) matches Scan::Fail { at, .. } ==> 0 <= at <= s.len(),
{
    if s.len() > 0 && is_ascii_alpha(s[0]) {
        lemma_run_len_props(s, alpha_pred());
        let r = run_len(s, alpha_pred());
        assert(alpha_pred()(s[0]));
        if r < s.len() && s[r] == ':' {
            assert forall|j: int| 0 <= j < r + 1 implies s[j] != '\n' by {
                if j < r {
                    assert(alpha_pred()(s[j]));
                }
            }
        }
    }
}

/// Bounds, content and newline-freeness of a recognized mnemonic.
pub proof fn lemma_lex_instruction_props(s: Seq<char>)
    ensures
        spec_lex_instruction(s) matches Scan::Accept { value, used } ==> {
            &&& 1 <= used < s.len()
            &&& value == s.take(used)
            &&& forall|j: int| 0 <= j < used ==> s[j] != '\n'
        },
        spec_lex_instruction(s) matches Scan::Fail { at, .. } ==> 0 <= at <= s.len(),
{
    if s.len() > 0 && is_ascii_alpha(s[0]) {
        lemma_run_len_props(s.skip(1), alnum_pred());
        let r = 1 + run_len(s.skip(1), alnum_pred());
        if r < s.len() {
            assert forall|j: int| 0 <= j < r implies s[j] != '\n' by {
                if j > 0 {
                    assert(s.skip(1)[j - 1] == s[j]);
                    assert(alnum_pred()(s[j]));
                }
            }
        }
    }
}

/// Bounds, value and newline-freeness of a recognized number.
pub proof fn lemma_lex_number_props(s: Seq<char>)
    ensures
        spec_lex_number(s) matches Scan::Accept { value, used } ==> {
            &&& 1 <= used < s.len()
            &&& value == digits_value(s.take(used))
            &&& 0 <= value <= i64::MAX
            &&& forall|j: int| 0 <= j < used ==> s[j] != '\n'
        },
        spec_lex_number(s) matches Scan::Fail { at, .. } ==> 0 <= at <= s.len(),
{
    if s.len() > 0 && is_ascii_digit(s[0]) {
        lemma_run_len_props(s, digit_pred());
        let r = run_len(s, digit_pred());
        if r < s.len() && digits_value(s.take(r)) <= i64::MAX {
            assert forall|j: int| 0 <= j < r implies s[j] != '\n' by {
                assert(digit_pred()(s[j]));
            }
            assert forall|i: int| 0 <= i < s.take(r).len() implies is_ascii_digit(
                s.take(r)[i],
            ) by {
                assert(digit_pred()(s[i]));
            }
            lemma_digits_value_nonneg(s.take(r));
        }
    }
}

/// Bounds and newline-freeness of skipped optional spacing.
pub proof fn lemma_skip_opt_space_props(s: Seq<char>)
    ensures
        spec_skip_opt_space(s) matches Scan::Accept { used, .. } ==> {
            &&& 0 <= used < s.len()
            &&& !is_blank(s[used])
            &&& forall|j: int| 0 <= j < used ==> s[j] != '\n'
        },
        spec_skip_opt_space(s) matches Scan::Fail { at, .. } ==> 0 <= at <= s.len(),
{
    lemma_run_len_props(s, blank_pred());
    let r = run_len(s, blank_pred());
    if r < s.len() {
        assert(!blank_pred()(s[r]));
        assert forall|j: int| 0 <= j < r implies s[j] != '\n' by {
            assert(blank_pred()(s[j]));
        }
    }
}

/// Bounds and newline-freeness of skipped mandatory spacing.
pub proof fn lemma_skip_space_props(s: Seq<char>)
    ensures
        !(spec_skip_space(s) is Reject),
        spec_skip_space(s) matches Scan::Accept { value, used } ==> {
            &&& (value == false ==> used == 0)
            &&& (value == true ==> 1 <= used)
            &&& 0 <= used < s.len()
            &&& forall|j: int| 0 <= j < used ==> s[j] != '\n'
        },
        spec_skip_space(s) matches Scan::Fail { at, .. } ==> 0 <= at <= s.len(),
{
    if s.len() > 0 && is_blank(s[0]) {
        lemma_skip_opt_space_props(s);
        assert(blank_pred()(s[0]));
        assert(run_len(s, blank_pred()) >= 1);
    }
}

/// The comment/end-of-line skipper consumes exactly through the first
/// newline of the remaining input.
pub proof fn lemma_skip_comment_props(s: Seq<char>)
    ensures
        spec_skip_comment(s) matches Scan::Accept { used, .. } ==> {
            &&& 1 <= used <= s.len()
            &&& s[used - 1] == '\n'
            &&& forall|j: int| 0 <= j < used - 1 ==> s[j] != '\n'
        },
        spec_skip_comment(s) matches Scan::Fail { at, .. } ==> 0 <= at <= s.len(),
        !(spec_skip_comment(s) is Reject),
{
    if s.len() > 0 && s[0] != '\n' && s[0] == ';' {
        lemma_run_len_props(s, not_newline_pred());
        let r = run_len(s, not_newline_pred());
        if r < s.len() {
            assert(!not_newline_pred()(s[r]));
            assert forall|j: int| 0 <= j < r implies s[j] != '\n' by {
                assert(not_newline_pred()(s[j]));
            }
        }
    }
}

/// Bounds and newline-freeness of a parameter phrase.
pub proof fn lemma_parse_parameters_props(s: Seq<char>)
    ensures
        !(spec_parse_parameters(s) is Reject),
        spec_parse_parameters(s) matches Scan::Accept { used, .. } ==> {
            &&& 0 <= used < s.len()
            &&& forall|j: int| 0 <= j < used ==> s[j] != '\n'
        },
        spec_parse_parameters(s) matches Scan::Fail { at, .. } ==> 0 <= at <= s.len(),
{
    if s.len() == 0 {
    } else if s[0] == '#' {
        let s1 = s.skip(1);
        lemma_skip_opt_space_props(s1);
        match spec_skip_opt_space(s1) {
            Scan::Accept { used: u, .. } => {
                let s2 = s.skip(1 + u);
                lemma_lex_number_props(s2);
                match spec_lex_number(s2) {
                    Scan::Reject => {
                        assert forall|j: int| 0 <= j < 1 + u implies s[j] != '\n' by {
                            if j > 0 {
                                assert(s1[j - 1] == s[j]);
                            }
                        }
                    },
                    Scan::Accept { used: r, .. } => {
                        assert forall|j: int| 0 <= j < 1 + u + r implies s[j] != '\n' by {
                            if 0 < j < 1 + u {
                                assert(s1[j - 1] == s[j]);
                            } else if j >= 1 + u {
                                assert(s2[j - 1 - u] == s[j]);
                            }
                        }
                    },
                    Scan::Fail { .. } => {},
                }
            },
            Scan::Fail { .. } => {},
            Scan::Reject => {},
        }
    } else {
        lemma_lex_number_props(s);
    }
}

/// Bounds and newline-freeness of an instruction phrase. A present
/// instruction never consumes the line's newline.
pub proof fn lemma_parse_instruction_props(s: Seq<char>)
    ensures
        !(spec_parse_instruction(s) is Reject),
        spec_parse_instruction(s) matches Scan::Accept { used, .. } ==> {
            &&& 0 <= used <= s.len()
            &&& forall|j: int| 0 <= j < used ==> s[j] != '\n'
        },
        spec_parse_instruction(s) matches Scan::Fail { at, .. } ==> 0 <= at <= s.len(),
{
    lemma_lex_instruction_props(s);
    match spec_lex_instruction(s) {
        Scan::Accept { used: r, .. } => {
            let s1 = s.skip(r);
            lemma_skip_space_props(s1);
            match spec_skip_space(s1) {
                Scan::Accept { value: true, used: u } => {
                    let s2 = s.skip(r + u);
                    lemma_parse_parameters_props(s2);
                    match spec_parse_parameters(s2) {
                        Scan::Accept { used: w, .. } => {
                            assert forall|j: int| 0 <= j < r + u + w implies s[j] != '\n' by {
                                if r <= j < r + u {
                                    assert(s1[j - r] == s[j]);
                                } else if j >= r + u {
                                    assert(s2[j - r - u] == s[j]);
                                }
                            }
                        },
                        _ => {},
                    }
                },
                _ => {},
            }
        },
        _ => {},
    }
}

/// The rest of a line after its optional label ends by consuming exactly the
/// line's trailing newline.
pub proof fn lemma_parse_after_label_props(s: Seq<char>)
    ensures
        !(spec_parse_after_label(s) is Reject),
        spec_parse_after_label(s) matches Scan::Accept { used, .. } ==> {
            &&& 1 <= used <= s.len()
            &&& s[used - 1] == '\n'
            &&& forall|j: int| 0 <= j < used - 1 ==> s[j] != '\n'
        },
        spec_parse_after_label(s) matches Scan::Fail { at, .. } ==> 0 <= at <= s.len(),
{
    lemma_parse_instruction_props(s);
    match spec_parse_instruction(s) {
        Scan::Accept { used: u, .. } => {
            let s1 = s.skip(u);
            lemma_skip_opt_space_props(s1);
            match spec_skip_opt_space(s1) {
                Scan::Accept { used: v, .. } => {
                    let s2 = s.skip(u + v);
                    lemma_skip_comment_props(s2);
                    match spec_skip_comment(s2) {
                        Scan::Accept { used: w, .. } => {
                            assert(s2[w - 1] == s[u + v + w - 1]);
                            assert forall|j: int| 0 <= j < u + v + w - 1 implies s[j] != '\n' by {
                                if u <= j < u + v {
                                    assert(s1[j - u] == s[j]);
                                } else if j >= u + v {
                                    assert(s2[j - u - v] == s[j]);
                                }
                            }
                        },
                        _ => {},
                    }
                },
                _ => {},
            }
        },
        _ => {},
    }
}

/// A successfully parsed line consumes at least one character, exactly
/// through its trailing newline, and consumes no newline before it.
pub proof fn lemma_parse_line_props(s: Seq<char>)
    ensures
        !(spec_parse_line(s) is Reject),
        spec_parse_line(s) matches Scan::Accept { used, .. } ==> {
            &&& 1 <= used <= s.len()
            &&& s[used - 1] == '\n'
            &&& forall|j: int| 0 <= j < used - 1 ==> s[j] != '\n'
        },
        spec_parse_line(s) matches Scan::Fail { at, .. } ==> 0 <= at <= s.len(),
{
    lemma_lex_label_props(s);
    match spec_lex_label(s) {
        Scan::Accept { used: u, .. } => {
            let s1 = s.skip(u);
            lemma_skip_opt_space_props(s1);
            match spec_skip_opt_space(s1) {
                Scan::Accept { used: v, .. } => {
                    let s2 = s.skip(u + v);
                    lemma_parse_after_label_props(s2);
                    match spec_parse_after_label(s2) {
                        Scan::Accept { used: w, .. } => {
                            assert(s2[w - 1] == s[u + v + w - 1]);
                            assert forall|j: int| 0 <= j < u + v + w - 1 implies s[j] != '\n' by {
                                if u <= j < u + v {
                                    assert(s1[j - u] == s[j]);
                                } else if j >= u + v {
                                    assert(s2[j - u - v] == s[j]);
                                }
                            }
                        },
                        _ => {},
                    }
                },
                _ => {},
            }
        },
        Scan::Reject => {
            lemma_skip_space_props(s);
            match spec_skip_space(s) {
                Scan::Accept { value: true, used: u } => {
                    let s1 = s.skip(u);
                    lemma_parse_after_label_props(s1);
                    match spec_parse_after_label(s1) {
                        Scan::Accept { used: w, .. } => {
                            assert(s1[w - 1] == s[u + w - 1]);
                            assert forall|j: int| 0 <= j < u + w - 1 implies s[j] != '\n' by {
                                if j >= u {
                                    assert(s1[j - u] == s[j]);
                                }
                            }
                        },
                        _ => {},
                    }
                },
                Scan::Accept { value: false, .. } => {
                    lemma_skip_comment_props(s);
                },
                _ => {},
            }
        },
        _ => {},
    }
}

} // verus!
