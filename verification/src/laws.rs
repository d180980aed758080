//! Laws of the assembler, stated and proved over the spec-level models.
//!
//! Each law here is a property of the grammar model in [`crate::grammar`] or
//! of the mnemonic table in [`crate::codegen`]; the executable routines are
//! tied to those models by their own contracts, so each law carries over to
//! the running code.

use vstd::prelude::*;

use crate::ast::InstructionV;
use crate::ast::LineV;
use crate::ast::NumberV;
use crate::codegen::lemma_encode_instruction_next;
use crate::codegen::spec_assemble_from;
use crate::codegen::spec_encode_instruction;
use crate::codegen::spec_encode_line;
use crate::codegen::GenScan;
use crate::codegen::LineGen;
use crate::error::GenErrorKind;
use crate::grammar::alnum_pred;
use crate::grammar::alpha_pred;
use crate::grammar::blank_pred;
use crate::grammar::digit_pred;
use crate::grammar::digits_value;
use crate::grammar::is_alnum;
use crate::grammar::is_ascii_alpha;
use crate::grammar::is_ascii_digit;
use crate::grammar::lemma_parse_line_props;
use crate::grammar::lemma_run_len_exact;
use crate::grammar::spec_parse_line;
use crate::grammar::Scan;

verus! {

/// Parsing one well-formed line consumes exactly through that line's
/// trailing newline: at least one character goes, the last consumed
/// character is a newline, and no earlier consumed character is one. The
/// fields of the produced line are fixed by [`spec_parse_line`] itself, and
/// [`crate::parser::Parser::parse_line`] returns exactly them.
pub proof fn lemma_parse_line_consumes_one_line(s: Seq<char>)
    ensures
        spec_parse_line(s) matches Scan::Accept { used, .. } ==> {
            &&& 1 <= used <= s.len()
            &&& s[used - 1] == '\n'
            &&& forall|j: int| 0 <= j < used - 1 ==> s[j] != '\n'
        },
{
    lemma_parse_line_props(s);
}

/// Parsing a rendered line of the shape `Label: MNz\n` yields exactly that
/// label and that bare mnemonic, and consumes exactly the line: the fields of
/// the parsed line match the line's content, whatever follows the newline.
pub proof fn lemma_labelled_line_fields_match(
    lab: Seq<char>,
    m: Seq<char>,
    rest: Seq<char>,
)
    requires
        lab.len() >= 1,
        forall|i: int| 0 <= i < lab.len() ==> is_ascii_alpha(lab[i]),
        m.len() >= 1,
        is_ascii_alpha(m[0]),
        forall|i: int| 1 <= i < m.len() ==> is_alnum(m[i]),
    ensures
        spec_parse_line(lab + seq![':'] + seq![' '] + m + seq!['\n'] + rest) == (Scan::Accept {
            value: LineV {
                label: Some(lab),
                instruction: Some(InstructionV { mnemonic: m, parameter: None }),
            },
            used: lab.len() + m.len() + 3int,
        }),
{
    let s = lab + seq![':'] + seq![' '] + m + seq!['\n'] + rest;
    let n1 = lab.len() as int;
    assert forall|i: int| 0 <= i < n1 implies s[i] == lab[i] by {}
    assert(s[n1] == ':');
    assert(s[0] == lab[0]);
    assert forall|i: int| 0 <= i < n1 implies alpha_pred()(s[i]) by {}
    assert(!alpha_pred()(s[n1]));
    lemma_run_len_exact(s, alpha_pred(), n1);
    assert(s.take(n1) =~= lab);
    // The label scanner accepts `lab` and consumes through the colon.
    assert(spec_parse_line(s) == (match crate::grammar::spec_skip_opt_space(s.skip(n1 + 1)) {
        Scan::Fail { kind, at } => Scan::Fail { kind, at: n1 + 1 + at },
        Scan::Reject => Scan::Reject,
        Scan::Accept { used: v, .. } => match crate::grammar::spec_parse_after_label(
            s.skip(n1 + 1 + v),
        ) {
            Scan::Fail { kind, at } => Scan::Fail { kind, at: n1 + 1 + v + at },
            Scan::Reject => Scan::Reject,
            Scan::Accept { value: inst, used: w } => Scan::Accept {
                value: LineV { label: Some(lab), instruction: inst },
                used: n1 + 1 + v + w,
            },
        },
    }));
    // One space, then the bare mnemonic and the newline.
    let s1 = s.skip(n1 + 1);
    assert(s1 =~= seq![' '] + m + seq!['\n'] + rest);
    assert(s1[0] == ' ');
    assert(s1[1] == m[0]);
    assert(!blank_pred()(s1[1]));
    assert(blank_pred()(s1[0]));
    lemma_run_len_exact(s1, blank_pred(), 1);
    let s2 = s.skip(n1 + 2);
    assert(s2 =~= s1.skip(1));
    assert(s2 =~= m + seq!['\n'] + rest);
    lemma_bare_mnemonic_after_label(m, rest, s2);
}

/// After the label and spacing of a line `... MNz\n`, the instruction phrase
/// yields exactly the bare mnemonic and stops after the newline.
proof fn lemma_bare_mnemonic_after_label(m: Seq<char>, rest: Seq<char>, s2: Seq<char>)
    requires
        m.len() >= 1,
        is_ascii_alpha(m[0]),
        forall|i: int| 1 <= i < m.len() ==> is_alnum(m[i]),
        s2 == m + seq!['\n'] + rest,
    ensures
        crate::grammar::spec_parse_after_label(s2) == (Scan::Accept {
            value: Some(InstructionV { mnemonic: m, parameter: None }),
            used: m.len() + 1int,
        }),
{
    let nm = m.len() as int;
    assert forall|i: int| 0 <= i < nm implies s2[i] == m[i] by {}
    assert(s2[nm] == '\n');
    assert(s2[0] == m[0]);
    assert forall|i: int| 0 <= i < nm - 1 implies alnum_pred()(s2.skip(1)[i]) by {
        assert(s2.skip(1)[i] == s2[i + 1]);
    }
    assert(s2.skip(1)[nm - 1] == s2[nm]);
    assert(!alnum_pred()(s2.skip(1)[nm - 1]));
    lemma_run_len_exact(s2.skip(1), alnum_pred(), nm - 1);
    assert(s2.take(nm) =~= m);
    // The mnemonic scanner accepts `m`; the newline is not blank, so the
    // instruction carries no parameter.
    let s3 = s2.skip(nm);
    assert(s3[0] == '\n');
    assert(!blank_pred()(s3[0]));
    lemma_run_len_exact(s3, blank_pred(), 0);
    assert(crate::grammar::spec_parse_instruction(s2) == (Scan::Accept {
        value: Some(InstructionV { mnemonic: m, parameter: None }),
        used: nm,
    }));
    // No trailing spacing; the newline closes the line.
    assert(crate::grammar::spec_skip_opt_space(s3) == (Scan::Accept { value: (), used: 0 }));
    assert(crate::grammar::spec_skip_comment(s3) == (Scan::Accept { value: (), used: 1 }));
}

/// Parsing a rendered line of the shape `\tMNz #digits\n` (no label) yields
/// exactly that mnemonic with that immediate value: the fields of the parsed
/// line match the line's content.
pub proof fn lemma_immediate_line_fields_match(m: Seq<char>, ds: Seq<char>, rest: Seq<char>)
    requires
        m.len() >= 1,
        is_ascii_alpha(m[0]),
        forall|i: int| 1 <= i < m.len() ==> is_alnum(m[i]),
        ds.len() >= 1,
        forall|i: int| 0 <= i < ds.len() ==> is_ascii_digit(ds[i]),
        digits_value(ds) <= i64::MAX,
    ensures
        spec_parse_line(seq!['\t'] + m + seq![' ', '#'] + ds + seq!['\n'] + rest) == (
        Scan::Accept {
            value: LineV {
                label: None,
                instruction: Some(
                    InstructionV {
                        mnemonic: m,
                        parameter: Some(NumberV::Immediate(digits_value(ds))),
                    },
                ),
            },
            used: m.len() + ds.len() + 4int,
        }),
{
    let s = seq!['\t'] + m + seq![' ', '#'] + ds + seq!['\n'] + rest;
    let nm = m.len() as int;
    let nd = ds.len() as int;
    assert(s[0] == '\t');
    // No label: the first character is not a letter, and it is blank.
    assert(!is_ascii_alpha(s[0]));
    assert(blank_pred()(s[0]));
    assert(s[1] == m[0]);
    assert(!blank_pred()(s[1]));
    lemma_run_len_exact(s, blank_pred(), 1);
    // The mnemonic runs up to the space before `#`.
    let s1 = s.skip(1);
    assert(s1 =~= m + seq![' ', '#'] + ds + seq!['\n'] + rest);
    assert forall|i: int| 0 <= i < nm implies s1[i] == m[i] by {}
    assert(s1[nm] == ' ');
    assert(s1[nm + 1] == '#');
    assert forall|i: int| 0 <= i < nm + 2 + nd implies s1[i] != '\n' by {}
    assert(s1[nm + 2 + nd] == '\n');
    assert(s1[0] == m[0]);
    assert forall|i: int| 0 <= i < nm - 1 implies alnum_pred()(s1.skip(1)[i]) by {
        assert(s1.skip(1)[i] == s1[i + 1]);
    }
    assert(s1.skip(1)[nm - 1] == s1[nm]);
    assert(!alnum_pred()(s1.skip(1)[nm - 1]));
    lemma_run_len_exact(s1.skip(1), alnum_pred(), nm - 1);
    assert(s1.take(nm) =~= m);
    // One mandatory space before the parameter.
    let s2 = s1.skip(nm);
    assert(blank_pred()(s2[0]));
    assert(s2[1] == '#');
    assert(!blank_pred()(s2[1]));
    lemma_run_len_exact(s2, blank_pred(), 1);
    // The `#`, no spacing after it, then the digit run ended by the newline.
    let s3 = s1.skip(nm + 1);
    assert(s3 =~= s2.skip(1));
    assert(s3[0] == '#');
    let s4 = s1.skip(nm + 2);
    assert(s4 =~= s3.skip(1));
    assert forall|i: int| 0 <= i < nd implies s4[i] == ds[i] by {
        assert(s4[i] == s1[nm + 2 + i]);
    }
    assert(s4[nd] == s1[nm + 2 + nd]);
    assert(!blank_pred()(s4[0]));
    lemma_run_len_exact(s4, blank_pred(), 0);
    assert forall|i: int| 0 <= i < nd implies digit_pred()(s4[i]) by {}
    assert(!digit_pred()(s4[nd]));
    lemma_run_len_exact(s4, digit_pred(), nd);
    assert(s4.take(nd) =~= ds);
    assert(crate::grammar::spec_parse_parameters(s3) == (Scan::Accept {
        value: Some(NumberV::Immediate(digits_value(ds))),
        used: 1 + nd,
    }));
    assert(crate::grammar::spec_parse_instruction(s1) == (Scan::Accept {
        value: Some(
            InstructionV { mnemonic: m, parameter: Some(NumberV::Immediate(digits_value(ds))) },
        ),
        used: nm + 2 + nd,
    }));
    // The newline closes the line: no spacing, no comment.
    let s5 = s1.skip(nm + 2 + nd);
    assert(s5[0] == '\n');
    assert(!blank_pred()(s5[0]));
    lemma_run_len_exact(s5, blank_pred(), 0);
    assert(crate::grammar::spec_parse_after_label(s1) == (Scan::Accept {
        value: Some(
            InstructionV { mnemonic: m, parameter: Some(NumberV::Immediate(digits_value(ds))) },
        ),
        used: nm + 3 + nd,
    }));
}

/// `CLC` with no parameter encodes to the single byte `0x18`, whatever the
/// current address counter is.
pub proof fn lemma_clc_independent_of_address(addr: int)
    ensures
        spec_encode_instruction(addr, InstructionV { mnemonic: "CLC"@, parameter: None })
            == (LineGen::Emit { bytes: seq![0x18u8], next: addr + 1 }),
{
    reveal_strlit("CLC");
    reveal_strlit("processor");
    reveal_strlit("byte");
    reveal_strlit("org");
    assert("CLC"@.len() == 3);
    assert("processor"@.len() == 9);
    assert("CLC"@ != "processor"@);
    assert("CLC"@ != "byte"@);
    assert("CLC"@[0] == 'C');
    assert("org"@[0] == 'o');
    assert("CLC"@ != "org"@);
}

/// Once the address counter is non-zero, an `org` whose target does not move
/// it strictly forward fails with "origin moved backward" — equality
/// included.
pub proof fn lemma_org_backward_fails(addr: int, v: int)
    requires
        addr != 0,
        0 <= v <= 65535,
        v <= addr,
    ensures
        spec_encode_instruction(
            addr,
            InstructionV { mnemonic: "org"@, parameter: Some(NumberV::Address(v)) },
        ) == (LineGen::Fail { kind: GenErrorKind::OriginMovedBackward }),
{
    reveal_strlit("org");
    reveal_strlit("processor");
    reveal_strlit("byte");
    assert("org"@.len() == 3);
    assert("processor"@.len() == 9);
    assert("byte"@.len() == 4);
}

/// A `byte` directive emits exactly its literal byte when the value is in
/// `0..=255`, and fails with a range fault otherwise.
pub proof fn lemma_byte_range(addr: int, v: int)
    ensures
        0 <= v <= 255 ==> spec_encode_instruction(
            addr,
            InstructionV { mnemonic: "byte"@, parameter: Some(NumberV::Address(v)) },
        ) == (LineGen::Emit { bytes: seq![v as u8], next: addr + 1 }),
        !(0 <= v <= 255) ==> spec_encode_instruction(
            addr,
            InstructionV { mnemonic: "byte"@, parameter: Some(NumberV::Address(v)) },
        ) == (LineGen::Fail { kind: GenErrorKind::ValueOutOfRange }),
{
    reveal_strlit("byte");
    reveal_strlit("processor");
    assert("byte"@.len() == 4);
    assert("processor"@.len() == 9);
}

/// The address counter never decreases: assembling any suffix of a program
/// leaves the counter at or above where it started.
pub proof fn lemma_counter_never_decreases(lines: Seq<LineV>, i: int, addr: int)
    ensures
        spec_assemble_from(lines, i, addr) matches GenScan::Done { addr: fin, .. } ==> fin
            >= addr,
    decreases lines.len() - i,
{
    if i < lines.len() {
        match spec_encode_line(addr, lines[i]) {
            LineGen::Emit { next, .. } => {
                match lines[i].instruction {
                    Some(inst) => {
                        lemma_encode_instruction_next(addr, inst);
                    },
                    None => {},
                }
                lemma_counter_never_decreases(lines, i + 1, next);
            },
            LineGen::Fail { .. } => {},
        }
    }
}

} // verus!

