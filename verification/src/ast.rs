//! The structured program representation built by the parser and consumed
//! read-only by the code generator, together with its mathematical views.
//!
//! A parsed program is an ordered sequence of lines; a line carries an
//! optional label and an optional instruction; an instruction carries a
//! verbatim-case mnemonic and an optional numeric parameter, tagged as
//! immediate (a leading `#` in the source) or address.

use vstd::prelude::*;

verus! {

/// A numeric parameter as lexed: a signed 64-bit value, range-checked per
/// mnemonic only by the code generator.
#[derive(Debug)]
pub enum Number {
    /// Written with a leading `#` in the source.
    Immediate(i64),
    /// Written as a bare number in the source.
    Address(i64),
}

/// One instruction: a mnemonic matched case-sensitively by the code
/// generator, and its optional parameter.
#[derive(Debug)]
pub struct Instruction {
    pub mnemonic: String,
    pub parameter: Option<Number>,
}

/// One parsed physical line: it may carry neither, either, or both of a
/// label and an instruction.
#[derive(Debug)]
pub struct ParsedLine {
    pub label: Option<String>,
    pub instruction: Option<Instruction>,
}

/// A whole parsed program, one entry per physical line of the source.
#[derive(Debug)]
pub struct ParsedSource {
    pub lines: Vec<ParsedLine>,
}

/// Mathematical view of a [`Number`]: the value as an unbounded integer.
pub enum NumberV {
    Immediate(int),
    Address(int),
}

/// Mathematical view of an [`Instruction`].
pub struct InstructionV {
    pub mnemonic: Seq<char>,
    pub parameter: Option<NumberV>,
}

/// Mathematical view of a [`ParsedLine`].
pub struct LineV {
    pub label: Option<Seq<char>>,
    pub instruction: Option<InstructionV>,
}

impl View for Number {
    type V = NumberV;

    open spec fn view(&self) -> NumberV {
        match *self {
            Number::Immediate(n) => NumberV::Immediate(n as int),
            Number::Address(n) => NumberV::Address(n as int),
        }
    }
}

impl View for Instruction {
    type V = InstructionV;

    open spec fn view(&self) -> InstructionV {
        InstructionV {
            mnemonic: self.mnemonic@,
            parameter: match self.parameter {
                Some(n) => Some(n@),
                None => None,
            },
        }
    }
}

impl View for ParsedLine {
    type V = LineV;

    open spec fn view(&self) -> LineV {
        LineV {
            label: match self.label {
                Some(ref s) => Some(s@),
                None => None,
            },
            instruction: match self.instruction {
                Some(ref i) => Some(i@),
                None => None,
            },
        }
    }
}

/// The views of a sequence of parsed lines, in order.
pub open spec fn lines_view(lines: Seq<ParsedLine>) -> Seq<LineV> {
    lines.map_values(|l: ParsedLine| l@)
}

/// Viewing an empty sequence of lines gives the empty sequence.
pub proof fn lemma_lines_view_empty()
    ensures
        lines_view(Seq::<ParsedLine>::empty()) == Seq::<LineV>::empty(),
{
    assert(lines_view(Seq::<ParsedLine>::empty()) =~= Seq::<LineV>::empty());
}

/// Viewing commutes with appending one line.
pub proof fn lemma_lines_view_push(lines: Seq<ParsedLine>, l: ParsedLine)
    ensures
        lines_view(lines.push(l)) == lines_view(lines).push(l@),
{
    assert(lines_view(lines.push(l)) =~= lines_view(lines).push(l@));
}

impl View for ParsedSource {
    type V = Seq<LineV>;

    open spec fn view(&self) -> Seq<LineV> {
        lines_view(self.lines@)
    }
}

} // verus!
