//! Error values of the assembler.
//!
//! Every fault is immediately fatal to the run and is reported as one value
//! of these types: the parser produces a [`ParseError`] tagged with the
//! source position where it was detected, and the code generator produces a
//! [`GenError`] tagged with the index of the parsed line it was working on.

use vstd::prelude::*;

verus! {

/// What went wrong while scanning or parsing source text.
#[derive(Clone, Copy, Debug, PartialEq, Eq, Structural)]
pub enum ParseErrorKind {
    /// End of input where the grammar required more content: inside a token,
    /// inside a run of spaces, or before the trailing newline of a line.
    UnexpectedEndOfInput,
    /// A character that is neither a label character nor the `:` terminator
    /// while scanning the inside of a label.
    InvalidLabelCharacter,
    /// After an instruction and its optional spacing, something other than a
    /// `;` comment or the end of the line.
    ExpectedCommentOrEndOfLine,
    /// A numeric literal whose value does not fit in a signed 64-bit integer.
    NumberTooLarge,
}

/// A fatal parse fault, located at `file:line:column`.
#[derive(Clone, Debug)]
pub struct ParseError {
    pub kind: ParseErrorKind,
    /// 1-based line of the position where the fault was detected.
    pub line: u64,
    /// 1-based column of the position where the fault was detected.
    pub column: u64,
    /// The source identifier of the input, for diagnostics.
    pub file: String,
}

/// What went wrong while generating code for one instruction.
#[derive(Clone, Copy, Debug, PartialEq, Eq, Structural)]
pub enum GenErrorKind {
    /// The parameter is an immediate where an address was required, or the
    /// other way round.
    WrongParameterKind,
    /// The parameter has the right kind but its value is outside the range
    /// the mnemonic accepts.
    ValueOutOfRange,
    /// The mnemonic requires a parameter and none was given.
    MissingParameter,
    /// The mnemonic takes no parameter and one was given.
    UnexpectedParameter,
    /// An `org` directive whose target does not move the address counter
    /// strictly forward once the counter is non-zero.
    OriginMovedBackward,
    /// A branch whose destination lies before the branch's own address.
    BranchOutOfRange,
    /// A mnemonic that is not in the instruction table.
    UnknownInstruction,
}

/// A fatal code-generation fault.
#[derive(Clone, Copy, Debug)]
pub struct GenError {
    pub kind: GenErrorKind,
    /// 0-based index into the parsed program of the line being generated.
    pub line_index: usize,
}

} // verus!
