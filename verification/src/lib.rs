//! A verified assembler front end and code generator for a small, fixed
//! subset of 6502 assembly language.
//!
//! Line-oriented source text is read through a character cursor
//! ([`cursor::SourceFile`]), parsed by a recursive-descent parser built from
//! small per-token scanners ([`parser::Parser`]), and the resulting
//! [`ast::ParsedSource`] is turned into a raw machine-code byte stream by a
//! single-pass code generator ([`codegen::assemble`]).
//!
//! Every fatal condition of the assembler is a propagated error value: the
//! parser reports lexical and structural faults with their source position,
//! and the code generator reports semantic faults with the index of the
//! offending line. Verified code here never panics.

pub mod ast;
pub mod codegen;
pub mod cursor;
pub mod error;
pub mod grammar;
pub mod laws;
pub mod parser;
