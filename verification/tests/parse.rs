use asm7x::ast::Number;
use asm7x::cursor::SourceFile;
use asm7x::error::ParseErrorKind;
use asm7x::parser::Parser;

#[test]
fn cursor_tracks_line_and_column() {
    let mut src = SourceFile::new("ab\nc");
    assert_eq!(src.peek(), Some('a'));
    assert!(!src.is_eof());
    assert_eq!((src.line, src.column), (1, 1));
    src.advance();
    assert_eq!(src.peek(), Some('b'));
    assert_eq!((src.line, src.column), (1, 2));
    src.advance();
    assert_eq!(src.peek(), Some('\n'));
    assert_eq!((src.line, src.column), (1, 3));
    src.advance();
    assert_eq!(src.peek(), Some('c'));
    assert_eq!((src.line, src.column), (2, 1));
    src.advance();
    assert_eq!(src.peek(), None);
    assert!(src.is_eof());
}

#[test]
fn parse_label_and_immediate_instruction() {
    let mut p = Parser::new("Reset:\tLDX\t#255\n");
    let prog = p.parse_source().expect("well-formed line");
    assert_eq!(prog.lines.len(), 1);
    let line = &prog.lines[0];
    assert_eq!(line.label.as_deref(), Some("Reset"));
    let inst = line.instruction.as_ref().expect("instruction present");
    assert_eq!(inst.mnemonic, "LDX");
    assert!(matches!(inst.parameter, Some(Number::Immediate(255))));
}

#[test]
fn parse_address_parameter() {
    let mut p = Parser::new(" STA 8192\n");
    let prog = p.parse_source().expect("well-formed line");
    let inst = prog.lines[0].instruction.as_ref().unwrap();
    assert_eq!(inst.mnemonic, "STA");
    assert!(matches!(inst.parameter, Some(Number::Address(8192))));
}

#[test]
fn parse_instruction_without_parameter_and_comment() {
    let mut p = Parser::new("\tTXS\t\t;set up stack\n");
    let prog = p.parse_source().expect("well-formed line");
    let line = &prog.lines[0];
    assert!(line.label.is_none());
    let inst = line.instruction.as_ref().unwrap();
    assert_eq!(inst.mnemonic, "TXS");
    assert!(inst.parameter.is_none());
}

#[test]
fn blank_and_comment_only_lines_yield_empty_entries() {
    let mut p = Parser::new("\n; a whole-line comment\n");
    let prog = p.parse_source().expect("well-formed lines");
    assert_eq!(prog.lines.len(), 2);
    for line in &prog.lines {
        assert!(line.label.is_none());
        assert!(line.instruction.is_none());
    }
}

#[test]
fn parse_line_consumes_exactly_one_physical_line() {
    // " LDA #1\n" is eight characters; parsing the first line must stop
    // exactly after its newline, leaving the cursor on the next line.
    let mut p = Parser::new(" LDA #1\n CLC\n");
    let line = p.parse_line().expect("well-formed line");
    assert_eq!(p.src.pos, 8);
    let inst = line.instruction.unwrap();
    assert_eq!(inst.mnemonic, "LDA");
    assert!(matches!(inst.parameter, Some(Number::Immediate(1))));
    let second = p.parse_line().expect("well-formed line");
    assert_eq!(second.instruction.unwrap().mnemonic, "CLC");
    assert!(p.src.is_eof());
}

#[test]
fn one_entry_per_physical_line() {
    let source = " processor 6502\n org 100\n byte 1\nReset:\n\tLDX\t#255\n\tTXS\n";
    let mut p = Parser::new(source);
    let prog = p.parse_source().expect("well-formed program");
    assert_eq!(prog.lines.len(), 6);
}

#[test]
fn label_line_without_instruction() {
    let mut p = Parser::new("Reset:\n");
    let prog = p.parse_source().expect("well-formed line");
    assert_eq!(prog.lines[0].label.as_deref(), Some("Reset"));
    assert!(prog.lines[0].instruction.is_none());
}

#[test]
fn eof_inside_token_is_fatal() {
    let mut p = Parser::new("\tLDA");
    let e = p.parse_source().expect_err("missing trailing newline");
    assert_eq!(e.kind, ParseErrorKind::UnexpectedEndOfInput);
}

#[test]
fn invalid_label_character_is_fatal() {
    let mut p = Parser::new("F_\n");
    let e = p.parse_source().expect_err("underscore inside a label");
    assert_eq!(e.kind, ParseErrorKind::InvalidLabelCharacter);
    assert_eq!((e.line, e.column), (1, 2));
    assert_eq!(e.file, "<builtin>");
}

#[test]
fn garbage_after_instruction_is_fatal() {
    let mut p = Parser::new(" LDA #3 x\n");
    let e = p.parse_source().expect_err("junk after the parameter");
    assert_eq!(e.kind, ParseErrorKind::ExpectedCommentOrEndOfLine);
}

#[test]
fn error_position_names_the_offending_line() {
    let mut p = Parser::new("\tCLC\nxx~\n");
    let e = p.parse_source().expect_err("invalid label character");
    assert_eq!(e.kind, ParseErrorKind::InvalidLabelCharacter);
    assert_eq!((e.line, e.column), (2, 3));
}

#[test]
fn oversized_number_is_fatal() {
    let mut p = Parser::new(" byte 99999999999999999999\n");
    let e = p.parse_source().expect_err("value beyond 64 bits");
    assert_eq!(e.kind, ParseErrorKind::NumberTooLarge);
}

#[test]
fn largest_i64_number_still_lexes() {
    let mut p = Parser::new(" byte 9223372036854775807\n");
    let prog = p.parse_source().expect("value fits in 64 bits");
    let inst = prog.lines[0].instruction.as_ref().unwrap();
    assert!(matches!(inst.parameter, Some(Number::Address(i64::MAX))));
}

#[test]
fn hash_without_digits_gives_no_parameter() {
    let mut p = Parser::new(" LDA #\n");
    let prog = p.parse_source().expect("grammar allows an empty parameter");
    let inst = prog.lines[0].instruction.as_ref().unwrap();
    assert_eq!(inst.mnemonic, "LDA");
    assert!(inst.parameter.is_none());
}

#[test]
fn empty_source_has_no_lines() {
    let mut p = Parser::new("");
    let prog = p.parse_source().expect("empty source is fine");
    assert_eq!(prog.lines.len(), 0);
}
