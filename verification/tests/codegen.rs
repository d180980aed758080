use asm7x::codegen::assemble;
use asm7x::error::GenErrorKind;
use asm7x::parser::Parser;

fn assemble_source(source: &str) -> Result<asm7x::codegen::Assembly, asm7x::error::GenError> {
    let mut p = Parser::new(source);
    let prog = p.parse_source().expect("test source parses");
    assemble(&prog)
}

#[test]
fn clc_is_position_independent() {
    let low = assemble_source("\tCLC\n").expect("assembles");
    assert_eq!(low.bytes, vec![0x18]);
    assert_eq!(low.address, 1);
    let high = assemble_source(" org 1000\n CLC\n").expect("assembles");
    assert_eq!(high.bytes, vec![0x18]);
    assert_eq!(high.address, 1001);
}

#[test]
fn org_to_equal_address_fails() {
    let e = assemble_source("\torg 10\n\torg 10\n").expect_err("origin moved backward");
    assert_eq!(e.kind, GenErrorKind::OriginMovedBackward);
    assert_eq!(e.line_index, 1);
}

#[test]
fn org_backward_fails() {
    let e = assemble_source(" org 100\n org 50\n").expect_err("origin moved backward");
    assert_eq!(e.kind, GenErrorKind::OriginMovedBackward);
}

#[test]
fn byte_255_succeeds_byte_256_fails() {
    let ok = assemble_source(" byte 255\n").expect("255 is in range");
    assert_eq!(ok.bytes, vec![0xFF]);
    let e = assemble_source(" byte 256\n").expect_err("256 is out of range");
    assert_eq!(e.kind, GenErrorKind::ValueOutOfRange);
}

#[test]
fn first_org_sets_unset_origin_without_filler() {
    let out = assemble_source(" processor 6502\n org 100\n byte 1\nReset:\n\tLDX\t#255\n\tTXS\n")
        .expect("assembles");
    // offset 100: 0x01; 101-102: 0xA2 0xFF; 103: 0x9A; no filler bytes.
    assert_eq!(out.bytes, vec![0x01, 0xA2, 0xFF, 0x9A]);
    assert_eq!(out.address, 104);
}

#[test]
fn forward_org_pads_with_nop_filler() {
    let out = assemble_source(" org 5\n org 8\n").expect("assembles");
    assert_eq!(out.bytes, vec![0xEA, 0xEA, 0xEA]);
    assert_eq!(out.address, 8);
}

#[test]
fn huge_branch_destination_fails_before_any_byte() {
    let e = assemble_source("\tBCS\t9999999\n").expect_err("destination out of range");
    assert_eq!(e.kind, GenErrorKind::ValueOutOfRange);
    assert_eq!(e.line_index, 0);
}

#[test]
fn unknown_instruction_emits_nothing() {
    let e = assemble_source("\tFOO\n").expect_err("not in the mnemonic table");
    assert_eq!(e.kind, GenErrorKind::UnknownInstruction);
}

#[test]
fn absolute_operand_is_little_endian() {
    let out = assemble_source(" JMP 32806\n").expect("assembles");
    assert_eq!(out.bytes, vec![0x4C, 0x26, 0x80]);
    assert_eq!(out.address, 3);
}

#[test]
fn immediate_loads_encode_opcode_then_value() {
    let out = assemble_source(" LDA #0\n LDX #63\n").expect("assembles");
    assert_eq!(out.bytes, vec![0xA9, 0x00, 0xA2, 0x3F]);
    assert_eq!(out.address, 4);
}

#[test]
fn implied_instructions_encode_one_opcode_byte() {
    let out = assemble_source(" CLC\n CLD\n RTI\n SEI\n TXS\n").expect("assembles");
    assert_eq!(out.bytes, vec![0x18, 0xD8, 0x40, 0x78, 0x9A]);
    assert_eq!(out.address, 5);
}

#[test]
fn branch_at_or_after_own_address_encodes_offset() {
    let out = assemble_source(" org 100\n BCS 110\n").expect("assembles");
    // Offset byte: destination + 256 - address after the operand bytes,
    // truncated to one byte: (110 + 256 - 102) % 256.
    assert_eq!(out.bytes, vec![0xB0, 0x08]);
    assert_eq!(out.address, 102);
}

#[test]
fn branch_to_own_address_wraps_offset() {
    let out = assemble_source(" org 100\n BPL 100\n").expect("assembles");
    assert_eq!(out.bytes, vec![0xD0, 0xFE]);
    assert_eq!(out.address, 102);
}

#[test]
fn branch_before_own_address_fails() {
    let e = assemble_source(" org 100\n BCS 50\n").expect_err("branch out of range");
    assert_eq!(e.kind, GenErrorKind::BranchOutOfRange);
    assert_eq!(e.line_index, 1);
}

#[test]
fn wrong_parameter_kind_is_fatal() {
    let e = assemble_source(" byte #5\n").expect_err("byte takes an address-kind value");
    assert_eq!(e.kind, GenErrorKind::WrongParameterKind);
    let e = assemble_source(" LDA 5\n").expect_err("LDA takes an immediate");
    assert_eq!(e.kind, GenErrorKind::WrongParameterKind);
}

#[test]
fn missing_parameter_is_fatal() {
    let e = assemble_source(" byte\n").expect_err("byte requires a parameter");
    assert_eq!(e.kind, GenErrorKind::MissingParameter);
    let e = assemble_source(" JMP\n").expect_err("JMP requires a parameter");
    assert_eq!(e.kind, GenErrorKind::MissingParameter);
}

#[test]
fn unexpected_parameter_is_fatal() {
    let e = assemble_source(" CLC 5\n").expect_err("CLC takes no parameter");
    assert_eq!(e.kind, GenErrorKind::UnexpectedParameter);
}

#[test]
fn immediate_out_of_range_is_fatal() {
    let e = assemble_source(" LDX #256\n").expect_err("immediate beyond one byte");
    assert_eq!(e.kind, GenErrorKind::ValueOutOfRange);
}

#[test]
fn org_out_of_range_is_fatal() {
    let e = assemble_source(" org 65536\n").expect_err("org beyond 16 bits");
    assert_eq!(e.kind, GenErrorKind::ValueOutOfRange);
}

#[test]
fn processor_directive_is_ignored() {
    let out = assemble_source(" processor 6502\n").expect("assembles");
    assert_eq!(out.bytes, Vec::<u8>::new());
    assert_eq!(out.address, 0);
}

#[test]
fn labels_are_stored_but_never_consulted() {
    let out = assemble_source("Start:\tCLC\nLoop:\n\tCLD\n").expect("assembles");
    assert_eq!(out.bytes, vec![0x18, 0xD8]);
    assert_eq!(out.address, 2);
}

#[test]
fn larger_program_assembles_end_to_end() {
    let source = " org 32768\n LDX #255\n TXS\n BIT 8194\n BCS 32781\n JMP 32806\n";
    let out = assemble_source(source).expect("assembles");
    assert_eq!(
        out.bytes,
        vec![0xA2, 0xFF, 0x9A, 0x2C, 0x02, 0x20, 0xB0, 0x05, 0x4C, 0x26, 0x80]
    );
    assert_eq!(out.address, 32779);
}
