//! The code generator: a single forward pass over a parsed program that
//! turns each instruction into machine-code bytes under strict per-mnemonic
//! addressing-mode contracts, while maintaining one address counter.
//!
//! The fixed mnemonic table binds each mnemonic to its required parameter
//! kind, numeric range, opcode and byte layout. Directives: `processor` is
//! accepted and ignored; `org` sets the unset counter or moves it strictly
//! forward, padding the gap with NOP filler bytes; `byte` injects one literal
//! byte. The address counter starts at 0 and never decreases.

use vstd::prelude::*;

use crate::ast::Instruction;
use crate::ast::InstructionV;
use crate::ast::LineV;
use crate::ast::Number;
use crate::ast::NumberV;
use crate::ast::ParsedSource;
use crate::error::GenError;
use crate::error::GenErrorKind;

verus! {

/// Outcome of encoding one instruction at a given address: the emitted bytes
/// and the next address, or a fault.
pub enum LineGen {
    Emit { bytes: Seq<u8>, next: int },
    Fail { kind: GenErrorKind },
}

/// Outcome of assembling a whole program: the emitted byte stream and the
/// final address counter, or a fault with the index of the offending line.
pub enum GenScan {
    Done { bytes: Seq<u8>, addr: int },
    Fail { kind: GenErrorKind, at: int },
}

/// `n` NOP filler bytes, emitted to fill the gap of a forward `org`.
pub open spec fn nop_fill(n: nat) -> Seq<u8> {
    Seq::new(n, |k: int| 0xEAu8)
}

/// Opcode of a mnemonic that takes no parameter.
pub open spec fn implied_op(m: Seq<char>) -> Option<u8> {
    if m == "CLC"@ {
        Some(0x18u8)
    } else if m == "CLD"@ {
        Some(0xD8u8)
    } else if m == "RTI"@ {
        Some(0x40u8)
    } else if m == "SEI"@ {
        Some(0x78u8)
    } else if m == "TXS"@ {
        Some(0x9Au8)
    } else {
        None
    }
}

/// Opcode of a mnemonic that takes an immediate in `0..=255`.
pub open spec fn immediate_op(m: Seq<char>) -> Option<u8> {
    if m == "LDA"@ {
        Some(0xA9u8)
    } else if m == "LDX"@ {
        Some(0xA2u8)
    } else {
        None
    }
}

/// Opcode of a mnemonic that takes an absolute address in `0..=65535`,
/// encoded as a little-endian 16-bit operand.
pub open spec fn absolute_op(m: Seq<char>) -> Option<u8> {
    if m == "BIT"@ {
        Some(0x2Cu8)
    } else if m == "JMP"@ {
        Some(0x4Cu8)
    } else if m == "STA"@ {
        Some(0x8Du8)
    } else {
        None
    }
}

/// Opcode of a relative-branch mnemonic.
pub open spec fn branch_op(m: Seq<char>) -> Option<u8> {
    if m == "BCS"@ {
        Some(0xB0u8)
    } else if m == "BPL"@ {
        Some(0xD0u8)
    } else {
        None
    }
}

/// The encoded offset byte of a branch at `addr` to `dest`: the destination
/// plus 256 minus the address after the operand byte, truncated to one byte.
pub open spec fn branch_offset(addr: int, dest: int) -> u8 {
    (((dest + 256) - (addr + 2)) % 256) as u8
}

/// The fixed mnemonic table: what one instruction at address `addr` emits,
/// and the address after it, or the exact fault it raises. Mnemonics are
/// matched case-sensitively and each is bound to exactly one parameter kind
/// and range.
pub open spec fn spec_encode_instruction(addr: int, i: InstructionV) -> LineGen {
    if i.mnemonic == "processor"@ {
        LineGen::Emit { bytes: Seq::empty(), next: addr }
    } else if i.mnemonic == "byte"@ {
        match i.parameter {
            None => LineGen::Fail { kind: GenErrorKind::MissingParameter },
            Some(NumberV::Immediate(_)) => LineGen::Fail { kind: GenErrorKind::WrongParameterKind },
            Some(NumberV::Address(v)) => if 0 <= v <= 255 {
                LineGen::Emit { bytes: seq![v as u8], next: addr + 1 }
            } else {
                LineGen::Fail { kind: GenErrorKind::ValueOutOfRange }
            },
        }
    } else if i.mnemonic == "org"@ {
        match i.parameter {
            None => LineGen::Fail { kind: GenErrorKind::MissingParameter },
            Some(NumberV::Immediate(_)) => LineGen::Fail { kind: GenErrorKind::WrongParameterKind },
            Some(NumberV::Address(v)) => if !(0 <= v <= 65535) {
                LineGen::Fail { kind: GenErrorKind::ValueOutOfRange }
            } else if addr == 0 {
                LineGen::Emit { bytes: Seq::empty(), next: v }
            } else if v > addr {
                LineGen::Emit { bytes: nop_fill((v - addr) as nat), next: v }
            } else {
                LineGen::Fail { kind: GenErrorKind::OriginMovedBackward }
            },
        }
    } else if implied_op(i.mnemonic) is Some {
        let op = implied_op(i.mnemonic)->0;
        match i.parameter {
            None => LineGen::Emit { bytes: seq![op], next: addr + 1 },
            Some(_) => LineGen::Fail { kind: GenErrorKind::UnexpectedParameter },
        }
    } else if immediate_op(i.mnemonic) is Some {
        let op = immediate_op(i.mnemonic)->0;
        match i.parameter {
            None => LineGen::Fail { kind: GenErrorKind::MissingParameter },
            Some(NumberV::Address(_)) => LineGen::Fail { kind: GenErrorKind::WrongParameterKind },
            Some(NumberV::Immediate(v)) => if 0 <= v <= 255 {
                LineGen::Emit { bytes: seq![op, v as u8], next: addr + 2 }
            } else {
                LineGen::Fail { kind: GenErrorKind::ValueOutOfRange }
            },
        }
    } else if absolute_op(i.mnemonic) is Some {
        let op = absolute_op(i.mnemonic)->0;
        match i.parameter {
            None => LineGen::Fail { kind: GenErrorKind::MissingParameter },
            Some(NumberV::Immediate(_)) => LineGen::Fail { kind: GenErrorKind::WrongParameterKind },
            Some(NumberV::Address(v)) => if 0 <= v <= 65535 {
                LineGen::Emit {
                    bytes: seq![op, (v % 256) as u8, (v / 256) as u8],
                    next: addr + 3,
                }
            } else {
                LineGen::Fail { kind: GenErrorKind::ValueOutOfRange }
            },
        }
    } else if branch_op(i.mnemonic) is Some {
        let op = branch_op(i.mnemonic)->0;
        match i.parameter {
            None => LineGen::Fail { kind: GenErrorKind::MissingParameter },
            Some(NumberV::Immediate(_)) => LineGen::Fail { kind: GenErrorKind::WrongParameterKind },
            Some(NumberV::Address(v)) => if !(0 <= v <= 65535) {
                LineGen::Fail { kind: GenErrorKind::ValueOutOfRange }
            } else if v >= addr && v >= addr - 128 {
                LineGen::Emit { bytes: seq![op, branch_offset(addr, v)], next: addr + 2 }
            } else {
                LineGen::Fail { kind: GenErrorKind::BranchOutOfRange }
            },
        }
    } else {
        LineGen::Fail { kind: GenErrorKind::UnknownInstruction }
    }
}

/// What one parsed line emits: a line without an instruction emits nothing
/// and leaves the address counter unchanged.
pub open spec fn spec_encode_line(addr: int, line: LineV) -> LineGen {
    match line.instruction {
        None => LineGen::Emit { bytes: Seq::empty(), next: addr },
        Some(i) => spec_encode_instruction(addr, i),
    }
}

/// Assembling the lines from index `i` onward, starting at address `addr`:
/// the concatenated bytes of every line and the final counter, or the first
/// fault with the index of its line.
pub open spec fn spec_assemble_from(lines: Seq<LineV>, i: int, addr: int) -> GenScan
    decreases lines.len() - i,
{
    if i >= lines.len() {
        GenScan::Done { bytes: Seq::empty(), addr }
    } else {
        match spec_encode_line(addr, lines[i]) {
            LineGen::Fail { kind } => GenScan::Fail { kind, at: i },
            LineGen::Emit { bytes, next } => match spec_assemble_from(lines, i + 1, next) {
                GenScan::Fail { kind, at } => GenScan::Fail { kind, at },
                GenScan::Done { bytes: rest, addr: fin } => GenScan::Done {
                    bytes: bytes + rest,
                    addr: fin,
                },
            },
        }
    }
}

/// Assembling a whole program, with the address counter initialized to 0.
pub open spec fn spec_assemble(lines: Seq<LineV>) -> GenScan {
    spec_assemble_from(lines, 0, 0)
}

/// A successful instruction leaves the address counter no lower than it was,
/// no more than 3 higher unless an `org` placed it, and within `0..=65535`
/// after an `org`.
pub proof fn lemma_encode_instruction_next(addr: int, i: InstructionV)
    ensures
        spec_encode_instruction(addr, i) matches LineGen::Emit { next, .. } ==> addr <= next && (
        next <= addr + 3 || next <= 65535),
{
}

/// Appending one more NOP filler byte.
proof fn lemma_nop_fill_snoc(n: nat)
    ensures
        nop_fill(n + 1) == nop_fill(n).push(0xEAu8),
{
    assert(nop_fill(n + 1) =~= nop_fill(n).push(0xEAu8));
}

/// Whether two strings hold the same characters.
fn str_eq(a: &str, b: &str) -> (r: bool)
    ensures
        r == (a@ == b@),
{
    let alen = a.unicode_len();
    let blen = b.unicode_len();
    if alen != blen {
        proof {
            if a@ == b@ {
                assert(a@.len() == b@.len());
            }
        }
        return false;
    }
    let mut i: usize = 0;
    while i < alen
        invariant
            i <= alen,
            alen == a@.len(),
            blen == b@.len(),
            alen == blen,
            forall|j: int| 0 <= j < i ==> a@[j] == b@[j],
        decreases alen - i,
    {
        let ca = a.get_char(i);
        let cb = b.get_char(i);
        if ca != cb {
            proof {
                if a@ == b@ {
                    assert(a@[i as int] == b@[i as int]);
                }
            }
            return false;
        }
        i = i + 1;
    }
    proof {
        assert(a@ =~= b@);
    }
    true
}

/// Opcode lookup for the implied-mode mnemonics.
fn implied_opcode(m: &str) -> (r: Option<u8>)
    ensures
        r == implied_op(m@),
{
    if str_eq(m, "CLC") {
        Some(0x18)
    } else if str_eq(m, "CLD") {
        Some(0xD8)
    } else if str_eq(m, "RTI") {
        Some(0x40)
    } else if str_eq(m, "SEI") {
        Some(0x78)
    } else if str_eq(m, "TXS") {
        Some(0x9A)
    } else {
        None
    }
}

/// Opcode lookup for the immediate-mode mnemonics.
fn immediate_opcode(m: &str) -> (r: Option<u8>)
    ensures
        r == immediate_op(m@),
{
    if str_eq(m, "LDA") {
        Some(0xA9)
    } else if str_eq(m, "LDX") {
        Some(0xA2)
    } else {
        None
    }
}

/// Opcode lookup for the absolute-mode mnemonics.
fn absolute_opcode(m: &str) -> (r: Option<u8>)
    ensures
        r == absolute_op(m@),
{
    if str_eq(m, "BIT") {
        Some(0x2C)
    } else if str_eq(m, "JMP") {
        Some(0x4C)
    } else if str_eq(m, "STA") {
        Some(0x8D)
    } else {
        None
    }
}

/// Opcode lookup for the relative-branch mnemonics.
fn branch_opcode(m: &str) -> (r: Option<u8>)
    ensures
        r == branch_op(m@),
{
    if str_eq(m, "BCS") {
        Some(0xB0)
    } else if str_eq(m, "BPL") {
        Some(0xD0)
    } else {
        None
    }
}

/// Encode one instruction at `addr`, appending its bytes to `out`; on a
/// fault nothing is appended.
#[verifier::loop_isolation(false)]
fn encode_instruction(addr: u32, inst: &Instruction, out: &mut Vec<u8>) -> (r: Result<
    u32,
    GenErrorKind,
>)
    requires
        addr <= u32::MAX - 3,
    ensures
        match r {
            Ok(a2) => spec_encode_instruction(addr as int, inst@) matches LineGen::Emit {
                bytes,
                next,
            } && final(out)@ == old(out)@ + bytes && a2 as int == next,
            Err(k) => spec_encode_instruction(addr as int, inst@) == (LineGen::Fail { kind: k })
                && final(out)@ == old(out)@,
        },
{
    let m = inst.mnemonic.as_str();
    if str_eq(m, "processor") {
        proof {
            assert(old(out)@ + Seq::<u8>::empty() =~= old(out)@);
        }
        return Ok(addr);
    }
    if str_eq(m, "byte") {
        return match &inst.parameter {
            None => Err(GenErrorKind::MissingParameter),
            Some(Number::Immediate(_)) => Err(GenErrorKind::WrongParameterKind),
            Some(Number::Address(v)) => {
                if 0 <= *v && *v <= 255 {
                    out.push(*v as u8);
                    proof {
                        assert(out@ =~= old(out)@ + seq![*v as u8]);
                    }
                    Ok(addr + 1)
                } else {
                    Err(GenErrorKind::ValueOutOfRange)
                }
            },
        };
    }
    if str_eq(m, "org") {
        return match &inst.parameter {
            None => Err(GenErrorKind::MissingParameter),
            Some(Number::Immediate(_)) => Err(GenErrorKind::WrongParameterKind),
            Some(Number::Address(v)) => {
                if !(0 <= *v && *v <= 65535) {
                    Err(GenErrorKind::ValueOutOfRange)
                } else if addr == 0 {
                    proof {
                        assert(old(out)@ + Seq::<u8>::empty() =~= old(out)@);
                    }
                    Ok(*v as u32)
                } else if *v > addr as i64 {
                    let target = *v as u32;
                    let mut a = addr;
                    proof {
                        assert(out@ =~= old(out)@ + nop_fill(0));
                    }
                    while a < target
                        invariant
                            addr <= a <= target,
                            out@ == old(out)@ + nop_fill((a - addr) as nat),
                        decreases target - a,
                    {
                        out.push(0xEA);
                        proof {
                            lemma_nop_fill_snoc((a - addr) as nat);
                            assert(old(out)@ + nop_fill((a + 1 - addr) as nat) =~= (old(out)@
                                + nop_fill((a - addr) as nat)).push(0xEAu8));
                        }
                        a = a + 1;
                    }
                    Ok(target)
                } else {
                    Err(GenErrorKind::OriginMovedBackward)
                }
            },
        };
    }
    if let Some(op) = implied_opcode(m) {
        return match &inst.parameter {
            None => {
                out.push(op);
                proof {
                    assert(out@ =~= old(out)@ + seq![op]);
                }
                Ok(addr + 1)
            },
            Some(_) => Err(GenErrorKind::UnexpectedParameter),
        };
    }
    if let Some(op) = immediate_opcode(m) {
        return match &inst.parameter {
            None => Err(GenErrorKind::MissingParameter),
            Some(Number::Address(_)) => Err(GenErrorKind::WrongParameterKind),
            Some(Number::Immediate(v)) => {
                if 0 <= *v && *v <= 255 {
                    out.push(op);
                    out.push(*v as u8);
                    proof {
                        assert(out@ =~= old(out)@ + seq![op, *v as u8]);
                    }
                    Ok(addr + 2)
                } else {
                    Err(GenErrorKind::ValueOutOfRange)
                }
            },
        };
    }
    if let Some(op) = absolute_opcode(m) {
        return match &inst.parameter {
            None => Err(GenErrorKind::MissingParameter),
            Some(Number::Immediate(_)) => Err(GenErrorKind::WrongParameterKind),
            Some(Number::Address(v)) => {
                if 0 <= *v && *v <= 65535 {
                    out.push(op);
                    out.push((*v % 256) as u8);
                    out.push((*v / 256) as u8);
                    proof {
                        assert(out@ =~= old(out)@ + seq![op, (*v % 256) as u8, (*v / 256) as u8]);
                    }
                    Ok(addr + 3)
                } else {
                    Err(GenErrorKind::ValueOutOfRange)
                }
            },
        };
    }
    if let Some(op) = branch_opcode(m) {
        return match &inst.parameter {
            None => Err(GenErrorKind::MissingParameter),
            Some(Number::Immediate(_)) => Err(GenErrorKind::WrongParameterKind),
            Some(Number::Address(v)) => {
                if !(0 <= *v && *v <= 65535) {
                    Err(GenErrorKind::ValueOutOfRange)
                } else if *v >= addr as i64 && *v + 128 >= addr as i64 {
                    let off = (((*v + 256) - (addr as i64 + 2)) % 256) as u8;
                    out.push(op);
                    out.push(off);
                    proof {
                        assert(off == branch_offset(addr as int, *v as int));
                        assert(out@ =~= old(out)@ + seq![op, off]);
                    }
                    Ok(addr + 2)
                } else {
                    Err(GenErrorKind::BranchOutOfRange)
                }
            },
        };
    }
    Err(GenErrorKind::UnknownInstruction)
}

/// A fully assembled program: the machine-code byte stream in ascending
/// address order, and the final address counter.
#[derive(Debug)]
pub struct Assembly {
    pub bytes: Vec<u8>,
    pub address: u32,
}

/// Assemble a parsed program into its byte stream, starting with the address
/// counter at 0. On the first fault, nothing is returned but the fault and
/// the index of its line.
///
/// The bound on the number of lines keeps the 32-bit address counter from
/// wrapping: each line advances it by at most 3 once it is past the highest
/// `org` target.
#[verifier::loop_isolation(false)]
pub fn assemble(parsed: &ParsedSource) -> (r: Result<Assembly, GenError>)
    requires
        parsed.lines@.len() <= 1431633920,
    ensures
        match r {
            Ok(out) => spec_assemble(parsed@) == (GenScan::Done {
                bytes: out.bytes@,
                addr: out.address as int,
            }),
            Err(e) => spec_assemble(parsed@) matches GenScan::Fail { kind, at } && e.kind == kind
                && e.line_index as int == at,
        },
{
    let mut bytes: Vec<u8> = Vec::new();
    let mut addr: u32 = 0;
    let mut i: usize = 0;
    proof {
        assert(bytes@ =~= Seq::<u8>::empty());
    }
    loop
        invariant
            i <= parsed.lines@.len(),
            addr as int <= 65535 + 3 * i,
            match spec_assemble_from(parsed@, i as int, addr as int) {
                GenScan::Done { bytes: rest, addr: fin } => spec_assemble(parsed@)
                    == (GenScan::Done { bytes: bytes@ + rest, addr: fin }),
                GenScan::Fail { kind, at } => spec_assemble(parsed@) == (GenScan::Fail {
                    kind,
                    at,
                }),
            },
        decreases parsed.lines@.len() - i,
    {
        if i >= parsed.lines.len() {
            proof {
                assert(bytes@ + Seq::<u8>::empty() =~= bytes@);
            }
            return Ok(Assembly { bytes, address: addr });
        }
        let line = &parsed.lines[i];
        proof {
            assert(parsed@[i as int] == line@);
        }
        match &line.instruction {
            None => {
                proof {
                    match spec_assemble_from(parsed@, i as int + 1, addr as int) {
                        GenScan::Done { bytes: rest, .. } => {
                            assert(Seq::<u8>::empty() + rest =~= rest);
                        },
                        GenScan::Fail { .. } => {},
                    }
                }
                i = i + 1;
            },
            Some(inst) => {
                proof {
                    lemma_encode_instruction_next(addr as int, inst@);
                }
                let ghost prev = bytes@;
                match encode_instruction(addr, inst, &mut bytes) {
                    Ok(a2) => {
                        proof {
                            match spec_encode_instruction(addr as int, inst@) {
                                LineGen::Emit { bytes: b, .. } => {
                                    match spec_assemble_from(parsed@, i as int + 1, a2 as int) {
                                        GenScan::Done { bytes: rest, .. } => {
                                            assert(prev + (b + rest) =~= (prev + b) + rest);
                                        },
                                        GenScan::Fail { .. } => {},
                                    }
                                },
                                LineGen::Fail { .. } => {},
                            }
                        }
                        addr = a2;
                        i = i + 1;
                    },
                    Err(k) => {
                        return Err(GenError { kind: k, line_index: i });
                    },
                }
            },
        }
    }
}

} // verus!
