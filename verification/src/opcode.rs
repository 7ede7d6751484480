use vstd::prelude::*;
use crate::ram::{Ram, MEMORY_SIZE, lemma_ram_len};

verus! {

broadcast use lemma_ram_len;

/// The instruction word at `pc`: two bytes, most significant first.
pub open spec fn opcode_at(mem: Seq<u8>, pc: int) -> u16 {
    (mem[pc] as int * 256 + mem[pc + 1] as int) as u16
}

/// The instruction class: the top nibble.
pub open spec fn op_kind(op: u16) -> int {
    op as int / 4096
}

/// The 12-bit address operand `NNN`.
pub open spec fn op_nnn(op: u16) -> u16 {
    (op as int % 4096) as u16
}

/// The byte operand `NN`.
pub open spec fn op_nn(op: u16) -> u8 {
    (op as int % 256) as u8
}

/// The nibble operand `N`.
pub open spec fn op_n(op: u16) -> u8 {
    (op as int % 16) as u8
}

/// The first register operand `X`.
pub open spec fn op_x(op: u16) -> u8 {
    (op as int / 256 % 16) as u8
}

/// The second register operand `Y`.
pub open spec fn op_y(op: u16) -> u8 {
    (op as int / 16 % 16) as u8
}

/// The fields of an instruction word.
pub struct Fields {
    pub kind: u16,
    pub nnn: u16,
    pub nn: u8,
    pub n: u8,
    pub x: u8,
    pub y: u8,
}

/// Splits an instruction word into its class and operands.
pub fn decode(opcode: u16) -> (f: Fields)
    ensures
        f.kind == op_kind(opcode),
        f.nnn == op_nnn(opcode),
        f.nn == op_nn(opcode),
        f.n == op_n(opcode),
        f.x == op_x(opcode),
        f.y == op_y(opcode),
        f.x < 16,
        f.y < 16,
        f.n < 16,
{
    let nnn = opcode & 0x0FFF;
    let nn = (opcode & 0x0FF) as u8;
    let n = (opcode & 0x00F) as u8;
    let x = ((opcode & 0x0F00) >> 8) as u8;
    let y = ((opcode & 0x00F0) >> 4) as u8;
    let kind = (opcode & 0xF000) >> 12;
    proof {
        assert(opcode & 0x0FFF == opcode % 4096) by (bit_vector);
        assert(opcode & 0x0FF == opcode % 256) by (bit_vector);
        assert(opcode & 0x00F == opcode % 16) by (bit_vector);
        assert((opcode & 0x0F00) >> 8 == opcode / 256 % 16) by (bit_vector);
        assert((opcode & 0x00F0) >> 4 == opcode / 16 % 16) by (bit_vector);
        assert((opcode & 0xF000) >> 12 == opcode / 4096) by (bit_vector);
    }
    Fields { kind, nnn, nn, n, x, y }
}

/// Reads the instruction word at `pc`: the byte at `pc` is the high half,
/// the byte after it the low half.
pub fn fetch_opcode(ram: &Ram, pc: u16) -> (op: u16)
    requires
        pc as int + 1 < MEMORY_SIZE,
    ensures
        op == opcode_at(ram@, pc as int),
{
    let first_byte = ram.read_byte(pc) as u16;
    let second_byte = ram.read_byte(pc + 1) as u16;
    proof {
        assert(first_byte < 256 && second_byte < 256 ==> (first_byte << 8) | second_byte == first_byte * 256 + second_byte) by (bit_vector);
    }
    (first_byte << 8) | second_byte
}

} // verus!
