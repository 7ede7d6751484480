use vstd::prelude::*;
use crate::cpu::{CpuModel, VF, executable, model_wf, step};
use crate::display::PIXELS;
use crate::opcode::{opcode_at, op_kind, op_nn, op_n, op_x, op_y};
use crate::ram::MEMORY_SIZE;

verus! {

proof fn lemma_shift_arith(a: u8)
    ensures
        a >> 7u8 == a / 128,
        a >> 1u8 == a / 2,
        a & 1u8 == a % 2,
        (a << 1u8) == (a as int * 2) % 256,
{
    assert(a >> 7u8 == a / 128) by (bit_vector);
    assert(a >> 1u8 == a / 2) by (bit_vector);
    assert(a & 1u8 == a % 2) by (bit_vector);
    assert((a << 1u8) == ((a as u16) * 2) % 256) by (bit_vector);
}

/// The conditional skips compare registers as numbers: `3XNN` skips the next
/// instruction exactly when VX equals NN, `4XNN` exactly when it differs,
/// `5XY0` exactly when VX equals VY and `9XY0` exactly when it differs; a
/// skip moves the program counter on by four bytes, no skip by two.
pub proof fn lemma_skip_instructions(s: CpuModel, mem: Seq<u8>, random: u8, delay: u8)
    requires
        model_wf(s),
        mem.len() == MEMORY_SIZE,
        executable(s, mem),
    ensures
        ({
            let op = opcode_at(mem, s.pc as int);
            let vx = s.v[op_x(op) as int];
            let vy = s.v[op_y(op) as int];
            let nn = op_nn(op);
            let t = step(s, mem, random, delay).0;
            &&& op_kind(op) == 3 ==> t.pc == s.pc + if vx == nn { 4int } else { 2int }
            &&& op_kind(op) == 4 ==> t.pc == s.pc + if vx != nn { 4int } else { 2int }
            &&& op_kind(op) == 5 ==> t.pc == s.pc + if vx == vy { 4int } else { 2int }
            &&& op_kind(op) == 9 ==> t.pc == s.pc + if vx != vy { 4int } else { 2int }
            &&& (op_kind(op) == 3 || op_kind(op) == 4 || op_kind(op) == 5 || op_kind(op) == 9)
                ==> t.v == s.v && t.i == s.i && t.stack == s.stack && t.screen == s.screen
                && step(s, mem, random, delay).1 == mem
        }),
{
}

/// The key skips read the keypad: `EXA1` skips the next instruction exactly
/// when key VX is up, `EX9E` exactly when it is held down, and neither
/// changes anything but the program counter.
pub proof fn lemma_key_skip_instructions(s: CpuModel, mem: Seq<u8>, random: u8, delay: u8)
    requires
        model_wf(s),
        mem.len() == MEMORY_SIZE,
        executable(s, mem),
        op_kind(opcode_at(mem, s.pc as int)) == 0xE,
    ensures
        ({
            let op = opcode_at(mem, s.pc as int);
            let down = s.keys[s.v[op_x(op) as int] as int];
            let t = step(s, mem, random, delay).0;
            &&& op_nn(op) == 0xA1 ==> t.pc == s.pc + if down { 2int } else { 4int }
            &&& op_nn(op) == 0x9E ==> t.pc == s.pc + if down { 4int } else { 2int }
            &&& t.v == s.v && t.i == s.i && t.keys == s.keys && t.screen == s.screen
        }),
{
}

/// The arithmetic instructions, in arithmetic terms, for a target register
/// other than VF: `7XNN` adds modulo 256 and leaves VF alone; `8XY4` adds
/// modulo 256 and sets VF on a carry; `8XY5` and `8XY7` subtract, VF
/// telling whether the minuend was the larger; `8XY6` halves VY into VX with
/// the dropped low bit in VF; `8XYE` doubles VX modulo 256 with the dropped
/// top bit in VF. Every other register is left alone.
pub proof fn lemma_arith_instructions(s: CpuModel, mem: Seq<u8>, random: u8, delay: u8)
    requires
        model_wf(s),
        mem.len() == MEMORY_SIZE,
        executable(s, mem),
        op_x(opcode_at(mem, s.pc as int)) != VF,
    ensures
        ({
            let op = opcode_at(mem, s.pc as int);
            let x = op_x(op) as int;
            let y = op_y(op) as int;
            let vx = s.v[x] as int;
            let vy = s.v[y] as int;
            let n = op_n(op);
            let t = step(s, mem, random, delay).0;
            &&& op_kind(op) == 7 ==> t.v[x] == (vx + op_nn(op) as int) % 256 && t.v[VF as int]
                == s.v[VF as int]
            &&& op_kind(op) == 8 && n == 4 ==> t.v[x] == (vx + vy) % 256 && t.v[VF as int] == if vx
                + vy > 255 {
                1
            } else {
                s.v[VF as int] as int
            }
            &&& op_kind(op) == 8 && n == 5 ==> t.v[x] == vx - vy && t.v[VF as int] == if vx > vy {
                1int
            } else {
                0int
            }
            &&& op_kind(op) == 8 && n == 7 ==> t.v[x] == vy - vx && t.v[VF as int] == if vy > vx {
                1int
            } else {
                0int
            }
            &&& op_kind(op) == 8 && n == 6 ==> t.v[x] == vy / 2 && t.v[VF as int] == vy % 2
            &&& op_kind(op) == 8 && n == 0xE ==> t.v[x] == (vx * 2) % 256 && t.v[VF as int] == vx
                / 128
            &&& op_kind(op) == 8 && n == 0 ==> t.v[x] == vy
            &&& op_kind(op) == 8 && n == 1 ==> t.v[x] == s.v[x] | s.v[y]
            &&& op_kind(op) == 8 && n == 2 ==> t.v[x] == s.v[x] & s.v[y]
            &&& op_kind(op) == 8 && n == 3 ==> t.v[x] == s.v[x] ^ s.v[y]
            &&& (op_kind(op) == 7 || op_kind(op) == 8) ==> forall|r: int|
                0 <= r < 16 && r != x && r != VF ==> #[trigger] t.v[r] == s.v[r]
            &&& (op_kind(op) == 7 || (op_kind(op) == 8 && n != 3)) ==> t.pc == s.pc + 2
            &&& op_kind(op) == 8 && n == 3 ==> t.pc == s.pc + 4
        }),
{
    let op = opcode_at(mem, s.pc as int);
    let x = op_x(op) as int;
    let y = op_y(op) as int;
    lemma_shift_arith(s.v[x]);
    lemma_shift_arith(s.v[y]);
}

/// `DXYN` reports a collision exactly when it turns a lit pixel off: VF
/// becomes 1 if some pixel lit before the instruction is dark after it, and
/// 0 otherwise, whatever VF held before.
pub proof fn lemma_draw_flag(s: CpuModel, mem: Seq<u8>, random: u8, delay: u8)
    requires
        model_wf(s),
        mem.len() == MEMORY_SIZE,
        executable(s, mem),
        op_kind(opcode_at(mem, s.pc as int)) == 0xD,
    ensures
        ({
            let t = step(s, mem, random, delay).0;
            &&& t.v[VF as int] == if exists|p: int|
                0 <= p < PIXELS && #[trigger] s.screen.pixels[p] == 1 && t.screen.pixels[p] == 0 {
                1u8
            } else {
                0u8
            }
            &&& t.pc == s.pc + 2
            &&& t.screen.draw_flag
        }),
{
    let op = opcode_at(mem, s.pc as int);
    let x = op_x(op) as int;
    let y = op_y(op) as int;
    let n = op_n(op);
    let rows = crate::display::sprite_rows(mem, s.i as int, n as int);
    crate::display::lemma_collides_turns_off(s.screen.pixels, rows, s.v[x], s.v[y]);
}

/// Jumps, calls, returns and register loads: `1NNN` jumps to NNN; `2NNN`
/// jumps to NNN with the address after the call pushed on the stack; `00EE`
/// pops the stack into the program counter; `00E0` darkens every pixel;
/// `6XNN` puts NN in VX; `ANNN` puts NNN in I; `CXNN` puts the random byte
/// masked by NN in VX; `BNNN` changes nothing but the recorded previous
/// program counter. None of them writes memory.
pub proof fn lemma_control_instructions(s: CpuModel, mem: Seq<u8>, random: u8, delay: u8)
    requires
        model_wf(s),
        mem.len() == MEMORY_SIZE,
        executable(s, mem),
        op_kind(opcode_at(mem, s.pc as int)) <= 0xC,
        op_kind(opcode_at(mem, s.pc as int)) != 3,
        op_kind(opcode_at(mem, s.pc as int)) != 4,
        op_kind(opcode_at(mem, s.pc as int)) != 5,
        op_kind(opcode_at(mem, s.pc as int)) != 7,
        op_kind(opcode_at(mem, s.pc as int)) != 8,
        op_kind(opcode_at(mem, s.pc as int)) != 9,
    ensures
        ({
            let op = opcode_at(mem, s.pc as int);
            let x = op_x(op) as int;
            let nnn = op as int % 4096;
            let nn = op as int % 256;
            let t = step(s, mem, random, delay).0;
            &&& step(s, mem, random, delay).1 == mem
            &&& op_kind(op) == 1 ==> t.pc == nnn && t.stack == s.stack && t.v == s.v
            &&& op_kind(op) == 2 ==> t.pc == nnn && t.stack.len() == s.stack.len() + 1
                && t.stack.last() == s.pc + 2 && t.stack.drop_last() == s.stack && t.v == s.v
            &&& op_kind(op) == 0 && op_nn(op) == 0xEE ==> t.pc == s.stack[s.stack.len() - 1]
                && t.stack == s.stack.subrange(0, s.stack.len() - 1)
            &&& op_kind(op) == 0 && op_nn(op) == 0xE0 ==> t.pc == s.pc + 2 && (forall|p: int|
                0 <= p < PIXELS ==> #[trigger] t.screen.pixels[p] == 0) && t.screen.pixels.len()
                == PIXELS && t.v == s.v
            &&& op_kind(op) == 6 ==> t.v == s.v.update(x, nn as u8) && t.pc == s.pc + 2
            &&& op_kind(op) == 0xA ==> t.i == nnn && t.v == s.v && t.pc == s.pc + 2
            &&& op_kind(op) == 0xC ==> t.v == s.v.update(x, random & (nn as u8)) && t.pc == s.pc
                + 2
            &&& op_kind(op) == 0xB ==> t == (CpuModel { prev_pc: s.pc, ..s })
            &&& t.prev_pc == s.pc
        }),
{
    let op = opcode_at(mem, s.pc as int);
    if op_kind(op) == 2 {
        let t = step(s, mem, random, delay).0;
        assert(t.stack.drop_last() =~= s.stack);
    }
}

/// The `FXNN` group in terms of its inputs: `FX07` copies the delay reading
/// into VX, `FX15` and `FX18` set the timers to VX, `FX1E` adds VX to I,
/// `FX29` sets I to five times VX, `FX55` writes VX to the X + 1 bytes
/// from I and moves I past them, `FX65` loads V0 to VX from the X + 1 bytes
/// from I and sets I to X + 1, and `FX0A` puts a held key in VX (the lowest
/// one) and stays on the instruction.
pub proof fn lemma_misc_instructions(s: CpuModel, mem: Seq<u8>, random: u8, delay: u8)
    requires
        model_wf(s),
        mem.len() == MEMORY_SIZE,
        executable(s, mem),
        op_kind(opcode_at(mem, s.pc as int)) == 0xF,
    ensures
        ({
            let op = opcode_at(mem, s.pc as int);
            let x = op_x(op) as int;
            let vx = s.v[x];
            let nn = op_nn(op);
            let t = step(s, mem, random, delay).0;
            let m = step(s, mem, random, delay).1;
            &&& nn == 0x07 ==> t.v == s.v.update(x, delay) && t.pc == s.pc + 2
            &&& nn == 0x15 ==> t.delay_timer == vx && t.v == s.v && t.pc == s.pc + 2
            &&& nn == 0x18 ==> t.sound_timer == vx && t.v == s.v && t.pc == s.pc + 2
            &&& nn == 0x1E ==> t.i == s.i + vx && t.pc == s.pc + 2
            &&& nn == 0x29 ==> t.i == 5 * vx && t.pc == s.pc + 2
            &&& nn == 0x55 ==> (forall|a: int|
                0 <= a < MEMORY_SIZE ==> #[trigger] m[a] == if s.i <= a <= s.i + x {
                    vx
                } else {
                    mem[a]
                }) && t.i == s.i + x + 1 && t.v == s.v
            &&& nn == 0x65 ==> (forall|r: int|
                0 <= r < 16 ==> #[trigger] t.v[r] == if r <= x {
                    mem[s.i + r]
                } else {
                    s.v[r]
                }) && t.i == x + 1 && m == mem
            &&& nn == 0x0A ==> ((forall|k: int| 0 <= k < 16 ==> !#[trigger] s.keys[k]) ==> t.v
                == s.v)
            &&& nn == 0x0A ==> t.pc == s.pc && forall|k: int|
                0 <= k < 16 && #[trigger] s.keys[k] ==> t.v[x] < 16 && s.keys[t.v[x] as int] && t.v[x]
                    <= k && t.v == s.v.update(x, t.v[x])
        }),
{
    let op = opcode_at(mem, s.pc as int);
    if op_nn(op) == 0x0A {
        lemma_first_pressed_facts(s.keys, 0);
    }
}

proof fn lemma_first_pressed_facts(keys: Seq<bool>, from: int)
    requires
        0 <= from <= 16,
    ensures
        from <= crate::keypad::first_pressed_from(keys, from) <= 16,
        crate::keypad::first_pressed_from(keys, from) < 16 ==> keys[crate::keypad::first_pressed_from(
            keys,
            from,
        )],
        forall|k: int|
            from <= k < crate::keypad::first_pressed_from(keys, from) ==> !#[trigger] keys[k],
    decreases 16 - from,
{
    if from < 16 && !keys[from] {
        lemma_first_pressed_facts(keys, from + 1);
    }
}

} // verus!
