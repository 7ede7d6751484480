use vstd::prelude::*;
use rand::Rng;
use std::time::Instant;
use crate::display::{
    Display, Screen, PIXELS, drawn, collides, pixels_wf, sprite_rows, lemma_display_len,
    lemma_drawn_wf,
};
use crate::keypad::{
    Keypad, HostKey, KEY_COUNT, first_pressed, lemma_first_pressed,
    lemma_keypad_len, key_index,
};
use crate::opcode::{opcode_at, op_kind, op_nnn, op_nn, op_n, op_x, op_y, fetch_opcode, decode};
use crate::ram::{Ram, MEMORY_SIZE, FONT_SIZE, font, lemma_ram_len};
use crate::timer::{
    delay_after, millis_of, instant_now, elapsed_since, duration_secs, duration_subsec_nanos,
    get_millis, remaining_delay, MAX_EXACT_SECS, MILLIS_PER_TICK, lemma_long_wait_runs_out,
    lemma_delay_counts_down,
};

verus! {

broadcast use lemma_ram_len, lemma_keypad_len, lemma_display_len;

/// Address at which programs are loaded and execution starts.
pub const PROG_START: u16 = 0x200;

/// Index of the flag register VF.
pub const VF: usize = 15;

#[verifier::external_type_specification]
#[verifier::external_body]
pub struct ExThreadRng(rand::ThreadRng);

/// Calls `rand::thread_rng`: a handle on the generator of the current
/// thread, seeded by the operating system. Nothing is claimed of it.
#[verifier::external_body]
fn new_thread_rng() -> rand::ThreadRng {
    rand::thread_rng()
}

/// Calls `rand::Rng::gen_range` on `rng`: a value drawn uniformly from
/// `[low, high)` (its source panics unless `low < high`, and builds the
/// sample from `Range::new(low, high)`). Only the bounds are claimed: the
/// value is random.
#[verifier::external_body]
fn gen_range_u8(rng: &mut rand::ThreadRng, low: u8, high: u8) -> (r: u8)
    requires
        low < high,
    ensures
        low <= r < high,
{
    rng.gen_range(low, high)
}

/// The observable state of the processor.
#[verifier::ext_equal]
pub struct CpuModel {
    /// The sixteen registers V0 to VF.
    pub v: Seq<u8>,
    /// The program counter.
    pub pc: u16,
    /// The address register I.
    pub i: u16,
    /// Return addresses of the subroutines being run, innermost last.
    pub stack: Seq<u16>,
    /// The program counter before the last instruction.
    pub prev_pc: u16,
    /// The display.
    pub screen: Screen,
    /// The keypad: which keys are held down.
    pub keys: Seq<bool>,
    /// The value the delay timer was last set to.
    pub delay_timer: u8,
    /// The sound timer.
    pub sound_timer: u8,
}

/// The program counter moved on by one instruction (two bytes).
pub open spec fn advance(t: CpuModel) -> CpuModel {
    CpuModel { pc: (t.pc + 2) as u16, ..t }
}

/// The program counter moved on by two instructions if `cond` holds (the next
/// one is skipped), by one otherwise.
pub open spec fn skip_if(t: CpuModel, cond: bool) -> CpuModel {
    CpuModel { pc: (t.pc + if cond { 4int } else { 2int }) as u16, ..t }
}

/// `8XYN`: whether the arithmetic-logic instruction exists and can run.
/// `8XY5` needs `VX >= VY` and `8XY7` needs `VY >= VX`: the subtraction
/// must not go below zero.
pub open spec fn alu_valid(v: Seq<u8>, x: int, y: int, n: u8) -> bool {
    ||| n <= 4
    ||| (n == 5 && v[x] >= v[y])
    ||| n == 6
    ||| (n == 7 && v[y] >= v[x])
    ||| n == 0xE
}

/// `8XYN`: the registers after the arithmetic-logic instruction.
///
/// - 0: VX = VY; 1: VX |= VY; 2: VX &= VY; 3: VX ^= VY.
/// - 4: VX += VY modulo 256; VF = 1 on a carry (left alone otherwise).
/// - 5: VF = (VX > VY); VX = VX - VY.
/// - 6: VF = least bit of VY; VX = VY >> 1 (VY shifted right into VX).
/// - 7: VF = (VY > VX); VX = VY - VX.
/// - E: VF = top bit of VX; VX <<= 1.
///
/// VF is written first, then VX, so when X is F the result lands in VF.
pub open spec fn alu(v: Seq<u8>, x: int, y: int, n: u8) -> Seq<u8> {
    let vx = v[x];
    let vy = v[y];
    if n == 0 {
        v.update(x, vy)
    } else if n == 1 {
        v.update(x, vx | vy)
    } else if n == 2 {
        v.update(x, vx & vy)
    } else if n == 3 {
        v.update(x, vx ^ vy)
    } else if n == 4 {
        let r = v.update(x, ((vx + vy) % 256) as u8);
        if vx + vy > 255 {
            r.update(VF as int, 1u8)
        } else {
            r
        }
    } else if n == 5 {
        v.update(VF as int, if vx > vy { 1u8 } else { 0u8 }).update(x, (vx - vy) as u8)
    } else if n == 6 {
        v.update(VF as int, vy & 1u8).update(x, vy >> 1u8)
    } else if n == 7 {
        v.update(VF as int, if vy > vx { 1u8 } else { 0u8 }).update(x, (vy - vx) as u8)
    } else {
        let r = v.update(VF as int, vx >> 7u8);
        r.update(x, r[x] << 1u8)
    }
}

/// `FXNN`: whether the instruction exists and can run.
pub open spec fn misc_valid(s: CpuModel, x: int, nn: u8) -> bool {
    let vx = s.v[x];
    ||| nn == 0x07 || nn == 0x15 || nn == 0x18 || nn == 0x29
    ||| (nn == 0x0A && s.pc >= 2)
    ||| (nn == 0x1E && s.i + vx <= u16::MAX)
    ||| (nn == 0x33 && s.i + 2 < MEMORY_SIZE)
    ||| ((nn == 0x55 || nn == 0x65) && s.i + x < MEMORY_SIZE)
}

/// Whether the instruction word `op` exists and can run in state `s`: the
/// instruction set has no entry for it, or running it would fail (a
/// subtraction below zero, an address past the end of memory or of the
/// 16-bit range, a return with no subroutine, a key number above F).
pub open spec fn valid_instruction(s: CpuModel, op: u16) -> bool {
    let kind = op_kind(op);
    let x = op_x(op) as int;
    let y = op_y(op) as int;
    let nn = op_nn(op);
    let n = op_n(op);
    if kind == 0 {
        nn == 0xE0 || (nn == 0xEE && s.stack.len() > 0)
    } else if kind == 8 {
        alu_valid(s.v, x, y, n)
    } else if kind == 0xD {
        n == 0 || s.i + n <= MEMORY_SIZE
    } else if kind == 0xE {
        (nn == 0xA1 || nn == 0x9E) && s.v[x] < KEY_COUNT
    } else if kind == 0xF {
        misc_valid(s, x, nn)
    } else {
        true
    }
}

/// Whether one instruction can be run: the word at the program counter lies
/// in memory and is a valid instruction there.
pub open spec fn executable(s: CpuModel, mem: Seq<u8>) -> bool {
    &&& s.pc + 1 < MEMORY_SIZE
    &&& valid_instruction(s, opcode_at(mem, s.pc as int))
}

/// `0NNN`: `00E0` clears the screen; `00EE` returns from a subroutine to the
/// address on top of the stack.
pub open spec fn next_sys(t: CpuModel, nn: u8) -> CpuModel {
    if nn == 0xE0 {
        advance(
            CpuModel {
                screen: Screen { pixels: Seq::new(PIXELS as nat, |_p: int| 0u8), draw_flag: true },
                ..t
            },
        )
    } else {
        CpuModel { pc: t.stack.last(), stack: t.stack.drop_last(), ..t }
    }
}

/// `DXYN`: draws the `N`-row sprite at I at `(VX, VY)`; VF tells whether a
/// lit pixel was turned off.
pub open spec fn next_draw(t: CpuModel, mem: Seq<u8>, x: int, y: int, n: u8) -> CpuModel {
    let rows = sprite_rows(mem, t.i as int, n as int);
    let hit = collides(t.screen.pixels, rows, t.v[x], t.v[y]);
    advance(
        CpuModel {
            screen: Screen { pixels: drawn(t.screen.pixels, rows, t.v[x], t.v[y]), draw_flag: true },
            v: t.v.update(VF as int, if hit { 1u8 } else { 0u8 }),
            ..t
        },
    )
}

/// `EXNN`: `EXA1` skips unless key VX is held down; `EX9E` skips if it is.
pub open spec fn next_key_skip(t: CpuModel, x: int, nn: u8) -> CpuModel {
    let down = t.keys[t.v[x] as int];
    if nn == 0xA1 {
        skip_if(t, !down)
    } else {
        skip_if(t, down)
    }
}

/// `FXNN`: timers, keys, the address register and memory transfers.
///
/// - 07: VX = the delay timer's reading; 15: set the delay timer to VX;
///   18: set the sound timer to VX.
/// - 0A: VX = the lowest key held down, if any; the program counter stays
///   on this instruction either way.
/// - 1E: I += VX; 29: I = 5 * VX, the font glyph of digit VX.
/// - 33: the decimal digits of VX at I, I + 1, I + 2.
/// - 55: VX stored at I to I + X; I += X + 1; the next instruction is
///   skipped.
/// - 65: V0 to VX loaded from I to I + X; I = X + 1.
pub open spec fn next_misc(t: CpuModel, mem: Seq<u8>, x: int, nn: u8, delay: u8) -> (CpuModel, Seq<u8>) {
    let vx = t.v[x];
    if nn == 0x07 {
        (advance(CpuModel { v: t.v.update(x, delay), ..t }), mem)
    } else if nn == 0x15 {
        (advance(CpuModel { delay_timer: vx, ..t }), mem)
    } else if nn == 0x18 {
        (advance(CpuModel { sound_timer: vx, ..t }), mem)
    } else if nn == 0x0A {
        let k = first_pressed(t.keys);
        (CpuModel { v: if k < KEY_COUNT { t.v.update(x, k as u8) } else { t.v }, ..t }, mem)
    } else if nn == 0x1E {
        (advance(CpuModel { i: (t.i + vx) as u16, ..t }), mem)
    } else if nn == 0x29 {
        (advance(CpuModel { i: (vx * 5) as u16, ..t }), mem)
    } else if nn == 0x33 {
        (
            advance(t),
            mem.update(t.i as int, vx / 100).update(t.i + 1, (vx % 100) / 10).update(
                t.i + 2,
                vx % 10,
            ),
        )
    } else if nn == 0x55 {
        (
            CpuModel { i: (t.i + x + 1) as u16, pc: (t.pc + 4) as u16, ..t },
            Seq::new(mem.len(), |a: int| if t.i <= a <= t.i + x { vx } else { mem[a] }),
        )
    } else {
        (
            advance(
                CpuModel {
                    v: Seq::new(16, |r: int| if r <= x { mem[t.i + r] } else { t.v[r] }),
                    i: (x + 1) as u16,
                    ..t
                },
            ),
            mem,
        )
    }
}

/// The state and memory after running the instruction at the program
/// counter, where `random` is the random byte that `CXNN` masks and `delay`
/// the delay timer reading that `FX07` copies.
pub open spec fn step(s: CpuModel, mem: Seq<u8>, random: u8, delay: u8) -> (CpuModel, Seq<u8>) {
    let op = opcode_at(mem, s.pc as int);
    let kind = op_kind(op);
    let nnn = op_nnn(op);
    let nn = op_nn(op);
    let n = op_n(op);
    let x = op_x(op) as int;
    let y = op_y(op) as int;
    let t = CpuModel { prev_pc: s.pc, ..s };
    let vx = t.v[x];
    let vy = t.v[y];
    if kind == 0 {
        (next_sys(t, nn), mem)
    } else if kind == 1 {
        (CpuModel { pc: nnn, ..t }, mem)
    } else if kind == 2 {
        (CpuModel { pc: nnn, stack: t.stack.push((t.pc + 2) as u16), ..t }, mem)
    } else if kind == 3 {
        (skip_if(t, vx == nn), mem)
    } else if kind == 4 {
        (skip_if(t, vx != nn), mem)
    } else if kind == 5 {
        (skip_if(t, vx == vy), mem)
    } else if kind == 6 {
        (advance(CpuModel { v: t.v.update(x, nn), ..t }), mem)
    } else if kind == 7 {
        (advance(CpuModel { v: t.v.update(x, ((vx + nn) % 256) as u8), ..t }), mem)
    } else if kind == 8 {
        (skip_if(CpuModel { v: alu(t.v, x, y, n), ..t }, n == 3), mem)
    } else if kind == 9 {
        (skip_if(t, vx != vy), mem)
    } else if kind == 0xA {
        (advance(CpuModel { i: nnn, ..t }), mem)
    } else if kind == 0xB {
        (t, mem)
    } else if kind == 0xC {
        (advance(CpuModel { v: t.v.update(x, random & nn), ..t }), mem)
    } else if kind == 0xD {
        (next_draw(t, mem, x, y, n), mem)
    } else if kind == 0xE {
        (next_key_skip(t, x, nn), mem)
    } else {
        next_misc(t, mem, x, nn, delay)
    }
}

/// Whether the instruction word `op` is `FX15`, the one instruction that
/// restarts the delay timer's clock.
pub open spec fn sets_delay(op: u16) -> bool {
    op_kind(op) == 0xF && op_nn(op) == 0x15
}

/// What a delay timer set to `timer` reads after `secs` seconds and
/// `subsec_nanos` nanoseconds.
pub fn delay_reading(timer: u8, secs: u64, subsec_nanos: u32) -> (r: u8)
    requires
        subsec_nanos < 1_000_000_000,
    ensures
        r == delay_after(timer, millis_of(secs as int, subsec_nanos as int)),
{
    if secs > MAX_EXACT_SECS {
        // Beyond what a u64 count of nanoseconds holds, every timer has run out.
        proof {
            lemma_long_wait_runs_out(timer, secs as int, subsec_nanos as int);
        }
        return 0;
    }
    let ms = get_millis(secs, subsec_nanos);
    remaining_delay(timer, ms)
}

/// The processor: registers, stack, timers, display and keypad.
pub struct Cpu {
    v: [u8; 16],
    pc: u16,
    i: u16,
    stack: Vec<u16>,
    prev_pc: u16,
    display: Display,
    keypad: Keypad,
    delay_timer: u8,
    delay_set: Instant,
    sound_timer: u8,
    rng: rand::ThreadRng,
}

impl View for Cpu {
    type V = CpuModel;

    closed spec fn view(&self) -> CpuModel {
        CpuModel {
            v: self.v@,
            pc: self.pc,
            i: self.i,
            stack: self.stack@,
            prev_pc: self.prev_pc,
            screen: self.display@,
            keys: self.keypad@,
            delay_timer: self.delay_timer,
            sound_timer: self.sound_timer,
        }
    }
}


proof fn lemma_truncate_sum(vx: u8, vy: u8)
    ensures
        ((vx as u16 + vy as u16) as u16) as u8 == ((vx + vy) % 256) as u8,
{
    let sum: u16 = (vx as u16 + vy as u16) as u16;
    assert(sum as u8 == (sum % 256) as u8) by (bit_vector);
}

proof fn lemma_wrapping_add(vx: u8, nn: u8)
    ensures
        vstd::wrapping::u8_specs::wrapping_add(vx, nn) == ((vx + nn) % 256) as u8,
{
}

/// The processor state is always well formed.
pub broadcast proof fn lemma_cpu_wf(c: &Cpu)
    ensures
        #[trigger] model_wf(c@),
{
}

impl Cpu {
    /// The moment the delay timer was last set: its reading counts down
    /// from there.
    pub closed spec fn delay_start(&self) -> Instant {
        self.delay_set
    }

    /// A processor at the program start, with zeroed registers, an empty
    /// stack, stopped timers, a dark screen and no key held down.
    pub fn new() -> (c: Cpu)
        ensures
            c@.v == Seq::new(16, |_r: int| 0u8),
            c@.pc == PROG_START,
            c@.i == 0,
            c@.stack == Seq::<u16>::empty(),
            c@.prev_pc == 0,
            c@.screen.pixels == Seq::new(PIXELS as nat, |_p: int| 0u8),
            c@.screen.draw_flag,
            c@.keys == Seq::new(16, |_k: int| false),
            c@.delay_timer == 0,
            c@.sound_timer == 0,
    {
        let c = Cpu {
            display: Display::new(),
            keypad: Keypad::new(),
            v: [0u8; 16],
            pc: PROG_START,
            i: 0,
            stack: Vec::<u16>::new(),
            prev_pc: 0,
            delay_timer: 0,
            delay_set: instant_now(),
            sound_timer: 0,
            rng: new_thread_rng(),
        };
        assert(c@.v =~= Seq::new(16, |_r: int| 0u8));
        c
    }

    /// Whether `execute_opcode` can run the instruction at the program
    /// counter against `ram` (see `executable`).
    pub fn can_execute(&self, ram: &Ram) -> (b: bool)
        ensures
            b == executable(self@, ram@),
    {
        if self.pc >= 4095 {
            return false;
        }
        let opcode = fetch_opcode(ram, self.pc);
        let f = decode(opcode);
        let x = f.x as usize;
        let y = f.y as usize;
        let vx = self.v[x];
        let vy = self.v[y];
        match f.kind {
            0x0 => f.nn == 0xE0 || (f.nn == 0xEE && self.stack.len() > 0),
            0x8 => f.n <= 4 || (f.n == 5 && vx >= vy) || f.n == 6 || (f.n == 7 && vy >= vx)
                || f.n == 0xE,
            0xD => f.n == 0 || (self.i as usize) + (f.n as usize) <= MEMORY_SIZE,
            0xE => (f.nn == 0xA1 || f.nn == 0x9E) && (vx as usize) < KEY_COUNT,
            0xF => {
                f.nn == 0x07 || f.nn == 0x15 || f.nn == 0x18 || f.nn == 0x29 || (f.nn == 0x0A
                    && self.pc >= 2) || (f.nn == 0x1E && (self.i as u32) + (vx as u32) <= 0xFFFF)
                    || (f.nn == 0x33 && (self.i as usize) + 2 < MEMORY_SIZE) || ((f.nn == 0x55
                    || f.nn == 0x65) && (self.i as usize) + x < MEMORY_SIZE)
            },
            _ => true,
        }
    }

    /// Runs the instruction at the program counter, with `random` as the
    /// random byte for `CXNN` and `delay` as the delay timer reading for
    /// `FX07`.
    pub fn execute_opcode_with(&mut self, ram: &mut Ram, random: u8, delay: u8)
        requires
            executable(old(self)@, old(ram)@),
        ensures
            !sets_delay(opcode_at(old(ram)@, old(self)@.pc as int)) ==> final(self).delay_start()
                == old(self).delay_start(),
            final(self)@ =~= step(old(self)@, old(ram)@, random, delay).0,
            final(ram)@ =~= step(old(self)@, old(ram)@, random, delay).1,
    {
        let opcode = fetch_opcode(ram, self.pc);
        let f = decode(opcode);
        let nnn = f.nnn;
        let nn = f.nn;
        let n = f.n;
        let x = f.x as usize;
        let y = f.y as usize;
        self.prev_pc = self.pc;
        match f.kind {
            0x0 => self.exec_sys(nn),
            0x1 => {
                self.pc = nnn;
            },
            0x2 => {
                self.stack.push(self.pc + 2);
                self.pc = nnn;
            },
            0x3 => {
                if self.v[x] == nn {
                    self.pc = self.pc + 4;
                } else {
                    self.pc = self.pc + 2;
                }
            },
            0x4 => {
                if self.v[x] != nn {
                    self.pc = self.pc + 4;
                } else {
                    self.pc = self.pc + 2;
                }
            },
            0x5 => {
                if self.v[x] == self.v[y] {
                    self.pc = self.pc + 4;
                } else {
                    self.pc = self.pc + 2;
                }
            },
            0x6 => {
                self.v[x] = nn;
                self.pc = self.pc + 2;
            },
            0x7 => {
                let vx = self.v[x];
                proof {
                    lemma_wrapping_add(vx, nn);
                }
                self.v[x] = vx.wrapping_add(nn);
                self.pc = self.pc + 2;
            },
            0x8 => self.exec_alu(x, y, n),
            0x9 => {
                if self.v[x] != self.v[y] {
                    self.pc = self.pc + 4;
                } else {
                    self.pc = self.pc + 2;
                }
            },
            0xA => {
                self.i = nnn;
                self.pc = self.pc + 2;
            },
            0xB => {
                // The sum is computed and dropped: the instruction only records
                // the previous program counter.
                let _target = self.v[x] as u16 + nnn;
            },
            0xC => {
                self.v[x] = random & nn;
                self.pc = self.pc + 2;
            },
            0xD => self.exec_draw(ram, x, y, n),
            0xE => self.exec_key_skip(x, nn),
            _ => self.exec_misc(ram, x, nn, delay),
        }
    }

    /// `00E0` and `00EE`.
    fn exec_sys(&mut self, nn: u8)
        requires
            old(self)@.pc + 1 < MEMORY_SIZE,
            nn == 0xE0 || (nn == 0xEE && old(self)@.stack.len() > 0),
        ensures
            final(self).delay_set == old(self).delay_set,
            final(self)@ =~= next_sys(old(self)@, nn),
    {
        match nn {
            0xE0 => {
                self.display.clear();
                self.pc = self.pc + 2;
            },
            _ => {
                let addr = self.stack.pop().unwrap();
                self.pc = addr;
            },
        }
    }

    /// `8XYN`.
    fn exec_alu(&mut self, x: usize, y: usize, n: u8)
        requires
            x < 16,
            y < 16,
            old(self)@.pc + 1 < MEMORY_SIZE,
            alu_valid(old(self)@.v, x as int, y as int, n),
        ensures
            final(self).delay_set == old(self).delay_set,
            final(self)@ =~= skip_if(
                CpuModel { v: alu(old(self)@.v, x as int, y as int, n), ..old(self)@ },
                n == 3,
            ),
    {
        let vx = self.v[x];
        let vy = self.v[y];
        match n {
            0 => {
                self.v[x] = self.v[y];
            },
            1 => {
                self.v[x] = self.v[x] | self.v[y];
            },
            2 => {
                self.v[x] = vx & vy;
            },
            3 => {
                self.v[x] = vx ^ vy;
                self.pc = self.pc + 2;
            },
            4 => {
                let sum: u16 = vx as u16 + vy as u16;
                proof {
                    lemma_truncate_sum(vx, vy);
                }
                self.v[x] = sum as u8;
                if sum > 0xFF {
                    self.v[VF] = 1;
                }
            },
            5 => {
                if vx > vy {
                    self.v[VF] = 1;
                } else {
                    self.v[VF] = 0;
                }
                self.v[x] = vx - vy;
            },
            6 => {
                // VY shifted right by one goes to VX; VF gets the bit shifted out.
                self.v[VF] = vy & 0x1;
                self.v[x] = vy >> 1;
            },
            7 => {
                if vy > vx {
                    self.v[VF] = 1;
                } else {
                    self.v[VF] = 0;
                }
                self.v[x] = vy - vx;
            },
            _ => {
                self.v[VF] = self.v[x] >> 7;
                self.v[x] = self.v[x] << 1;
            },
        }
        self.pc = self.pc + 2;
    }

    /// `DXYN`.
    fn exec_draw(&mut self, ram: &Ram, x: usize, y: usize, n: u8)
        requires
            x < 16,
            y < 16,
            old(self)@.pc + 1 < MEMORY_SIZE,
            n == 0 || old(self)@.i + n <= MEMORY_SIZE,
        ensures
            final(self).delay_set == old(self).delay_set,
            final(self)@ =~= next_draw(old(self)@, ram@, x as int, y as int, n),
    {
        let collision = self.display.test_draw(self.i, ram, self.v[x], self.v[y], n);
        if collision {
            self.v[VF] = 1;
        } else {
            self.v[VF] = 0;
        }
        self.pc = self.pc + 2;
    }

    /// `EXA1` and `EX9E`.
    fn exec_key_skip(&mut self, x: usize, nn: u8)
        requires
            x < 16,
            old(self)@.pc + 1 < MEMORY_SIZE,
            nn == 0xA1 || nn == 0x9E,
            old(self)@.v[x as int] < KEY_COUNT,
        ensures
            final(self).delay_set == old(self).delay_set,
            final(self)@ =~= next_key_skip(old(self)@, x as int, nn),
    {
        let keycode = self.v[x];
        if nn == 0xA1 {
            if !self.keypad.pressed(keycode as usize) {
                self.pc = self.pc + 4;
            } else {
                self.pc = self.pc + 2;
            }
        } else {
            if self.keypad.pressed(keycode as usize) {
                self.pc = self.pc + 4;
            } else {
                self.pc = self.pc + 2;
            }
        }
    }

    /// `FXNN`.
    fn exec_misc(&mut self, ram: &mut Ram, x: usize, nn: u8, delay: u8)
        requires
            x < 16,
            old(self)@.pc + 1 < MEMORY_SIZE,
            misc_valid(old(self)@, x as int, nn),
        ensures
            nn != 0x15 ==> final(self).delay_set == old(self).delay_set,
            final(self)@ =~= next_misc(old(self)@, old(ram)@, x as int, nn, delay).0,
            final(ram)@ =~= next_misc(old(self)@, old(ram)@, x as int, nn, delay).1,
    {
        let ghost s = self@;
        let ghost mem = ram@;
        let ghost start = self.delay_set;
        match nn {
            0x07 => {
                self.v[x] = delay;
            },
            0x15 => {
                let vx = self.v[x];
                self.set_delay(vx);
            },
            0x18 => {
                self.sound_timer = self.v[x];
            },
            0x0A => {
                self.wait_keypress(x);
            },
            0x1E => {
                let vx = self.v[x];
                self.i = self.i + vx as u16;
            },
            0x29 => {
                self.i = self.v[x] as u16 * 5;
            },
            0x33 => {
                let vx = self.v[x];
                ram.write_byte(self.i, vx / 100);
                ram.write_byte(self.i + 1, (vx % 100) / 10);
                ram.write_byte(self.i + 2, vx % 10);
            },
            0x55 => {
                let mut index: usize = 0;
                while index < x + 1
                    invariant
                        x < 16,
                        index <= x + 1,
                        s.i + x < MEMORY_SIZE,
                        self@ == s,
                        self.delay_set == start,
                        mem.len() == MEMORY_SIZE,
                        forall|a: int|
                            0 <= a < MEMORY_SIZE ==> #[trigger] ram@[a] == if s.i <= a < s.i
                                + index {
                                s.v[x as int]
                            } else {
                                mem[a]
                            },
                    decreases x + 1 - index,
                {
                    let value = self.v[x];
                    ram.write_byte(self.i + index as u16, value);
                    index = index + 1;
                }
                self.i = self.i + x as u16 + 1;
                self.pc = self.pc + 2;
            },
            _ => {
                let mut r: usize = 0;
                while r < x + 1
                    invariant
                        x < 16,
                        r <= x + 1,
                        s.i + x < MEMORY_SIZE,
                        ram@ == mem,
                        self.delay_set == start,
                        self@ == (CpuModel { v: self@.v, ..s }),
                        self@.v.len() == 16,
                        forall|q: int|
                            0 <= q < 16 ==> #[trigger] self@.v[q] == if q < r {
                                mem[s.i + q]
                            } else {
                                s.v[q]
                            },
                    decreases x + 1 - r,
                {
                    self.v[r] = ram.read_byte(self.i + r as u16);
                    r = r + 1;
                }
                self.i = x as u16 + 1;
            },
        }
        self.pc = self.pc + 2;
    }

    /// Waits for a key: VX becomes the lowest key held down, if any, and the
    /// program counter steps back one instruction so that it is run again.
    fn wait_keypress(&mut self, x: usize)
        requires
            x < 16,
            old(self)@.pc >= 2,
        ensures
            final(self).delay_set == old(self).delay_set,
            final(self)@ =~= (CpuModel {
                v: if first_pressed(old(self)@.keys) < KEY_COUNT {
                    old(self)@.v.update(x as int, first_pressed(old(self)@.keys) as u8)
                } else {
                    old(self)@.v
                },
                pc: (old(self)@.pc - 2) as u16,
                ..old(self)@
            }),
    {
        let ghost s = self@;
        let ghost start = self.delay_set;
        let mut k: u8 = 0;
        while k < 16
            invariant_except_break
                k <= 16,
                self@ == s,
            invariant
                x < 16,
                self.delay_set == start,
                forall|j: int| 0 <= j < k ==> !s.keys[j],
            ensures
                self@ == (CpuModel { v: self@.v, ..s }),
                k <= 16,
                k < 16 ==> s.keys[k as int] && self@.v == s.v.update(x as int, k),
                k == 16 ==> self@.v == s.v,
            decreases 16 - k,
        {
            if self.keypad.pressed(k as usize) {
                self.v[x] = k;
                break;
            }
            k = k + 1;
        }
        proof {
            lemma_first_pressed(s.keys, 0, k as int);
        }
        self.pc = self.pc - 2;
    }

    /// Runs the instruction at the program counter. `CXNN` masks a byte
    /// drawn uniformly from `0..255`; `FX07` reads the delay timer as it
    /// stands now, some whole number of 16 ms ticks below the value it was
    /// set to, and never below zero. The generator is drawn from only for
    /// `CXNN` and the clock read only for `FX07`.
    pub fn execute_opcode(&mut self, ram: &mut Ram)
        requires
            executable(old(self)@, old(ram)@),
        ensures
            !sets_delay(opcode_at(old(ram)@, old(self)@.pc as int)) ==> final(self).delay_start()
                == old(self).delay_start(),
            exists|random: u8, ms: int|
                random < 255 && ms >= 0 && final(self)@ =~= step(
                    old(self)@,
                    old(ram)@,
                    random,
                    delay_after(old(self)@.delay_timer, ms),
                ).0 && final(ram)@ =~= step(
                    old(self)@,
                    old(ram)@,
                    random,
                    delay_after(old(self)@.delay_timer, ms),
                ).1,
    {
        let f = decode(fetch_opcode(ram, self.pc));
        let random = if f.kind == 0xC {
            gen_range_u8(&mut self.rng, 0, 255)
        } else {
            0
        };
        let reads_delay = f.kind == 0xF && f.nn == 0x07;
        let delay = if reads_delay {
            self.get_delay()
        } else {
            0
        };
        let ghost ms = if reads_delay {
            choose|ms: int| ms >= 0 && delay == delay_after(self@.delay_timer, ms)
        } else {
            MILLIS_PER_TICK * 256
        };
        proof {
            lemma_delay_counts_down(self@.delay_timer, 0, MILLIS_PER_TICK * 256);
        }
        self.execute_opcode_with(ram, random, delay);
        assert(random < 255 && ms >= 0);
    }

    /// What the delay timer reads now: the value it was set to, less one
    /// for every 16 ms since then, and never below zero.
    pub fn get_delay(&self) -> (r: u8)
        ensures
            exists|ms: int| ms >= 0 && r == delay_after(self@.delay_timer, ms),
    {
        let elapsed = elapsed_since(&self.delay_set);
        let secs = duration_secs(&elapsed);
        let nanos = duration_subsec_nanos(&elapsed);
        let r = delay_reading(self.delay_timer, secs, nanos);
        let ghost ms = millis_of(secs as int, nanos as int);
        assert(ms >= 0 && r == delay_after(self@.delay_timer, ms));
        r
    }

    /// Records that a host key went down (`state` true) or up.
    pub fn press(&mut self, key: HostKey, state: bool)
        ensures
            final(self).delay_start() == old(self).delay_start(),
            final(self)@ == (CpuModel {
                keys: match key_index(key) {
                    Some(k) => old(self)@.keys.update(k, state),
                    None => old(self)@.keys,
                },
                ..old(self)@
            }),
    {
        self.keypad.press(key, state);
    }

    /// The image to show, if the screen changed since it was last shown
    /// (see `Display::draw_screen`).
    pub fn draw_screen(&mut self) -> (frame: Option<Vec<bool>>)
        ensures
            final(self).delay_start() == old(self).delay_start(),
            final(self)@ == (CpuModel {
                screen: Screen { pixels: old(self)@.screen.pixels, draw_flag: false },
                ..old(self)@
            }),
            match frame {
                Some(f) => old(self)@.screen.draw_flag && f@ == crate::display::frame_of(
                    old(self)@.screen.pixels,
                ),
                None => !old(self)@.screen.draw_flag,
            },
    {
        self.display.draw_screen()
    }

    /// Counts the stored delay timer value down by one, stopping at zero.
    pub fn tick(&mut self)
        ensures
            final(self).delay_start() == old(self).delay_start(),
            final(self)@ == (CpuModel {
                delay_timer: if old(self)@.delay_timer > 0 {
                    (old(self)@.delay_timer - 1) as u8
                } else {
                    0u8
                },
                ..old(self)@
            }),
    {
        if self.delay_timer > 0 {
            self.delay_timer = self.delay_timer - 1;
        }
    }

    /// The program counter.
    pub fn pc(&self) -> (r: u16)
        ensures
            r == self@.pc,
    {
        self.pc
    }

    /// The program counter before the last instruction.
    pub fn prev_pc(&self) -> (r: u16)
        ensures
            r == self@.prev_pc,
    {
        self.prev_pc
    }

    /// The address register I.
    pub fn i_reg(&self) -> (r: u16)
        ensures
            r == self@.i,
    {
        self.i
    }

    /// Register V`index`.
    pub fn v_reg(&self, index: usize) -> (r: u8)
        requires
            index < 16,
        ensures
            r == self@.v[index as int],
    {
        self.v[index]
    }

    /// The return addresses on the stack, innermost last.
    pub fn stack(&self) -> (r: &Vec<u16>)
        ensures
            r@ == self@.stack,
    {
        &self.stack
    }

    /// The value the delay timer was last set to (or ticked down to).
    pub fn delay_timer(&self) -> (r: u8)
        ensures
            r == self@.delay_timer,
    {
        self.delay_timer
    }

    /// The sound timer.
    pub fn sound_timer(&self) -> (r: u8)
        ensures
            r == self@.sound_timer,
    {
        self.sound_timer
    }

    /// The display.
    pub fn display(&self) -> (r: &Display)
        ensures
            r@ == self@.screen,
    {
        &self.display
    }

    /// Sets the delay timer to `val`, counting down from now: the clock's
    /// current reading becomes the new `delay_start` (see `set_delay_at`).
    pub fn set_delay(&mut self, val: u8)
        ensures
            final(self)@ == (CpuModel { delay_timer: val, ..old(self)@ }),
    {
        let now = instant_now();
        self.set_delay_at(val, now);
    }

    /// Sets the delay timer to `val`, counting down from the clock reading
    /// `now`.
    pub fn set_delay_at(&mut self, val: u8, now: Instant)
        ensures
            final(self)@ == (CpuModel { delay_timer: val, ..old(self)@ }),
            final(self).delay_start() == now,
    {
        self.delay_set = now;
        self.delay_timer = val;
    }
}

/// The processor state is well formed: sixteen registers, sixteen keys, and
/// every pixel dark or lit.
pub open spec fn model_wf(s: CpuModel) -> bool {
    &&& s.v.len() == 16
    &&& s.keys.len() == KEY_COUNT
    &&& pixels_wf(s.screen.pixels)
}

/// Every instruction keeps the state well formed and the memory size, leaves
/// the keys alone and records the program counter it started from.
pub proof fn lemma_step_wf(s: CpuModel, mem: Seq<u8>, random: u8, delay: u8)
    requires
        model_wf(s),
        mem.len() == MEMORY_SIZE,
        executable(s, mem),
    ensures
        model_wf(step(s, mem, random, delay).0),
        step(s, mem, random, delay).1.len() == MEMORY_SIZE,
        step(s, mem, random, delay).0.keys == s.keys,
        step(s, mem, random, delay).0.prev_pc == s.pc,
{
    let op = opcode_at(mem, s.pc as int);
    let x = op_x(op) as int;
    let y = op_y(op) as int;
    let n = op_n(op);
    if op_kind(op) == 0xD {
        lemma_drawn_wf(s.screen.pixels, sprite_rows(mem, s.i as int, n as int), s.v[x], s.v[y]);
    }
}

/// Only `FX33` and `FX55` write memory, and only at I and the fifteen
/// addresses after it.
pub proof fn lemma_step_writes(s: CpuModel, mem: Seq<u8>, random: u8, delay: u8, a: int)
    requires
        mem.len() == MEMORY_SIZE,
        executable(s, mem),
        0 <= a < MEMORY_SIZE,
        !(op_kind(opcode_at(mem, s.pc as int)) == 0xF && (op_nn(opcode_at(mem, s.pc as int))
            == 0x33 || op_nn(opcode_at(mem, s.pc as int)) == 0x55)) || a < s.i || a > s.i + 15,
    ensures
        step(s, mem, random, delay).1[a] == mem[a],
{
}

/// Calling a subroutine whose first instruction is `00EE` comes straight
/// back: the program counter lands on the instruction after the call and
/// the stack is as before.
pub proof fn lemma_call_then_return(
    s: CpuModel,
    mem: Seq<u8>,
    target: u16,
    random1: u8,
    delay1: u8,
    random2: u8,
    delay2: u8,
)
    requires
        mem.len() == MEMORY_SIZE,
        s.pc + 1 < MEMORY_SIZE,
        op_kind(opcode_at(mem, s.pc as int)) == 2,
        op_nnn(opcode_at(mem, s.pc as int)) == target,
        target + 1 < MEMORY_SIZE,
        mem[target as int] == 0x00,
        mem[target + 1] == 0xEE,
    ensures
        executable(s, mem),
        executable(step(s, mem, random1, delay1).0, step(s, mem, random1, delay1).1),
        step(
            step(s, mem, random1, delay1).0,
            step(s, mem, random1, delay1).1,
            random2,
            delay2,
        ).0.pc == s.pc + 2,
        step(
            step(s, mem, random1, delay1).0,
            step(s, mem, random1, delay1).1,
            random2,
            delay2,
        ).0.stack == s.stack,
{
    let s1 = step(s, mem, random1, delay1).0;
    assert(s1.stack == s.stack.push((s.pc + 2) as u16));
    assert(opcode_at(mem, target as int) == 0xEE);
    assert(s1.stack.drop_last() =~= s.stack);
}

/// `FX33` stores the three decimal digits of VX, hundreds first.
pub proof fn lemma_bcd(s: CpuModel, mem: Seq<u8>, random: u8, delay: u8)
    requires
        mem.len() == MEMORY_SIZE,
        s.v.len() == 16,
        executable(s, mem),
        op_kind(opcode_at(mem, s.pc as int)) == 0xF,
        op_nn(opcode_at(mem, s.pc as int)) == 0x33,
    ensures
        ({
            let m = step(s, mem, random, delay).1;
            let vx = s.v[op_x(opcode_at(mem, s.pc as int)) as int];
            &&& m[s.i as int] < 10 && m[s.i + 1] < 10 && m[s.i + 2] < 10
            &&& 100 * m[s.i as int] + 10 * m[s.i + 1] + m[s.i + 2] == vx
        }),
{
}

/// `FX29` points I at the font glyph of the digit in VX, so that `DXY5`
/// then draws that digit.
pub proof fn lemma_font_glyph(s: CpuModel, mem: Seq<u8>, random: u8, delay: u8)
    requires
        mem.len() == MEMORY_SIZE,
        s.v.len() == 16,
        mem.subrange(0, FONT_SIZE as int) == font(),
        executable(s, mem),
        op_kind(opcode_at(mem, s.pc as int)) == 0xF,
        op_nn(opcode_at(mem, s.pc as int)) == 0x29,
        s.v[op_x(opcode_at(mem, s.pc as int)) as int] < 16,
    ensures
        ({
            let t = step(s, mem, random, delay).0;
            let d = s.v[op_x(opcode_at(mem, s.pc as int)) as int] as int;
            &&& t.i == 5 * d
            &&& step(s, mem, random, delay).1.subrange(t.i as int, t.i + 5) == font().subrange(
                5 * d,
                5 * d + 5,
            )
        }),
{
    let t = step(s, mem, random, delay).0;
    let d = s.v[op_x(opcode_at(mem, s.pc as int)) as int] as int;
    assert forall|k: int| 0 <= k < 5 implies #[trigger] mem.subrange(t.i as int, t.i + 5)[k] == font()[5 * d + k] by {
        assert(mem.subrange(0, FONT_SIZE as int)[5 * d + k] == mem[5 * d + k]);
    }
    assert(mem.subrange(t.i as int, t.i + 5) =~= font().subrange(5 * d, 5 * d + 5));
}

} // verus!
