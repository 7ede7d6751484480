use vstd::prelude::*;
use crate::cpu::{Cpu, CpuModel, PROG_START, executable, step, sets_delay, model_wf, lemma_cpu_wf};
use crate::opcode::opcode_at;
use std::time::Instant;
use crate::display::frame_of;
use crate::keypad::{HostKey, key_index};
use crate::ram::{Ram, MEMORY_SIZE, lemma_ram_len, initial_memory};
use crate::timer::delay_after;

verus! {

broadcast use lemma_ram_len;

/// The largest program that fits between `PROG_START` and the end of memory.
pub const MAX_ROM_SIZE: usize = 3584;

/// The memory after loading `data` at `PROG_START` into `mem`.
pub open spec fn loaded(mem: Seq<u8>, data: Seq<u8>) -> Seq<u8> {
    Seq::new(
        mem.len(),
        |a: int|
            if PROG_START <= a < PROG_START + data.len() {
                data[a - PROG_START]
            } else {
                mem[a]
            },
    )
}

/// The whole machine: memory and processor.
pub struct Chip8 {
    ram: Ram,
    cpu: Cpu,
}

/// The machine is always well formed: a full memory and a well-formed
/// processor state.
pub broadcast proof fn lemma_chip8_wf(c: &Chip8)
    ensures
        #[trigger] model_wf(c.machine()),
        c.memory().len() == MEMORY_SIZE,
{
    lemma_cpu_wf(&c.cpu);
}

impl Chip8 {
    /// The processor state.
    pub closed spec fn machine(&self) -> CpuModel {
        self.cpu@
    }

    /// The memory contents.
    pub closed spec fn memory(&self) -> Seq<u8> {
        self.ram@
    }

    /// The moment the delay timer was last set.
    pub closed spec fn delay_start(&self) -> Instant {
        self.cpu.delay_start()
    }

    /// A machine with the font in memory and the processor at the program
    /// start.
    pub fn new() -> (c: Chip8)
        ensures
            c.memory() == initial_memory(),
            c.machine().pc == PROG_START,
            c.machine().i == 0,
            c.machine().prev_pc == 0,
            c.machine().screen.draw_flag,
            c.machine().stack.len() == 0,
            c.machine().v == Seq::new(16, |_r: int| 0u8),
            c.machine().keys == Seq::new(16, |_k: int| false),
            c.machine().screen.pixels == Seq::new(2048, |_p: int| 0u8),
            c.machine().delay_timer == 0,
            c.machine().sound_timer == 0,
    {
        Chip8 { ram: Ram::new(), cpu: Cpu::new() }
    }

    /// Copies the program `data` into memory from `PROG_START` on.
    pub fn load_rom(&mut self, data: &Vec<u8>)
        requires
            data@.len() <= MAX_ROM_SIZE,
        ensures
            final(self).memory() == loaded(old(self).memory(), data@),
            final(self).machine() == old(self).machine(),
            final(self).delay_start() == old(self).delay_start(),
    {
        let ghost mem = self.ram@;
        for i in 0..data.len()
            invariant
                data@.len() <= MAX_ROM_SIZE,
                self.cpu == old(self).cpu,
                mem == old(self).ram@,
                forall|a: int|
                    0 <= a < MEMORY_SIZE ==> #[trigger] self.ram@[a] == if PROG_START <= a
                        < PROG_START + i {
                        data@[a - PROG_START]
                    } else {
                        mem[a]
                    },
        {
            self.ram.write_byte(PROG_START + (i as u16), data[i]);
        }
        assert(self.ram@ =~= loaded(mem, data@));
    }

    /// Whether `execute_opcode` can run the instruction at the program
    /// counter.
    pub fn can_execute(&self) -> (b: bool)
        ensures
            b == executable(self.machine(), self.memory()),
    {
        self.cpu.can_execute(&self.ram)
    }

    /// Runs one instruction (see `Cpu::execute_opcode`).
    pub fn execute_opcode(&mut self)
        requires
            executable(old(self).machine(), old(self).memory()),
        ensures
            !sets_delay(opcode_at(old(self).memory(), old(self).machine().pc as int))
                ==> final(self).delay_start() == old(self).delay_start(),
            exists|random: u8, ms: int|
                random < 255 && ms >= 0 && final(self).machine() =~= step(
                    old(self).machine(),
                    old(self).memory(),
                    random,
                    delay_after(old(self).machine().delay_timer, ms),
                ).0 && final(self).memory() =~= step(
                    old(self).machine(),
                    old(self).memory(),
                    random,
                    delay_after(old(self).machine().delay_timer, ms),
                ).1,
    {
        self.cpu.execute_opcode(&mut self.ram);
    }

    /// The image to show, if the screen changed since it was last shown.
    pub fn draw_screen(&mut self) -> (frame: Option<Vec<bool>>)
        ensures
            final(self).memory() == old(self).memory(),
            final(self).delay_start() == old(self).delay_start(),
            final(self).machine().screen.pixels == old(self).machine().screen.pixels,
            !final(self).machine().screen.draw_flag,
            match frame {
                Some(f) => old(self).machine().screen.draw_flag && f@ == frame_of(
                    old(self).machine().screen.pixels,
                ),
                None => !old(self).machine().screen.draw_flag,
            },
    {
        self.cpu.draw_screen()
    }

    /// Records that a host key went down (`state` true) or up.
    pub fn press(&mut self, key: HostKey, state: bool)
        ensures
            final(self).memory() == old(self).memory(),
            final(self).delay_start() == old(self).delay_start(),
            final(self).machine() == (CpuModel {
                keys: match key_index(key) {
                    Some(k) => old(self).machine().keys.update(k, state),
                    None => old(self).machine().keys,
                },
                ..old(self).machine()
            }),
    {
        self.cpu.press(key, state);
    }

    /// The processor.
    pub fn cpu(&self) -> (r: &Cpu)
        ensures
            r@ == self.machine(),
    {
        &self.cpu
    }

    /// The memory.
    pub fn ram(&self) -> (r: &Ram)
        ensures
            r@ == self.memory(),
    {
        &self.ram
    }
}

/// Loading a program leaves the font, and everything below `PROG_START`,
/// untouched, and puts the program's bytes in order from `PROG_START` on.
pub proof fn lemma_load_keeps_font(mem: Seq<u8>, data: Seq<u8>)
    requires
        mem.len() == MEMORY_SIZE,
        data.len() <= MAX_ROM_SIZE,
    ensures
        loaded(mem, data).len() == MEMORY_SIZE,
        loaded(mem, data).subrange(0, PROG_START as int) == mem.subrange(0, PROG_START as int),
        loaded(mem, data).subrange(PROG_START as int, PROG_START + data.len()) == data,
{
    assert(loaded(mem, data).subrange(0, PROG_START as int) =~= mem.subrange(0, PROG_START as int));
    assert(loaded(mem, data).subrange(PROG_START as int, PROG_START + data.len()) =~= data);
}

} // verus!
