//! A CHIP-8 interpreter core: memory, registers, the sprite display, the
//! hexadecimal keypad and the instruction semantics, with their contracts.

pub mod keypad;
pub mod ram;
pub mod display;
pub mod timer;
pub mod opcode;
pub mod cpu;
pub mod chip8;
pub mod state_text;
pub mod instruction_laws;
