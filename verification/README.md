# rchip8

A CHIP-8 interpreter whose core is verified with Verus.

- `src/ram.rs`: the 4 KiB memory, with the hexadecimal font at address 0.
- `src/keypad.rs`: the sixteen-key keypad and its host keyboard layout.
- `src/display.rs`: the 64x32 monochrome screen and XOR sprite drawing with
  collision detection.
- `src/timer.rs`: the 60 Hz delay timer arithmetic and the clock it reads.
- `src/opcode.rs`: fetching and decoding instruction words.
- `src/cpu.rs`: the processor state, the meaning of every instruction as a
  specification (`step`), and the executable interpreter proved against it.
- `src/state_text.rs`: the processor state as debug text.
- `src/chip8.rs`: the whole machine (memory and processor) and ROM loading.
- `app/main.rs`: the SDL2 window, the ROM file and the event loop.
