use rchip8::chip8::{Chip8, MAX_ROM_SIZE};
use rchip8::cpu::{delay_reading, Cpu, PROG_START};
use rchip8::keypad::HostKey;
use rchip8::opcode::{decode, fetch_opcode};
use rchip8::ram::Ram;
use rchip8::timer::{get_millis, remaining_delay};

/// A processor and memory with `program` loaded at the program start.
fn machine(program: &[u8]) -> (Cpu, Ram) {
    let mut ram = Ram::new();
    for (k, b) in program.iter().enumerate() {
        ram.write_byte(PROG_START + k as u16, *b);
    }
    (Cpu::new(), ram)
}

/// Runs `steps` instructions with the given random byte and delay reading.
fn run(cpu: &mut Cpu, ram: &mut Ram, steps: usize, random: u8, delay: u8) {
    for _ in 0..steps {
        assert!(cpu.can_execute(ram));
        cpu.execute_opcode_with(ram, random, delay);
    }
}

#[test]
fn decode_splits_the_fields() {
    let f = decode(0xD12A);
    assert_eq!(f.kind, 0xD);
    assert_eq!(f.nnn, 0x12A);
    assert_eq!(f.nn, 0x2A);
    assert_eq!(f.n, 0xA);
    assert_eq!(f.x, 0x1);
    assert_eq!(f.y, 0x2);
}

#[test]
fn fetch_is_big_endian() {
    let (_, ram) = machine(&[0xA2, 0xF0]);
    assert_eq!(fetch_opcode(&ram, PROG_START), 0xA2F0);
}

#[test]
fn millis_and_delay() {
    assert_eq!(get_millis(1, 500_000_000), 1500);
    assert_eq!(get_millis(0, 999_999), 0);
    assert_eq!(get_millis(2, 1_000_000), 2001);
    assert_eq!(remaining_delay(10, 0), 10);
    assert_eq!(remaining_delay(10, 15), 10);
    assert_eq!(remaining_delay(10, 32), 8);
    assert_eq!(remaining_delay(2, 1000), 0);
    assert_eq!(remaining_delay(3, 48), 0);
}

#[test]
fn new_cpu_starts_at_program_start() {
    let cpu = Cpu::new();
    assert_eq!(cpu.pc(), 0x200);
    assert_eq!(cpu.i_reg(), 0);
    assert!(cpu.stack().is_empty());
    for r in 0..16 {
        assert_eq!(cpu.v_reg(r), 0);
    }
    assert_eq!(cpu.delay_timer(), 0);
    assert_eq!(cpu.sound_timer(), 0);
}

#[test]
fn load_and_add_registers() {
    // V0 = 0x2A; V0 += 0xF0 (wraps); VE = 5
    let (mut cpu, mut ram) = machine(&[0x60, 0x2A, 0x70, 0xF0, 0x6E, 0x05]);
    run(&mut cpu, &mut ram, 1, 0, 0);
    assert_eq!(cpu.v_reg(0), 0x2A);
    assert_eq!(cpu.pc(), 0x202);
    assert_eq!(cpu.prev_pc(), 0x200);
    run(&mut cpu, &mut ram, 2, 0, 0);
    assert_eq!(cpu.v_reg(0), 0x1A);
    assert_eq!(cpu.v_reg(0xF), 0);
    assert_eq!(cpu.v_reg(0xE), 5);
    assert_eq!(cpu.pc(), 0x206);
}

#[test]
fn jump_and_set_i() {
    let (mut cpu, mut ram) = machine(&[0x13, 0x00]);
    ram.write_byte(0x300, 0xA1);
    ram.write_byte(0x301, 0x23);
    run(&mut cpu, &mut ram, 1, 0, 0);
    assert_eq!(cpu.pc(), 0x300);
    run(&mut cpu, &mut ram, 1, 0, 0);
    assert_eq!(cpu.i_reg(), 0x123);
    assert_eq!(cpu.pc(), 0x302);
}

#[test]
fn call_and_return() {
    let (mut cpu, mut ram) = machine(&[0x23, 0x00]);
    ram.write_byte(0x300, 0x00);
    ram.write_byte(0x301, 0xEE);
    run(&mut cpu, &mut ram, 1, 0, 0);
    assert_eq!(cpu.pc(), 0x300);
    assert_eq!(cpu.stack().as_slice(), &[0x202]);
    run(&mut cpu, &mut ram, 1, 0, 0);
    assert_eq!(cpu.pc(), 0x202);
    assert!(cpu.stack().is_empty());
}

#[test]
fn return_with_empty_stack_cannot_run() {
    let (cpu, ram) = machine(&[0x00, 0xEE]);
    assert!(!cpu.can_execute(&ram));
}

#[test]
fn unknown_instructions_cannot_run() {
    for program in [[0x00u8, 0x00], [0x80, 0x18], [0xE0, 0x00], [0xF0, 0x99]] {
        let (cpu, ram) = machine(&program);
        assert!(!cpu.can_execute(&ram));
    }
}

#[test]
fn skips() {
    // V1 = 7; 3107 skips; 4107 does not; 5120 compares V1 with V2 (0)
    let (mut cpu, mut ram) = machine(&[0x61, 0x07, 0x31, 0x07, 0x00, 0x00, 0x41, 0x07, 0x51, 0x20, 0x91, 0x20]);
    run(&mut cpu, &mut ram, 2, 0, 0);
    assert_eq!(cpu.pc(), 0x206);
    run(&mut cpu, &mut ram, 1, 0, 0);
    assert_eq!(cpu.pc(), 0x208);
    run(&mut cpu, &mut ram, 1, 0, 0);
    assert_eq!(cpu.pc(), 0x20A);
    run(&mut cpu, &mut ram, 1, 0, 0);
    assert_eq!(cpu.pc(), 0x20E);
}

#[test]
fn alu_logic_and_xor_skip() {
    // V0 = 0b1100, V1 = 0b1010; V2 = V0 | V1; V3 = V0 & V1 ; V0 ^= V1 (moves pc by 4)
    let (mut cpu, mut ram) = machine(&[
        0x60, 0x0C, 0x61, 0x0A, 0x82, 0x00, 0x82, 0x11, 0x83, 0x00, 0x83, 0x12, 0x80, 0x13,
    ]);
    run(&mut cpu, &mut ram, 6, 0, 0);
    assert_eq!(cpu.v_reg(2), 0x0E);
    assert_eq!(cpu.v_reg(3), 0x08);
    assert_eq!(cpu.pc(), 0x20C);
    run(&mut cpu, &mut ram, 1, 0, 0);
    assert_eq!(cpu.v_reg(0), 0x06);
    assert_eq!(cpu.pc(), 0x210);
}

#[test]
fn add_with_carry_sets_vf_only_on_carry() {
    let (mut cpu, mut ram) = machine(&[0x60, 0xC8, 0x61, 0x64, 0x80, 0x14, 0x62, 0x01, 0x80, 0x24]);
    run(&mut cpu, &mut ram, 3, 0, 0);
    assert_eq!(cpu.v_reg(0), 44);
    assert_eq!(cpu.v_reg(0xF), 1);
    run(&mut cpu, &mut ram, 2, 0, 0);
    assert_eq!(cpu.v_reg(0), 45);
    // no carry, and VF is left as it was
    assert_eq!(cpu.v_reg(0xF), 1);
}

#[test]
fn subtractions() {
    let (mut cpu, mut ram) = machine(&[0x60, 0x0A, 0x61, 0x03, 0x80, 0x15, 0x62, 0x0A, 0x81, 0x27]);
    run(&mut cpu, &mut ram, 3, 0, 0);
    assert_eq!(cpu.v_reg(0), 7);
    assert_eq!(cpu.v_reg(0xF), 1);
    run(&mut cpu, &mut ram, 2, 0, 0);
    assert_eq!(cpu.v_reg(1), 7);
    assert_eq!(cpu.v_reg(0xF), 1);
}

#[test]
fn equal_subtraction_clears_vf() {
    let (mut cpu, mut ram) = machine(&[0x60, 0x05, 0x61, 0x05, 0x80, 0x15]);
    run(&mut cpu, &mut ram, 3, 0, 0);
    assert_eq!(cpu.v_reg(0), 0);
    assert_eq!(cpu.v_reg(0xF), 0);
}

#[test]
fn subtraction_below_zero_cannot_run() {
    let (mut cpu, mut ram) = machine(&[0x60, 0x03, 0x61, 0x05, 0x80, 0x15, 0x81, 0x07]);
    run(&mut cpu, &mut ram, 2, 0, 0);
    assert!(!cpu.can_execute(&ram));
    let (mut cpu, mut ram) = machine(&[0x60, 0x05, 0x61, 0x03, 0x80, 0x17]);
    run(&mut cpu, &mut ram, 2, 0, 0);
    assert!(!cpu.can_execute(&ram));
}

#[test]
fn shifts() {
    let (mut cpu, mut ram) = machine(&[0x60, 0x81, 0x80, 0x06, 0x61, 0x81, 0x81, 0x0E]);
    run(&mut cpu, &mut ram, 2, 0, 0);
    assert_eq!(cpu.v_reg(0), 0x40);
    assert_eq!(cpu.v_reg(0xF), 1);
    run(&mut cpu, &mut ram, 2, 0, 0);
    assert_eq!(cpu.v_reg(1), 0x02);
    assert_eq!(cpu.v_reg(0xF), 1);
}

#[test]
fn shift_right_takes_vy() {
    // V0 = 0xF0, V1 = 0x05; 8016: V0 = V1 >> 1, VF = low bit of V1
    let (mut cpu, mut ram) = machine(&[0x60, 0xF0, 0x61, 0x05, 0x80, 0x16]);
    run(&mut cpu, &mut ram, 3, 0, 0);
    assert_eq!(cpu.v_reg(0), 0x02);
    assert_eq!(cpu.v_reg(1), 0x05);
    assert_eq!(cpu.v_reg(0xF), 1);
    assert_eq!(cpu.pc(), 0x206);
}

#[test]
fn shift_into_vf_itself() {
    // VF = 0x02, V1 = 0x07; 8F16: VF = low bit of V1 first, then VF = V1 >> 1
    let (mut cpu, mut ram) = machine(&[0x6F, 0x02, 0x61, 0x07, 0x8F, 0x16]);
    run(&mut cpu, &mut ram, 3, 0, 0);
    assert_eq!(cpu.v_reg(0xF), 0x03);
}

#[test]
fn jump_with_offset_does_nothing() {
    let (mut cpu, mut ram) = machine(&[0xB3, 0x00]);
    run(&mut cpu, &mut ram, 1, 0, 0);
    assert_eq!(cpu.pc(), 0x200);
    assert_eq!(cpu.prev_pc(), 0x200);
}

#[test]
fn random_is_masked() {
    let (mut cpu, mut ram) = machine(&[0xC4, 0x0F]);
    run(&mut cpu, &mut ram, 1, 0xAB, 0);
    assert_eq!(cpu.v_reg(4), 0x0B);
    assert_eq!(cpu.pc(), 0x202);
}

#[test]
fn draw_sets_collision_flag() {
    // I = 0 (glyph 0); draw at (V0, V1) twice
    let (mut cpu, mut ram) = machine(&[0xA0, 0x00, 0xD0, 0x15, 0xD0, 0x15]);
    run(&mut cpu, &mut ram, 2, 0, 0);
    assert_eq!(cpu.v_reg(0xF), 0);
    assert_eq!(cpu.display().pixel(0, 0), 1);
    assert_eq!(cpu.display().pixel(1, 1), 0);
    run(&mut cpu, &mut ram, 1, 0, 0);
    assert_eq!(cpu.v_reg(0xF), 1);
    assert_eq!(cpu.display().pixel(0, 0), 0);
}

#[test]
fn clear_screen() {
    let (mut cpu, mut ram) = machine(&[0xA0, 0x00, 0xD0, 0x15, 0x00, 0xE0]);
    run(&mut cpu, &mut ram, 2, 0, 0);
    assert!(cpu.draw_screen().is_some());
    run(&mut cpu, &mut ram, 1, 0, 0);
    assert_eq!(cpu.display().pixel(0, 0), 0);
    assert!(cpu.display().draw_flag());
    assert_eq!(cpu.pc(), 0x206);
}

#[test]
fn key_skips() {
    let (mut cpu, mut ram) = machine(&[0x60, 0x05, 0xE0, 0x9E, 0xE0, 0xA1, 0x00, 0x00, 0xE0, 0x9E]);
    run(&mut cpu, &mut ram, 2, 0, 0);
    // key 5 is up: EX9E does not skip
    assert_eq!(cpu.pc(), 0x204);
    // EXA1 skips
    run(&mut cpu, &mut ram, 1, 0, 0);
    assert_eq!(cpu.pc(), 0x208);
    cpu.press(HostKey::W, true);
    run(&mut cpu, &mut ram, 1, 0, 0);
    assert_eq!(cpu.pc(), 0x20C);
}

#[test]
fn key_number_above_f_cannot_run() {
    let (mut cpu, mut ram) = machine(&[0x60, 0x10, 0xE0, 0x9E]);
    run(&mut cpu, &mut ram, 1, 0, 0);
    assert!(!cpu.can_execute(&ram));
}

#[test]
fn timers() {
    let (mut cpu, mut ram) = machine(&[0x63, 0x0A, 0xF3, 0x15, 0xF3, 0x18, 0xF4, 0x07]);
    run(&mut cpu, &mut ram, 3, 0, 0);
    assert_eq!(cpu.delay_timer(), 10);
    assert_eq!(cpu.sound_timer(), 10);
    assert!(cpu.get_delay() <= 10);
    run(&mut cpu, &mut ram, 1, 0, 7);
    assert_eq!(cpu.v_reg(4), 7);
    cpu.tick();
    assert_eq!(cpu.delay_timer(), 9);
}

#[test]
fn tick_stops_at_zero() {
    let mut cpu = Cpu::new();
    cpu.tick();
    assert_eq!(cpu.delay_timer(), 0);
    cpu.set_delay(2);
    cpu.tick();
    cpu.tick();
    cpu.tick();
    assert_eq!(cpu.delay_timer(), 0);
}

#[test]
fn set_delay_then_get_delay() {
    let mut cpu = Cpu::new();
    cpu.set_delay(200);
    let d = cpu.get_delay();
    assert!(d <= 200 && d >= 190);
}

#[test]
fn wait_for_key_stays_on_the_instruction() {
    let (mut cpu, mut ram) = machine(&[0xF2, 0x0A]);
    run(&mut cpu, &mut ram, 1, 0, 0);
    assert_eq!(cpu.pc(), 0x200);
    assert_eq!(cpu.v_reg(2), 0);
    cpu.press(HostKey::F, true);
    cpu.press(HostKey::Num4, true);
    run(&mut cpu, &mut ram, 1, 0, 0);
    assert_eq!(cpu.v_reg(2), 0xc);
    assert_eq!(cpu.pc(), 0x200);
}

#[test]
fn add_to_i_and_font_address() {
    let (mut cpu, mut ram) = machine(&[0xA1, 0x00, 0x60, 0x22, 0xF0, 0x1E, 0x61, 0x0B, 0xF1, 0x29]);
    run(&mut cpu, &mut ram, 3, 0, 0);
    assert_eq!(cpu.i_reg(), 0x122);
    run(&mut cpu, &mut ram, 2, 0, 0);
    assert_eq!(cpu.i_reg(), 55);
    assert_eq!(ram.read_byte(55), 0xE0);
}

#[test]
fn bcd() {
    let (mut cpu, mut ram) = machine(&[0xA3, 0x00, 0x65, 0xFE, 0xF5, 0x33]);
    run(&mut cpu, &mut ram, 3, 0, 0);
    assert_eq!(ram.read_byte(0x300), 2);
    assert_eq!(ram.read_byte(0x301), 5);
    assert_eq!(ram.read_byte(0x302), 4);
    assert_eq!(cpu.pc(), 0x206);
}

#[test]
fn store_writes_vx_everywhere_and_skips() {
    let (mut cpu, mut ram) = machine(&[0xA3, 0x00, 0x60, 0x01, 0x61, 0x02, 0x62, 0x03, 0xF2, 0x55]);
    run(&mut cpu, &mut ram, 5, 0, 0);
    assert_eq!(ram.read_byte(0x300), 3);
    assert_eq!(ram.read_byte(0x301), 3);
    assert_eq!(ram.read_byte(0x302), 3);
    assert_eq!(ram.read_byte(0x303), 0);
    assert_eq!(cpu.i_reg(), 0x303);
    assert_eq!(cpu.pc(), 0x20C);
}

#[test]
fn load_registers_from_memory() {
    let (mut cpu, mut ram) = machine(&[0xA3, 0x00, 0x6A, 0x09, 0xF2, 0x65]);
    ram.write_byte(0x300, 11);
    ram.write_byte(0x301, 22);
    ram.write_byte(0x302, 33);
    ram.write_byte(0x303, 44);
    run(&mut cpu, &mut ram, 3, 0, 0);
    assert_eq!(cpu.v_reg(0), 11);
    assert_eq!(cpu.v_reg(1), 22);
    assert_eq!(cpu.v_reg(2), 33);
    assert_eq!(cpu.v_reg(3), 0);
    assert_eq!(cpu.v_reg(0xA), 9);
    assert_eq!(cpu.i_reg(), 3);
    assert_eq!(cpu.pc(), 0x206);
}

#[test]
fn chip8_runs_a_loaded_program() {
    let mut c = Chip8::new();
    c.load_rom(&vec![0x60, 0x05, 0xF0, 0x29, 0xD1, 0x15, 0x12, 0x06]);
    assert_eq!(c.ram().read_byte(0x200), 0x60);
    assert_eq!(c.ram().read_byte(0x207), 0x06);
    assert_eq!(c.ram().read_byte(0x208), 0);
    for _ in 0..3 {
        assert!(c.can_execute());
        c.execute_opcode();
    }
    assert_eq!(c.cpu().i_reg(), 25);
    let frame = c.draw_screen().unwrap();
    // glyph 5 first row 0xF0 at (0, 0)
    assert!(frame[0] && frame[3] && !frame[4]);
    assert!(c.draw_screen().is_none());
    c.execute_opcode();
    assert_eq!(c.cpu().pc(), 0x206);
    c.press(HostKey::X, true);
}

#[test]
fn chip8_random_stays_below_255() {
    let mut c = Chip8::new();
    c.load_rom(&vec![0xC0, 0xFF, 0x12, 0x00]);
    for _ in 0..200 {
        c.execute_opcode();
        assert!(c.cpu().v_reg(0) < 255);
    }
}

#[test]
fn largest_rom_fits() {
    let mut c = Chip8::new();
    let data = vec![0xAAu8; MAX_ROM_SIZE];
    c.load_rom(&data);
    assert_eq!(c.ram().read_byte(4095), 0xAA);
    assert_eq!(c.ram().read_byte(0x1FF), 0);
    assert_eq!(c.ram().read_byte(0), 0xF0);
    assert_eq!(c.ram().read_byte(79), 0x80);
}

#[test]
fn delay_reading_counts_ticks() {
    assert_eq!(delay_reading(10, 0, 0), 10);
    assert_eq!(delay_reading(10, 0, 32_000_000), 8);
    assert_eq!(delay_reading(10, 0, 999_999_999), 0);
    assert_eq!(delay_reading(255, 4, 80_000_000), 0);
    assert_eq!(delay_reading(255, 1, 0), 193);
    assert_eq!(delay_reading(7, u64::MAX, 999_999_999), 0);
    assert_eq!(delay_reading(7, 18_446_744_072, 999_999_999), 0);
}

#[test]
fn set_delay_at_counts_from_the_given_instant() {
    let mut cpu = Cpu::new();
    let start = std::time::Instant::now() - std::time::Duration::from_millis(160);
    cpu.set_delay_at(100, start);
    assert_eq!(cpu.delay_timer(), 100);
    let d = cpu.get_delay();
    assert!(d <= 90 && d >= 80);
}

#[test]
fn state_text_shows_registers() {
    let (mut cpu, mut ram) = machine(&[0x60, 0x1F, 0x6F, 0x0A, 0xA1, 0x23, 0x63, 0x07, 0xF3, 0x15]);
    run(&mut cpu, &mut ram, 5, 0, 0);
    let text = String::from_utf8(cpu.state_text()).unwrap();
    assert_eq!(
        text,
        "\npc: 0x20A\nvx: 0x1F 0x0 0x0 0x7 0x0 0x0 0x0 0x0 0x0 0x0 0x0 0x0 0x0 0x0 0x0 0xA \ni: 0x123\n\ndelay_timer: 7\n"
    );
}
