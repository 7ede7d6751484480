use rchip8::display::{Display, HEIGHT, PIXELS, WIDTH};
use rchip8::ram::Ram;

const FONT_ZERO: [u8; 5] = [0xF0, 0x90, 0x90, 0x90, 0xF0];

fn pixel(d: &Display, x: usize, y: usize) -> u8 {
    d.pixel(x, y)
}

#[test]
fn new_ram_holds_the_font() {
    let r = Ram::new();
    for k in 0..5 {
        assert_eq!(r.read_byte(k as u16), FONT_ZERO[k]);
    }
    // glyph F
    assert_eq!(r.read_byte(75), 0xF0);
    assert_eq!(r.read_byte(79), 0x80);
    assert_eq!(r.read_byte(80), 0);
    assert_eq!(r.read_byte(0x200), 0);
    assert_eq!(r.read_byte(4095), 0);
}

#[test]
fn write_then_read() {
    let mut r = Ram::new();
    r.write_byte(0x300, 0xAB);
    assert_eq!(r.read_byte(0x300), 0xAB);
    assert_eq!(r.read_byte(0x301), 0);
    r.write_byte(0x300, 0x12);
    assert_eq!(r.read_byte(0x300), 0x12);
}

#[test]
fn new_display_is_dark_and_dirty() {
    let mut d = Display::new();
    assert!(d.draw_flag());
    for y in 0..HEIGHT {
        for x in 0..WIDTH {
            assert_eq!(pixel(&d, x, y), 0);
        }
    }
    let frame = d.draw_screen().expect("a fresh screen is shown once");
    assert_eq!(frame.len(), PIXELS);
    assert!(frame.iter().all(|p| !*p));
    assert!(d.draw_screen().is_none());
}

#[test]
fn draw_font_zero_then_erase_it() {
    let r = Ram::new();
    let mut d = Display::new();
    let hit = d.test_draw(0, &r, 3, 4, 5);
    assert!(!hit);
    for row in 0..5 {
        for col in 0..8 {
            let expected = (FONT_ZERO[row] >> (7 - col)) & 1;
            assert_eq!(pixel(&d, 3 + col, 4 + row), expected);
        }
    }
    // pixels outside the sprite stay dark
    assert_eq!(pixel(&d, 2, 4), 0);
    assert_eq!(pixel(&d, 3, 9), 0);
    let frame = d.draw_screen().unwrap();
    assert!(frame[4 * WIDTH + 3]);
    assert!(!frame[5 * WIDTH + 4]);
    // drawing again erases it and reports a collision
    let hit = d.test_draw(0, &r, 3, 4, 5);
    assert!(hit);
    for y in 0..HEIGHT {
        for x in 0..WIDTH {
            assert_eq!(pixel(&d, x, y), 0);
        }
    }
    assert!(d.draw_flag());
}

#[test]
fn sprites_wrap_around_the_edges() {
    let mut r = Ram::new();
    r.write_byte(0x300, 0xFF);
    r.write_byte(0x301, 0x81);
    let mut d = Display::new();
    let hit = d.test_draw(0x300, &r, 60, 31, 2);
    assert!(!hit);
    // first row at y = 31, columns 60..63 and 0..3
    for x in [60, 61, 62, 63, 0, 1, 2, 3] {
        assert_eq!(pixel(&d, x, 31), 1);
    }
    assert_eq!(pixel(&d, 4, 31), 0);
    // second row wraps to y = 0: bits at columns 60 and 3
    assert_eq!(pixel(&d, 60, 0), 1);
    assert_eq!(pixel(&d, 3, 0), 1);
    assert_eq!(pixel(&d, 61, 0), 0);
    // coordinates beyond the screen wrap too
    let mut d2 = Display::new();
    d2.test_draw(0x300, &r, 60 + 64, 31 + 32, 2);
    for y in 0..HEIGHT {
        for x in 0..WIDTH {
            assert_eq!(pixel(&d, x, y), pixel(&d2, x, y));
        }
    }
}

#[test]
fn overlapping_sprite_collides_only_when_it_turns_a_pixel_off() {
    let mut r = Ram::new();
    r.write_byte(0x300, 0x80);
    r.write_byte(0x301, 0x40);
    let mut d = Display::new();
    assert!(!d.test_draw(0x300, &r, 0, 0, 1));
    // a different pixel: no collision
    assert!(!d.test_draw(0x301, &r, 0, 0, 1));
    assert_eq!(pixel(&d, 0, 0), 1);
    assert_eq!(pixel(&d, 1, 0), 1);
    // the same pixel again: collision
    assert!(d.test_draw(0x301, &r, 0, 0, 1));
    assert_eq!(pixel(&d, 1, 0), 0);
}

#[test]
fn tall_sprite_rows_beyond_the_screen_height_flip_again() {
    let mut r = Ram::new();
    for k in 0..33u16 {
        r.write_byte(0x400 + k, 0x80);
    }
    let mut d = Display::new();
    // row 0 and row 32 land on the same screen row: the second one turns
    // the pixel off again
    let hit = d.test_draw(0x400, &r, 0, 0, 33);
    assert!(hit);
    assert_eq!(pixel(&d, 0, 0), 0);
    assert_eq!(pixel(&d, 0, 1), 1);
}

#[test]
fn clear_turns_everything_off() {
    let r = Ram::new();
    let mut d = Display::new();
    d.test_draw(0, &r, 0, 0, 5);
    d.draw_screen();
    assert!(!d.draw_flag());
    d.clear();
    assert!(d.draw_flag());
    for y in 0..HEIGHT {
        for x in 0..WIDTH {
            assert_eq!(pixel(&d, x, y), 0);
        }
    }
}

#[test]
fn gfx_text_marks_lit_pixels() {
    let r = Ram::new();
    let mut d = Display::new();
    d.test_draw(5, &r, 0, 0, 1); // glyph 1, first row 0x20
    let text = String::from_utf8(d.gfx_text()).unwrap();
    let lines: Vec<&str> = text.lines().collect();
    assert_eq!(lines.len(), HEIGHT);
    assert_eq!(text.len(), HEIGHT * (WIDTH + 1));
    assert!(text.ends_with('\n'));
    assert_eq!(&lines[0][0..8], "__#_____");
    assert_eq!(lines[1], "_".repeat(WIDTH));
}
