use vstd::prelude::*;
use crate::ram::{Ram, MEMORY_SIZE, lemma_ram_len};

verus! {

broadcast use lemma_ram_len;

/// Width of the screen in pixels.
pub const WIDTH: usize = 64;

/// Height of the screen in pixels.
pub const HEIGHT: usize = 32;

/// Number of pixels on the screen; pixel `(x, y)` is at index `y * WIDTH + x`.
pub const PIXELS: usize = 2048;

/// What the screen shows: one byte per pixel (0 dark, 1 lit), row after row,
/// and whether it changed since it was last shown.
#[verifier::ext_equal]
pub struct Screen {
    pub pixels: Seq<u8>,
    pub draw_flag: bool,
}

/// The row of flat pixel index `p`.
pub open spec fn pixel_row(p: int) -> int {
    p / WIDTH as int
}

/// The column of flat pixel index `p`.
pub open spec fn pixel_col(p: int) -> int {
    p % WIDTH as int
}

/// How many columns to the right of column `x` (wrapping around the screen)
/// the column of pixel `p` lies.
pub open spec fn col_offset(x: u8, p: int) -> int {
    (pixel_col(p) + WIDTH - (x as int) % (WIDTH as int)) % (WIDTH as int)
}

/// Bit `k` of a sprite row, counted from the most significant (leftmost) bit.
pub open spec fn row_bit(row: u8, k: int) -> u8 {
    (row >> ((7 - k) as u8)) & 1u8
}

/// The bit that sprite row `j` (of a sprite drawn at `(x, y)`) flips at
/// pixel `p`: row `j` lands on screen row `(y + j) mod HEIGHT`, its eight bits
/// on the eight columns from `x` rightwards, wrapping at the edges.
pub open spec fn touch(rows: Seq<u8>, x: u8, y: u8, j: int, p: int) -> u8 {
    if (y as int + j) % (HEIGHT as int) == pixel_row(p) && col_offset(x, p) < 8 {
        row_bit(rows[j], col_offset(x, p))
    } else {
        0u8
    }
}

/// The combined flip at pixel `p` of the first `j` rows of a sprite.
pub open spec fn flips(rows: Seq<u8>, x: u8, y: u8, j: int, p: int) -> u8
    decreases j,
{
    if j <= 0 {
        0u8
    } else {
        flips(rows, x, y, j - 1, p) ^ touch(rows, x, y, j - 1, p)
    }
}

/// The pixels after drawing the sprite `rows` at `(x, y)`: every lit sprite
/// bit flips the pixel under it.
pub open spec fn drawn(pixels: Seq<u8>, rows: Seq<u8>, x: u8, y: u8) -> Seq<u8> {
    Seq::new(PIXELS as nat, |p: int| pixels[p] ^ flips(rows, x, y, rows.len() as int, p))
}

/// Whether sprite row `j` turns off a lit pixel `p` when the rows before it
/// have been drawn.
pub open spec fn erases(pixels: Seq<u8>, rows: Seq<u8>, x: u8, y: u8, j: int, p: int) -> bool {
    &&& touch(rows, x, y, j, p) == 1
    &&& pixels[p] ^ flips(rows, x, y, j, p) == 1
}

/// Whether drawing the sprite `rows` at `(x, y)` turns off some lit pixel.
pub open spec fn collides(pixels: Seq<u8>, rows: Seq<u8>, x: u8, y: u8) -> bool {
    exists|j: int, p: int|
        0 <= j < rows.len() && 0 <= p < PIXELS && #[trigger] erases(pixels, rows, x, y, j, p)
}

/// The `height` sprite rows stored in memory from address `i` on.
pub open spec fn sprite_rows(mem: Seq<u8>, i: int, height: int) -> Seq<u8> {
    Seq::new(height as nat, |k: int| mem[i + k])
}

/// Whether every pixel is dark or lit.
pub open spec fn pixels_wf(pixels: Seq<u8>) -> bool {
    &&& pixels.len() == PIXELS
    &&& forall|p: int| 0 <= p < PIXELS ==> #[trigger] pixels[p] <= 1
}

/// The screen image as lit or dark booleans.
pub open spec fn frame_of(pixels: Seq<u8>) -> Seq<bool> {
    Seq::new(PIXELS as nat, |p: int| pixels[p] != 0)
}

proof fn lemma_bit_facts(a: u8, b: u8, s: u8)
    ensures
        (a >> s) & 1u8 <= 1,
        a ^ 0u8 == a,
        0u8 ^ a == a,
        (a ^ b) ^ b == a,
        b <= 1 ==> ((1u8 ^ b) == 0 <==> b == 1),
        a <= 1 && b <= 1 ==> a ^ b <= 1,
{
    assert((a >> s) & 1u8 <= 1) by (bit_vector);
    assert(a ^ 0u8 == a) by (bit_vector);
    assert(0u8 ^ a == a) by (bit_vector);
    assert((a ^ b) ^ b == a) by (bit_vector);
    assert(b <= 1 ==> ((1u8 ^ b) == 0 <==> b == 1)) by (bit_vector);
    assert(a <= 1 && b <= 1 ==> a ^ b <= 1) by (bit_vector);
}

proof fn lemma_flat_index(row: int, col: int)
    requires
        0 <= row < HEIGHT,
        0 <= col < WIDTH,
    ensures
        0 <= row * 64 + col < PIXELS,
        pixel_row(row * 64 + col) == row,
        pixel_col(row * 64 + col) == col,
{
    vstd::arithmetic::div_mod::lemma_fundamental_div_mod_converse(row * 64 + col, 64, row, col);
}

/// Column `c` lies `k` columns right of `x` exactly when it is `(x + k) mod WIDTH`.
proof fn lemma_col_offset(x: u8, c: int, k: int)
    requires
        0 <= c < WIDTH,
        0 <= k < WIDTH,
    ensures
        (c + WIDTH - (x as int) % 64) % 64 == k <==> c == (x as int + k) % 64,
{
    let a = (x as int) % 64;
    assert((x as int + k) % 64 == (a + k) % 64) by {
        vstd::arithmetic::div_mod::lemma_add_mod_noop(x as int, k, 64);
        vstd::arithmetic::div_mod::lemma_small_mod(k as nat, 64);
    }
    if a + k < 64 {
        vstd::arithmetic::div_mod::lemma_small_mod((a + k) as nat, 64);
    } else {
        vstd::arithmetic::div_mod::lemma_fundamental_div_mod_converse(a + k, 64, 1, a + k - 64);
    }
    if c + 64 - a < 64 {
        vstd::arithmetic::div_mod::lemma_small_mod((c + 64 - a) as nat, 64);
    } else {
        vstd::arithmetic::div_mod::lemma_fundamental_div_mod_converse(c + 64 - a, 64, 1, c - a);
    }
}

/// Drawing the same sprite at the same place twice leaves the screen as it was.
pub proof fn lemma_redraw_restores(pixels: Seq<u8>, rows: Seq<u8>, x: u8, y: u8)
    requires
        pixels.len() == PIXELS,
    ensures
        drawn(drawn(pixels, rows, x, y), rows, x, y) == pixels,
{
    let once = drawn(pixels, rows, x, y);
    let twice = drawn(once, rows, x, y);
    assert forall|p: int| 0 <= p < PIXELS implies #[trigger] twice[p] == pixels[p] by {
        lemma_bit_facts(pixels[p], flips(rows, x, y, rows.len() as int, p), 0);
    }
    assert(twice =~= pixels);
}

proof fn lemma_rows_distinct(y: int, j1: int, j2: int)
    requires
        0 <= y,
        0 <= j1 < j2 < j1 + 32,
    ensures
        (y + j1) % 32 != (y + j2) % 32,
{
    let a = y + j1;
    let b = y + j2;
    vstd::arithmetic::div_mod::lemma_fundamental_div_mod(a, 32);
    vstd::arithmetic::div_mod::lemma_fundamental_div_mod(b, 32);
    let qa = a / 32;
    let qb = b / 32;
    if a % 32 == b % 32 {
        assert(b - a == 32 * (qb - qa)) by (nonlinear_arith)
            requires
                a == 32 * qa + a % 32,
                b == 32 * qb + b % 32,
                a % 32 == b % 32,
        ;
        assert(false) by (nonlinear_arith)
            requires
                b - a == 32 * (qb - qa),
                0 < b - a < 32,
        ;
    }
}

proof fn lemma_flips_untouched(rows: Seq<u8>, x: u8, y: u8, j: int, p: int)
    requires
        forall|k: int| 0 <= k < j ==> touch(rows, x, y, k, p) == 0,
    ensures
        flips(rows, x, y, j, p) == 0,
    decreases j,
{
    if j > 0 {
        lemma_flips_untouched(rows, x, y, j - 1, p);
        lemma_bit_facts(0, 0, 0);
    }
}

/// On a dark screen a sprite no taller than the screen never reports a
/// collision: each of its rows lands on a different screen row.
pub proof fn lemma_blank_no_collision(rows: Seq<u8>, x: u8, y: u8)
    requires
        rows.len() <= HEIGHT,
    ensures
        !collides(Seq::new(PIXELS as nat, |_p: int| 0u8), rows, x, y),
{
    let blank = Seq::new(PIXELS as nat, |_p: int| 0u8);
    if collides(blank, rows, x, y) {
        let (j, p) = choose|j: int, p: int|
            0 <= j < rows.len() && 0 <= p < PIXELS && #[trigger] erases(blank, rows, x, y, j, p);
        assert forall|k: int| 0 <= k < j implies touch(rows, x, y, k, p) == 0 by {
            lemma_rows_distinct(y as int, k, j);
        }
        lemma_flips_untouched(rows, x, y, j, p);
        lemma_bit_facts(0, 0, 0);
    }
}

proof fn lemma_single_toucher(rows: Seq<u8>, x: u8, y: u8, j: int, k: int, p: int)
    requires
        rows.len() <= HEIGHT,
        0 <= j < rows.len(),
        0 <= k < rows.len(),
        touch(rows, x, y, j, p) != 0,
        touch(rows, x, y, k, p) != 0,
    ensures
        j == k,
{
    if j < k {
        lemma_rows_distinct(y as int, j, k);
    } else if k < j {
        lemma_rows_distinct(y as int, k, j);
    }
}

proof fn lemma_flips_one_row(rows: Seq<u8>, x: u8, y: u8, j: int, m: int, p: int)
    requires
        0 <= j,
        0 <= m,
        forall|k: int| 0 <= k < m && k != j ==> touch(rows, x, y, k, p) == 0,
    ensures
        flips(rows, x, y, m, p) == if j < m { touch(rows, x, y, j, p) } else { 0u8 },
    decreases m,
{
    if m > 0 {
        lemma_flips_one_row(rows, x, y, j, m - 1, p);
        lemma_bit_facts(0, touch(rows, x, y, j, p), 0);
        lemma_bit_facts(touch(rows, x, y, j, p), 0, 0);
    }
}

proof fn lemma_touch_bit(rows: Seq<u8>, x: u8, y: u8, j: int, p: int)
    ensures
        touch(rows, x, y, j, p) <= 1,
{
    if (y as int + j) % (HEIGHT as int) == pixel_row(p) && col_offset(x, p) < 8 {
        lemma_bit_facts(rows[j], 0, (7 - col_offset(x, p)) as u8);
    }
}

/// For a sprite no taller than the screen, drawing collides exactly when it
/// turns some lit pixel dark.
pub proof fn lemma_collides_turns_off(pixels: Seq<u8>, rows: Seq<u8>, x: u8, y: u8)
    requires
        pixels_wf(pixels),
        rows.len() <= HEIGHT,
    ensures
        collides(pixels, rows, x, y) <==> exists|p: int|
            0 <= p < PIXELS && #[trigger] pixels[p] == 1 && drawn(pixels, rows, x, y)[p] == 0,
{
    let len = rows.len() as int;
    if collides(pixels, rows, x, y) {
        let (j, p) = choose|j: int, p: int|
            0 <= j < rows.len() && 0 <= p < PIXELS && #[trigger] erases(pixels, rows, x, y, j, p);
        assert forall|k: int| 0 <= k < len && k != j implies touch(rows, x, y, k, p) == 0 by {
            if touch(rows, x, y, k, p) != 0 {
                lemma_single_toucher(rows, x, y, j, k, p);
            }
        }
        lemma_flips_one_row(rows, x, y, j, j, p);
        lemma_flips_one_row(rows, x, y, j, len, p);
        lemma_bit_facts(pixels[p], 0, 0);
        assert(1u8 ^ 1u8 == 0u8) by (bit_vector);
        assert(pixels[p] == 1 && drawn(pixels, rows, x, y)[p] == 0);
    }
    if exists|p: int| 0 <= p < PIXELS && #[trigger] pixels[p] == 1 && drawn(pixels, rows, x, y)[p] == 0 {
        let p = choose|p: int| 0 <= p < PIXELS && #[trigger] pixels[p] == 1 && drawn(pixels, rows, x, y)[p] == 0;
        let f = flips(rows, x, y, len, p);
        lemma_flips_bit(rows, x, y, len, p);
        assert(1u8 ^ 0u8 == 1u8) by (bit_vector);
        if forall|k: int| 0 <= k < len ==> touch(rows, x, y, k, p) == 0 {
            lemma_flips_untouched(rows, x, y, len, p);
            assert(false);
        }
        let j = choose|j: int| 0 <= j < len && touch(rows, x, y, j, p) != 0;
        assert forall|k: int| 0 <= k < len && k != j implies touch(rows, x, y, k, p) == 0 by {
            if touch(rows, x, y, k, p) != 0 {
                lemma_single_toucher(rows, x, y, j, k, p);
            }
        }
        lemma_flips_one_row(rows, x, y, j, j, p);
        lemma_flips_one_row(rows, x, y, j, len, p);
        lemma_touch_bit(rows, x, y, j, p);
        assert(touch(rows, x, y, j, p) == 1);
        assert(erases(pixels, rows, x, y, j, p));
    }
}

/// Drawing keeps every pixel dark or lit.
pub proof fn lemma_drawn_wf(pixels: Seq<u8>, rows: Seq<u8>, x: u8, y: u8)
    requires
        pixels_wf(pixels),
    ensures
        pixels_wf(drawn(pixels, rows, x, y)),
{
    assert forall|p: int| 0 <= p < PIXELS implies #[trigger] drawn(pixels, rows, x, y)[p] <= 1 by {
        lemma_flips_bit(rows, x, y, rows.len() as int, p);
        lemma_bit_facts(pixels[p], flips(rows, x, y, rows.len() as int, p), 0);
    }
}

proof fn lemma_flips_bit(rows: Seq<u8>, x: u8, y: u8, j: int, p: int)
    ensures
        flips(rows, x, y, j, p) <= 1,
    decreases j,
{
    if j > 0 {
        lemma_flips_bit(rows, x, y, j - 1, p);
        let t = touch(rows, x, y, j - 1, p);
        if (y as int + j - 1) % (HEIGHT as int) == pixel_row(p) && col_offset(x, p) < 8 {
            lemma_bit_facts(rows[j - 1], 0, (7 - col_offset(x, p)) as u8);
        }
        lemma_bit_facts(flips(rows, x, y, j - 1, p), t, 0);
    }
}

/// The display: a 64x32 monochrome pixel grid.
pub struct Display {
    gfx: [bool; 2048],
    draw_flag: bool,
}

impl View for Display {
    type V = Screen;

    closed spec fn view(&self) -> Screen {
        Screen {
            pixels: Seq::new(PIXELS as nat, |p: int| if self.gfx@[p] { 1u8 } else { 0u8 }),
            draw_flag: self.draw_flag,
        }
    }
}

/// The screen always has `PIXELS` pixels, each dark or lit.
pub broadcast proof fn lemma_display_len(d: &Display)
    ensures
        #[trigger] d@.pixels.len() == PIXELS,
        pixels_wf(d@.pixels),
{
}

impl Display {
    /// A dark screen that still has to be shown.
    pub fn new() -> (d: Display)
        ensures
            d@.pixels == Seq::new(PIXELS as nat, |_p: int| 0u8),
            d@.draw_flag,
    {
        let d = Display { gfx: [false; 2048], draw_flag: true };
        assert(d@.pixels =~= Seq::new(PIXELS as nat, |_p: int| 0u8));
        d
    }

    /// Draws the sprite of `height` rows stored in memory from address
    /// `i_reg` at `(x, y)`, flipping the pixel under every lit sprite bit and
    /// wrapping at the screen edges. Returns whether a lit pixel was turned
    /// off.
    pub fn test_draw(&mut self, i_reg: u16, ram: &Ram, x: u8, y: u8, height: u8) -> (collision: bool)
        requires
            height == 0 || i_reg as int + height as int <= MEMORY_SIZE,
        ensures
            final(self)@.pixels == drawn(
                old(self)@.pixels,
                sprite_rows(ram@, i_reg as int, height as int),
                x,
                y,
            ),
            collision == collides(
                old(self)@.pixels,
                sprite_rows(ram@, i_reg as int, height as int),
                x,
                y,
            ),
            final(self)@.draw_flag,
    {
        let ghost rows = sprite_rows(ram@, i_reg as int, height as int);
        let ghost old_pixels = self@.pixels;
        let mut collision = false;
        let mut drawn_y: u8 = 0;
        assert forall|p: int| 0 <= p < PIXELS implies #[trigger] self@.pixels[p] == old_pixels[p] ^ flips(rows, x, y, 0, p) by {
            lemma_bit_facts(old_pixels[p], 0, 0);
        }
        while drawn_y < height
            invariant
                drawn_y <= height,
                height == 0 || i_reg as int + height as int <= MEMORY_SIZE,
                rows == sprite_rows(ram@, i_reg as int, height as int),
                old_pixels.len() == PIXELS,
                forall|p: int|
                    0 <= p < PIXELS ==> #[trigger] self@.pixels[p] == old_pixels[p] ^ flips(
                        rows,
                        x,
                        y,
                        drawn_y as int,
                        p,
                    ),
                collision <==> exists|j: int, p: int|
                    0 <= j < drawn_y && 0 <= p < PIXELS && #[trigger] erases(
                        old_pixels,
                        rows,
                        x,
                        y,
                        j,
                        p,
                    ),
            decreases height - drawn_y,
        {
            let byte = ram.read_byte(i_reg + drawn_y as u16);
            assert(byte == rows[drawn_y as int]);
            let row = (y as usize + drawn_y as usize) % HEIGHT;
            let ghost j = drawn_y as int;
            let ghost before = self@.pixels;
            let ghost found_before = collision;
            let mut k: u8 = 0;
            while k < 8
                invariant
                    k <= 8,
                    0 <= j < height,
                    rows.len() == height,
                    byte == rows[j],
                    row == (y as int + j) % (HEIGHT as int),
                    old_pixels.len() == PIXELS,
                    before.len() == PIXELS,
                    forall|p: int|
                        0 <= p < PIXELS ==> #[trigger] before[p] == old_pixels[p] ^ flips(
                            rows,
                            x,
                            y,
                            j,
                            p,
                        ),
                    forall|p: int|
                        0 <= p < PIXELS ==> #[trigger] self@.pixels[p] == if col_offset(x, p) < k {
                            before[p] ^ touch(rows, x, y, j, p)
                        } else {
                            before[p]
                        },
                    collision <==> found_before || exists|p: int|
                        0 <= p < PIXELS && col_offset(x, p) < k && #[trigger] erases(
                            old_pixels,
                            rows,
                            x,
                            y,
                            j,
                            p,
                        ),
                decreases 8 - k,
            {
                let col = (x as usize + k as usize) % WIDTH;
                let p = row * WIDTH + col;
                proof {
                    lemma_flat_index(row as int, col as int);
                    lemma_col_offset(x, col as int, k as int);
                }
                let prev_bit: u8 = if self.gfx[p] { 1 } else { 0 };
                let bit = (byte >> (7 - k)) & 1;
                proof {
                    lemma_bit_facts(byte, 0, (7 - k) as u8);
                    assert(touch(rows, x, y, j, p as int) == bit);
                    assert(self@.pixels[p as int] == prev_bit);
                    assert(prev_bit == before[p as int]);
                    lemma_bit_facts(prev_bit, bit, 0);
                    lemma_bit_facts(before[p as int], 0, 0);
                    lemma_bit_facts(old_pixels[p as int], flips(rows, x, y, j, p as int), 0);
                }
                let new_bit = prev_bit ^ bit;
                let ghost mid = self@.pixels;
                self.gfx[p] = new_bit == 1;
                assert(self@.pixels =~= mid.update(p as int, new_bit));
                if prev_bit == 1 && new_bit == 0 {
                    collision = true;
                }
                proof {
                    assert(erases(old_pixels, rows, x, y, j, p as int) <==> (prev_bit == 1 && bit == 1));
                    assert forall|q: int| 0 <= q < PIXELS && q != p implies (col_offset(x, q) < k + 1 <==> col_offset(x, q) < k) || (#[trigger] touch(rows, x, y, j, q)) == 0 by {
                        lemma_flat_index(pixel_row(q), pixel_col(q));
                        lemma_col_offset(x, pixel_col(q), k as int);
                        vstd::arithmetic::div_mod::lemma_fundamental_div_mod(q, 64);
                    }
                    assert forall|q: int| 0 <= q < PIXELS implies #[trigger] self@.pixels[q] == if col_offset(x, q) < k + 1 {
                            before[q] ^ touch(rows, x, y, j, q)
                        } else {
                            before[q]
                        } by {
                        if q != p {
                            if col_offset(x, q) == k {
                                assert(touch(rows, x, y, j, q) == 0);
                                lemma_bit_facts(before[q], 0, 0);
                            }
                        }
                    }
                    if collision {
                        if !found_before {
                            if prev_bit == 1 && bit == 1 {
                                assert(col_offset(x, p as int) < k + 1);
                            } else {
                                let w = choose|w: int| 0 <= w < PIXELS && col_offset(x, w) < k && #[trigger] erases(old_pixels, rows, x, y, j, w);
                                assert(col_offset(x, w) < k + 1);
                            }
                        }
                    }
                    if found_before || exists|q: int| 0 <= q < PIXELS && col_offset(x, q) < k + 1 && #[trigger] erases(old_pixels, rows, x, y, j, q) {
                        if !found_before {
                            let w = choose|w: int| 0 <= w < PIXELS && col_offset(x, w) < k + 1 && #[trigger] erases(old_pixels, rows, x, y, j, w);
                            if w != p {
                                assert(col_offset(x, w) != k) by {
                                    if col_offset(x, w) == k {
                                        assert(touch(rows, x, y, j, w) == 0);
                                    }
                                }
                                assert(col_offset(x, w) < k);
                            }
                        }
                    }
                }
                k = k + 1;
            }
            proof {
                assert forall|p: int| 0 <= p < PIXELS implies #[trigger] self@.pixels[p] == old_pixels[p] ^ flips(rows, x, y, j + 1, p) by {
                    let t = touch(rows, x, y, j, p);
                    if col_offset(x, p) >= 8 {
                        assert(t == 0);
                        lemma_bit_facts(flips(rows, x, y, j, p), 0, 0);
                    }
                    lemma_xor_assoc(old_pixels[p], flips(rows, x, y, j, p), t);
                }
                if collision {
                    if !found_before {
                        let w = choose|w: int| 0 <= w < PIXELS && col_offset(x, w) < 8 && #[trigger] erases(old_pixels, rows, x, y, j, w);
                        assert(0 <= j < drawn_y + 1);
                    }
                }
                if exists|jj: int, q: int| 0 <= jj < j + 1 && 0 <= q < PIXELS && #[trigger] erases(old_pixels, rows, x, y, jj, q) {
                    let (jj, q) = choose|jj: int, q: int| 0 <= jj < j + 1 && 0 <= q < PIXELS && #[trigger] erases(old_pixels, rows, x, y, jj, q);
                    if jj == j {
                        assert(col_offset(x, q) < 8);
                    }
                }
            }
            drawn_y = drawn_y + 1;
        }
        proof {
            assert(drawn_y == height);
            assert(rows.len() == height as int);
            assert forall|p: int| 0 <= p < PIXELS implies #[trigger] self@.pixels[p] == drawn(old_pixels, rows, x, y)[p] by {
                assert(self@.pixels[p] == old_pixels[p] ^ flips(rows, x, y, drawn_y as int, p));
            }
            assert(self@.pixels =~= drawn(old_pixels, rows, x, y));
        }
        let ghost final_pixels = self@.pixels;
        self.draw_flag = true;
        assert(self@.pixels =~= final_pixels);
        collision
    }

    /// The pixel at column `x`, row `y`: 1 lit, 0 dark.
    pub fn pixel(&self, x: usize, y: usize) -> (p: u8)
        requires
            x < WIDTH,
            y < HEIGHT,
        ensures
            p == self@.pixels[y * WIDTH + x],
    {
        if self.gfx[y * WIDTH + x] { 1 } else { 0 }
    }

    /// Whether the screen changed since it was last shown.
    pub fn draw_flag(&self) -> (b: bool)
        ensures
            b == self@.draw_flag,
    {
        self.draw_flag
    }

    /// Turns every pixel off.
    pub fn clear(&mut self)
        ensures
            final(self)@.pixels == Seq::new(PIXELS as nat, |_p: int| 0u8),
            final(self)@.draw_flag,
    {
        self.gfx = [false; 2048];
        self.draw_flag = true;
        assert(self@.pixels =~= Seq::new(PIXELS as nat, |_p: int| 0u8));
    }

    /// The image to show, if the screen changed since it was last shown:
    /// `Some` of every pixel (lit or dark, row after row), after which the
    /// screen counts as shown; `None` when nothing changed.
    pub fn draw_screen(&mut self) -> (frame: Option<Vec<bool>>)
        ensures
            final(self)@.pixels == old(self)@.pixels,
            !final(self)@.draw_flag,
            match frame {
                Some(f) => old(self)@.draw_flag && f@ == frame_of(old(self)@.pixels),
                None => !old(self)@.draw_flag,
            },
    {
        if !self.draw_flag {
            return None;
        }
        let mut f: Vec<bool> = Vec::new();
        for p in 0..PIXELS
            invariant
                f@.len() == p,
                forall|q: int| 0 <= q < p ==> f@[q] == (self@.pixels[q] != 0),
        {
            f.push(self.gfx[p]);
        }
        self.draw_flag = false;
        assert(f@ =~= frame_of(self@.pixels));
        Some(f)
    }

    /// The screen as text: `#` for a lit pixel, `_` for a dark one, each row
    /// ended by a newline.
    pub fn gfx_text(&self) -> (text: Vec<u8>)
        ensures
            text@ == gfx_text_of(self@.pixels),
    {
        let mut text: Vec<u8> = Vec::new();
        for y in 0..HEIGHT
            invariant
                text@ == gfx_text_rows(self@.pixels, y as int),
        {
            let mut x: usize = 0;
            while x < WIDTH
                invariant
                    y < HEIGHT,
                    x <= WIDTH,
                    text@ == gfx_text_rows(self@.pixels, y as int) + gfx_text_cells(self@.pixels, y as int, x as int),
                decreases WIDTH - x,
            {
                let c: u8 = if self.gfx[y * WIDTH + x] { 35 } else { 95 };
                text.push(c);
                x = x + 1;
                assert(gfx_text_cells(self@.pixels, y as int, x as int) =~= gfx_text_cells(self@.pixels, y as int, x - 1).push(c));
            }
            text.push(10);
            assert(gfx_text_rows(self@.pixels, y + 1) =~= gfx_text_rows(self@.pixels, y as int) + gfx_text_cells(self@.pixels, y as int, WIDTH as int).push(10u8));
        }
        text
    }
}

proof fn lemma_xor_assoc(a: u8, b: u8, c: u8)
    ensures
        (a ^ b) ^ c == a ^ (b ^ c),
{
    assert((a ^ b) ^ c == a ^ (b ^ c)) by (bit_vector);
}

/// The text for the first `x` pixels of row `y`: `#` (35) lit, `_` (95) dark.
pub open spec fn gfx_text_cells(pixels: Seq<u8>, y: int, x: int) -> Seq<u8>
    decreases x,
{
    if x <= 0 {
        Seq::empty()
    } else {
        gfx_text_cells(pixels, y, x - 1).push(
            if pixels[y * WIDTH as int + x - 1] == 0 { 95u8 } else { 35u8 },
        )
    }
}

/// The text for the first `y` rows, each ended by a newline (10).
pub open spec fn gfx_text_rows(pixels: Seq<u8>, y: int) -> Seq<u8>
    decreases y,
{
    if y <= 0 {
        Seq::empty()
    } else {
        gfx_text_rows(pixels, y - 1) + gfx_text_cells(pixels, y - 1, WIDTH as int).push(10u8)
    }
}

/// The text of the whole screen.
pub open spec fn gfx_text_of(pixels: Seq<u8>) -> Seq<u8> {
    gfx_text_rows(pixels, HEIGHT as int)
}

} // verus!
