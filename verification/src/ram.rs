use vstd::prelude::*;

verus! {

/// Size of the address space in bytes.
pub const MEMORY_SIZE: usize = 4096;

/// Number of bytes in the built-in hexadecimal font (16 glyphs of 5 rows).
pub const FONT_SIZE: usize = 80;

/// The built-in font: one glyph of five rows for each hexadecimal digit
/// 0 to F, glyph `d` starting at address `5 * d`.
pub open spec fn font() -> Seq<u8> {
    seq![
        0xF0u8, 0x90, 0x90, 0x90, 0xF0, // 0
        0x20, 0x60, 0x20, 0x20, 0x70, // 1
        0xF0, 0x10, 0xF0, 0x80, 0xF0, // 2
        0xF0, 0x10, 0xF0, 0x10, 0xF0, // 3
        0x90, 0x90, 0xF0, 0x10, 0x10, // 4
        0xF0, 0x80, 0xF0, 0x10, 0xF0, // 5
        0xF0, 0x80, 0xF0, 0x90, 0xF0, // 6
        0xF0, 0x10, 0x20, 0x40, 0x40, // 7
        0xF0, 0x90, 0xF0, 0x90, 0xF0, // 8
        0xF0, 0x90, 0xF0, 0x10, 0xF0, // 9
        0xF0, 0x90, 0xF0, 0x90, 0x90, // A
        0xE0, 0x90, 0xE0, 0x90, 0xE0, // B
        0xF0, 0x80, 0x80, 0x80, 0xF0, // C
        0xE0, 0x90, 0x90, 0x90, 0xE0, // D
        0xF0, 0x80, 0xF0, 0x80, 0xF0, // E
        0xF0, 0x80, 0xF0, 0x80, 0x80, // F
    ]
}

/// The memory of a freshly started machine: the font at the bottom,
/// zeros everywhere else.
pub open spec fn initial_memory() -> Seq<u8> {
    Seq::new(MEMORY_SIZE as nat, |a: int| if a < FONT_SIZE { font()[a] } else { 0u8 })
}

/// The 4 KiB byte-addressed memory of the machine.
pub struct Ram {
    mem: [u8; 4096],
}

impl View for Ram {
    type V = Seq<u8>;

    closed spec fn view(&self) -> Seq<u8> {
        self.mem@
    }
}

/// The memory always spans the whole 12-bit address space.
pub broadcast proof fn lemma_ram_len(r: &Ram)
    ensures
        #[trigger] r@.len() == MEMORY_SIZE,
{
}

fn font_bytes() -> (f: [u8; 80])
    ensures
        f@ == font(),
{
    let f: [u8; 80] = [
        0xF0, 0x90, 0x90, 0x90, 0xF0,
        0x20, 0x60, 0x20, 0x20, 0x70,
        0xF0, 0x10, 0xF0, 0x80, 0xF0,
        0xF0, 0x10, 0xF0, 0x10, 0xF0,
        0x90, 0x90, 0xF0, 0x10, 0x10,
        0xF0, 0x80, 0xF0, 0x10, 0xF0,
        0xF0, 0x80, 0xF0, 0x90, 0xF0,
        0xF0, 0x10, 0x20, 0x40, 0x40,
        0xF0, 0x90, 0xF0, 0x90, 0xF0,
        0xF0, 0x90, 0xF0, 0x10, 0xF0,
        0xF0, 0x90, 0xF0, 0x90, 0x90,
        0xE0, 0x90, 0xE0, 0x90, 0xE0,
        0xF0, 0x80, 0x80, 0x80, 0xF0,
        0xE0, 0x90, 0x90, 0x90, 0xE0,
        0xF0, 0x80, 0xF0, 0x80, 0xF0,
        0xF0, 0x80, 0xF0, 0x80, 0x80,
    ];
    assert(f@ =~= font());
    f
}

impl Ram {
    /// Memory with the font loaded at address 0 and zeros elsewhere.
    pub fn new() -> (r: Ram)
        ensures
            r@ == initial_memory(),
    {
        let glyphs = font_bytes();
        let mut mem = [0u8; 4096];
        for k in 0..FONT_SIZE
            invariant
                glyphs@ == font(),
                forall|a: int| 0 <= a < k ==> mem@[a] == font()[a],
                forall|a: int| k <= a < MEMORY_SIZE ==> mem@[a] == 0,
        {
            mem[k] = glyphs[k];
        }
        let r = Ram { mem };
        assert(r@ =~= initial_memory());
        r
    }

    /// The byte at `address`.
    pub fn read_byte(&self, address: u16) -> (b: u8)
        requires
            address < MEMORY_SIZE,
        ensures
            b == self@[address as int],
    {
        self.mem[address as usize]
    }

    /// Stores `value` at `address`.
    pub fn write_byte(&mut self, address: u16, value: u8)
        requires
            address < MEMORY_SIZE,
        ensures
            final(self)@ == old(self)@.update(address as int, value),
    {
        self.mem[address as usize] = value;
    }
}

/// Reading an address gives back the last value written there, and a write
/// leaves every other address as it was.
pub proof fn lemma_read_after_write(mem: Seq<u8>, written: int, value: u8, read: int)
    requires
        mem.len() == MEMORY_SIZE,
        0 <= written < MEMORY_SIZE,
        0 <= read < MEMORY_SIZE,
    ensures
        mem.update(written, value)[read] == if read == written { value } else { mem[read] },
{
}

} // verus!
