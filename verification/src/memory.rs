use vstd::prelude::*;

verus! {

/// Number of bytes of CHIP-8 memory.
pub const RAM_SIZE: usize = 4096;

/// Number of general purpose registers `V0` to `VF`.
pub const REGISTER_COUNT: usize = 16;

/// Number of bytes of the built-in hexadecimal font (five bytes per digit).
pub const FONT_SIZE: usize = 80;

/// The built-in font: sixteen glyphs of five rows each, stored at address 0 so
/// that the sprite of digit `d` starts at `5 * d`.
pub open spec fn font() -> Seq<u8> {
    seq![
        0xF0u8, 0x90, 0x90, 0x90, 0xF0, // 0
        0x20, 0x60, 0x20, 0x20, 0x70, // 1
        0xF0, 0x10, 0xF0, 0x80, 0xF0, // 2
        0xF0, 0x10, 0xF0, 0x10, 0xF0, // 3
        0x90, 0x90, 0xF0, 0x10, 0x10, // 4
        0xF0, 0x80, 0xF0, 0x10, 0xF0, // 5
        0xF0, 0x80, 0xF0, 0x90, 0xF0, // 6
        0xF0, 0x10, 0x20, 0x40, 0x40, // 7
        0xF0, 0x90, 0xF0, 0x90, 0xF0, // 8
        0xF0, 0x90, 0xF0, 0x10, 0xF0, // 9
        0xF0, 0x90, 0xF0, 0x90, 0x90, // A
        0xE0, 0x90, 0xE0, 0x90, 0xE0, // B
        0xF0, 0x80, 0x80, 0x80, 0xF0, // C
        0xE0, 0x90, 0x90, 0x90, 0xE0, // D
        0xF0, 0x80, 0xF0, 0x80, 0xF0, // E
        0xF0, 0x80, 0xF0, 0x80, 0x80, // F
    ]
}

/// Memory as it is at power-on: the font, then zeroes.
pub open spec fn initial_memory() -> Seq<u8> {
    Seq::new(RAM_SIZE as nat, |a: int| if a < FONT_SIZE { font()[a] } else { 0u8 })
}

/// The 4 KiB address space of the machine.
pub struct RAM {
    bytes: [u8; 4096],
}

impl View for RAM {
    type V = Seq<u8>;

    closed spec fn view(&self) -> Seq<u8> {
        self.bytes@
    }
}

impl RAM {
    pub proof fn lemma_len(&self)
        ensures
            self@.len() == RAM_SIZE,
    {
    }

    /// The byte at `addr`.
    pub fn read(&self, addr: usize) -> (b: u8)
        requires
            addr < RAM_SIZE,
        ensures
            b == self@[addr as int],
    {
        self.bytes[addr]
    }

    /// Stores `value` at `addr`.
    pub fn write(&mut self, addr: usize, value: u8)
        requires
            addr < RAM_SIZE,
        ensures
            final(self)@ == old(self)@.update(addr as int, value),
    {
        self.bytes[addr] = value;
    }

    /// Copies `data` into memory starting at `addr`.
    pub fn put(&mut self, addr: usize, data: &[u8])
        requires
            addr + data@.len() <= RAM_SIZE,
        ensures
            final(self)@ == old(self)@.take(addr as int) + data@ + old(self)@.skip(
                addr + data@.len(),
            ),
    {
        let ghost before = self@;
        let mut k: usize = 0;
        while k < data.len()
            invariant
                addr + data@.len() <= RAM_SIZE,
                k <= data@.len(),
                self@.len() == RAM_SIZE,
                forall|a: int|
                    0 <= a < RAM_SIZE ==> #[trigger] self@[a] == if addr <= a < addr + k {
                        data@[a - addr]
                    } else {
                        before[a]
                    },
            decreases data@.len() - k,
        {
            self.bytes[addr + k] = data[k];
            k = k + 1;
        }
        assert(self@ =~= before.take(addr as int) + data@ + before.skip(addr + data@.len()));
    }
}

impl Default for RAM {
    fn default() -> (ram: Self)
        ensures
            ram@ == initial_memory(),
    {
        let glyphs: [u8; 80] = [
            0xF0, 0x90, 0x90, 0x90, 0xF0,
            0x20, 0x60, 0x20, 0x20, 0x70,
            0xF0, 0x10, 0xF0, 0x80, 0xF0,
            0xF0, 0x10, 0xF0, 0x10, 0xF0,
            0x90, 0x90, 0xF0, 0x10, 0x10,
            0xF0, 0x80, 0xF0, 0x10, 0xF0,
            0xF0, 0x80, 0xF0, 0x90, 0xF0,
            0xF0, 0x10, 0x20, 0x40, 0x40,
            0xF0, 0x90, 0xF0, 0x90, 0xF0,
            0xF0, 0x90, 0xF0, 0x10, 0xF0,
            0xF0, 0x90, 0xF0, 0x90, 0x90,
            0xE0, 0x90, 0xE0, 0x90, 0xE0,
            0xF0, 0x80, 0x80, 0x80, 0xF0,
            0xE0, 0x90, 0x90, 0x90, 0xE0,
            0xF0, 0x80, 0xF0, 0x80, 0xF0,
            0xF0, 0x80, 0xF0, 0x80, 0x80,
        ];
        assert(glyphs@ =~= font());
        let mut ram = RAM { bytes: [0u8; 4096] };
        ram.put(0, &glyphs);
        assert(ram@ =~= initial_memory());
        ram
    }
}

/// The sixteen 8-bit registers `V0` to `VF`; `VF` doubles as the flag register.
pub struct Registers {
    values: [u8; 16],
}

impl View for Registers {
    type V = Seq<u8>;

    closed spec fn view(&self) -> Seq<u8> {
        self.values@
    }
}

impl Registers {
    pub proof fn lemma_len(&self)
        ensures
            self@.len() == REGISTER_COUNT,
    {
    }

    /// The value of register `x`.
    pub fn read(&self, x: u8) -> (v: u8)
        requires
            x < REGISTER_COUNT,
        ensures
            v == self@[x as int],
    {
        self.values[x as usize]
    }

    /// Sets register `x` to `value`.
    pub fn write(&mut self, x: u8, value: u8)
        requires
            x < REGISTER_COUNT,
        ensures
            final(self)@ == old(self)@.update(x as int, value),
    {
        self.values[x as usize] = value;
    }
}

impl Default for Registers {
    fn default() -> (r: Self)
        ensures
            r@ == Seq::new(REGISTER_COUNT as nat, |k: int| 0u8),
    {
        let r = Registers { values: [0u8; 16] };
        assert(r@ =~= Seq::new(REGISTER_COUNT as nat, |k: int| 0u8));
        r
    }
}

} // verus!
