use vstd::prelude::*;

verus! {

/// One byte of the fixed hexadecimal glyph font that is pre-seeded at the
/// bottom of memory: 16 glyphs (digits 0 through F), 5 bytes per glyph, at
/// addresses 0x000 through 0x04F.
pub open spec fn spec_font_byte(k: int) -> u8 {
    if k == 0 {
        0xF0
    } else if k == 1 {
        0x90
    } else if k == 2 {
        0x90
    } else if k == 3 {
        0x90
    } else if k == 4 {
        0xF0
    } else if k == 5 {
        0x20
    } else if k == 6 {
        0x60
    } else if k == 7 {
        0x20
    } else if k == 8 {
        0x20
    } else if k == 9 {
        0x70
    } else if k == 10 {
        0xF0
    } else if k == 11 {
        0x10
    } else if k == 12 {
        0xF0
    } else if k == 13 {
        0x80
    } else if k == 14 {
        0xF0
    } else if k == 15 {
        0xF0
    } else if k == 16 {
        0x10
    } else if k == 17 {
        0xF0
    } else if k == 18 {
        0x10
    } else if k == 19 {
        0xF0
    } else if k == 20 {
        0x90
    } else if k == 21 {
        0x90
    } else if k == 22 {
        0xF0
    } else if k == 23 {
        0x10
    } else if k == 24 {
        0x10
    } else if k == 25 {
        0xF0
    } else if k == 26 {
        0x80
    } else if k == 27 {
        0xF0
    } else if k == 28 {
        0x10
    } else if k == 29 {
        0xF0
    } else if k == 30 {
        0xF0
    } else if k == 31 {
        0x80
    } else if k == 32 {
        0xF0
    } else if k == 33 {
        0x90
    } else if k == 34 {
        0xF0
    } else if k == 35 {
        0xF0
    } else if k == 36 {
        0x10
    } else if k == 37 {
        0x20
    } else if k == 38 {
        0x40
    } else if k == 39 {
        0x40
    } else if k == 40 {
        0xF0
    } else if k == 41 {
        0x90
    } else if k == 42 {
        0xF0
    } else if k == 43 {
        0x90
    } else if k == 44 {
        0xF0
    } else if k == 45 {
        0xF0
    } else if k == 46 {
        0x90
    } else if k == 47 {
        0xF0
    } else if k == 48 {
        0x10
    } else if k == 49 {
        0xF0
    } else if k == 50 {
        0xF0
    } else if k == 51 {
        0x90
    } else if k == 52 {
        0xF0
    } else if k == 53 {
        0x90
    } else if k == 54 {
        0x90
    } else if k == 55 {
        0xE0
    } else if k == 56 {
        0x90
    } else if k == 57 {
        0xE0
    } else if k == 58 {
        0x90
    } else if k == 59 {
        0xE0
    } else if k == 60 {
        0xF0
    } else if k == 61 {
        0x80
    } else if k == 62 {
        0x80
    } else if k == 63 {
        0x80
    } else if k == 64 {
        0xF0
    } else if k == 65 {
        0xE0
    } else if k == 66 {
        0x90
    } else if k == 67 {
        0x90
    } else if k == 68 {
        0x90
    } else if k == 69 {
        0xE0
    } else if k == 70 {
        0xF0
    } else if k == 71 {
        0x80
    } else if k == 72 {
        0xF0
    } else if k == 73 {
        0x80
    } else if k == 74 {
        0xF0
    } else if k == 75 {
        0xF0
    } else if k == 76 {
        0x80
    } else if k == 77 {
        0xF0
    } else if k == 78 {
        0x80
    } else if k == 79 {
        0x80
    } else {
        0
    }
}

/// The memory contents right after construction: the 80 font bytes, then zeros
/// up to the full 4096 bytes.
pub open spec fn spec_initial_memory() -> Seq<u8> {
    Seq::new(4096, |k: int| if k < 80 { spec_font_byte(k) } else { 0u8 })
}

/// The flat 4096-byte addressable store. Addresses 0x000 through 0x04F hold
/// the glyph font; programs are loaded from 0x200 on.
#[derive(Debug)]
pub struct Chip8Memory {
    pub raw_array: Vec<u8>,
}

fn font_byte(k: usize) -> (b: u8)
    requires
        k < 80,
    ensures
        b == spec_font_byte(k as int),
{
    if k == 0 {
        0xF0
    } else if k == 1 {
        0x90
    } else if k == 2 {
        0x90
    } else if k == 3 {
        0x90
    } else if k == 4 {
        0xF0
    } else if k == 5 {
        0x20
    } else if k == 6 {
        0x60
    } else if k == 7 {
        0x20
    } else if k == 8 {
        0x20
    } else if k == 9 {
        0x70
    } else if k == 10 {
        0xF0
    } else if k == 11 {
        0x10
    } else if k == 12 {
        0xF0
    } else if k == 13 {
        0x80
    } else if k == 14 {
        0xF0
    } else if k == 15 {
        0xF0
    } else if k == 16 {
        0x10
    } else if k == 17 {
        0xF0
    } else if k == 18 {
        0x10
    } else if k == 19 {
        0xF0
    } else if k == 20 {
        0x90
    } else if k == 21 {
        0x90
    } else if k == 22 {
        0xF0
    } else if k == 23 {
        0x10
    } else if k == 24 {
        0x10
    } else if k == 25 {
        0xF0
    } else if k == 26 {
        0x80
    } else if k == 27 {
        0xF0
    } else if k == 28 {
        0x10
    } else if k == 29 {
        0xF0
    } else if k == 30 {
        0xF0
    } else if k == 31 {
        0x80
    } else if k == 32 {
        0xF0
    } else if k == 33 {
        0x90
    } else if k == 34 {
        0xF0
    } else if k == 35 {
        0xF0
    } else if k == 36 {
        0x10
    } else if k == 37 {
        0x20
    } else if k == 38 {
        0x40
    } else if k == 39 {
        0x40
    } else if k == 40 {
        0xF0
    } else if k == 41 {
        0x90
    } else if k == 42 {
        0xF0
    } else if k == 43 {
        0x90
    } else if k == 44 {
        0xF0
    } else if k == 45 {
        0xF0
    } else if k == 46 {
        0x90
    } else if k == 47 {
        0xF0
    } else if k == 48 {
        0x10
    } else if k == 49 {
        0xF0
    } else if k == 50 {
        0xF0
    } else if k == 51 {
        0x90
    } else if k == 52 {
        0xF0
    } else if k == 53 {
        0x90
    } else if k == 54 {
        0x90
    } else if k == 55 {
        0xE0
    } else if k == 56 {
        0x90
    } else if k == 57 {
        0xE0
    } else if k == 58 {
        0x90
    } else if k == 59 {
        0xE0
    } else if k == 60 {
        0xF0
    } else if k == 61 {
        0x80
    } else if k == 62 {
        0x80
    } else if k == 63 {
        0x80
    } else if k == 64 {
        0xF0
    } else if k == 65 {
        0xE0
    } else if k == 66 {
        0x90
    } else if k == 67 {
        0x90
    } else if k == 68 {
        0x90
    } else if k == 69 {
        0xE0
    } else if k == 70 {
        0xF0
    } else if k == 71 {
        0x80
    } else if k == 72 {
        0xF0
    } else if k == 73 {
        0x80
    } else if k == 74 {
        0xF0
    } else if k == 75 {
        0xF0
    } else if k == 76 {
        0x80
    } else if k == 77 {
        0xF0
    } else if k == 78 {
        0x80
    } else if k == 79 {
        0x80
    } else {
        0
    }
}

impl Chip8Memory {
    pub open spec fn wf(&self) -> bool {
        self.raw_array@.len() == 4096
    }

    /// Fresh memory: the font at the bottom, zeros everywhere else.
    pub fn new() -> (m: Chip8Memory)
        ensures
            m.wf(),
            m.raw_array@ == spec_initial_memory(),
    {
        let mut raw: Vec<u8> = Vec::new();
        let mut k: usize = 0;
        while k < 80
            invariant
                k <= 80,
                raw@.len() == k,
                forall|j: int| 0 <= j < k ==> raw@[j] == spec_font_byte(j),
            decreases 80 - k,
        {
            raw.push(font_byte(k));
            k = k + 1;
        }
        while k < 4096
            invariant
                80 <= k <= 4096,
                raw@.len() == k,
                forall|j: int| 0 <= j < 80 ==> raw@[j] == spec_font_byte(j),
                forall|j: int| 80 <= j < k ==> raw@[j] == 0,
            decreases 4096 - k,
        {
            raw.push(0);
            k = k + 1;
        }
        let m = Chip8Memory { raw_array: raw };
        proof {
            assert(m.raw_array@ =~= spec_initial_memory());
        }
        m
    }
}

} // verus!
