use vstd::prelude::*;

verus! {

/// Whether key `key` is down in the mask `map`. Only the low nibble of `key`
/// selects a key, so `key` is taken modulo 16.
pub open spec fn spec_key_down(map: u16, key: u8) -> bool {
    map & (1u16 << ((key % 16) as u16)) != 0
}

/// The 16-key CHIP-8 keypad, kept as a bitmask: bit k is set while key k
/// (0x0 through 0xF) is held down. External input sets keys; the policy for
/// clearing them (for example an idle timeout) belongs to the caller.
#[derive(Debug)]
pub struct Chip8Keyboard {
    key_map: u16,
}

impl View for Chip8Keyboard {
    type V = u16;

    closed spec fn view(&self) -> u16 {
        self.key_map
    }
}

impl Chip8Keyboard {
    /// A keypad with no key held down.
    pub fn new() -> (k: Chip8Keyboard)
        ensures
            k@ == 0,
    {
        Chip8Keyboard { key_map: 0 }
    }

    /// Releases every key.
    pub fn reset_keys(&mut self)
        ensures
            final(self)@ == 0,
    {
        self.key_map = 0;
    }

    /// Marks key `key` (modulo 16) as held down; all other keys keep their state.
    pub fn set_key(&mut self, key: u8)
        ensures
            final(self)@ == old(self)@ | (1u16 << ((key % 16) as u16)),
    {
        let k: u16 = (key % 16) as u16;
        let bit_mask: u16 = 1u16 << k;
        self.key_map = self.key_map | bit_mask;
    }

    /// Reports whether key `key` (modulo 16) is currently held down.
    pub fn get_key(&self, key: u8) -> (down: bool)
        ensures
            down == spec_key_down(self@, key),
    {
        let k: u16 = (key % 16) as u16;
        let bit_mask: u16 = 1u16 << k;
        (self.key_map & bit_mask) != 0
    }

    /// The whole 16-key mask.
    pub fn get_key_map(&self) -> (map: u16)
        ensures
            map == self@,
    {
        self.key_map
    }
}

} // verus!
