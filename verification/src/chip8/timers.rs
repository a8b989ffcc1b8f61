use vstd::prelude::*;

verus! {

/// The two independent CHIP-8 countdown timers (delay and sound). An external
/// cadence decrements each of them toward zero; neither ever goes below zero,
/// and neither reloads itself.
#[derive(Debug)]
pub struct Chip8Timers {
    pub delay_timer: u8,
    pub sound_timer: u8,
}

impl Chip8Timers {
    /// Both timers start at zero.
    pub fn new() -> (t: Chip8Timers)
        ensures
            t.delay_timer == 0,
            t.sound_timer == 0,
    {
        Chip8Timers { delay_timer: 0, sound_timer: 0 }
    }

    /// One unit of timer work: each non-zero timer is decremented by one; a
    /// timer that has reached zero stays at zero.
    pub fn tick(&mut self)
        ensures
            final(self).delay_timer == if old(self).delay_timer > 0 {
                (old(self).delay_timer - 1) as u8
            } else {
                0u8
            },
            final(self).sound_timer == if old(self).sound_timer > 0 {
                (old(self).sound_timer - 1) as u8
            } else {
                0u8
            },
    {
        if self.delay_timer > 0 {
            self.delay_timer = self.delay_timer - 1;
        }
        if self.sound_timer > 0 {
            self.sound_timer = self.sound_timer - 1;
        }
    }
}

} // verus!
