use vstd::prelude::*;

use crate::chip8::{spec_initial_state, Chip8};

verus! {

/// The application root: it owns the machine. Reading a program image from
/// disk and feeding it to `Chip8::load` belongs to the caller.
pub struct App {
    pub sys: Chip8,
}

impl App {
    /// An application around a freshly constructed machine.
    pub fn new() -> (a: App)
        ensures
            a.sys.wf(),
            a.sys@ == spec_initial_state(),
    {
        App { sys: Chip8::new() }
    }
}

} // verus!
