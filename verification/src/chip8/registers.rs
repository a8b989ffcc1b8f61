use vstd::prelude::*;

verus! {

/// The CHIP-8 register file: sixteen general-purpose 8-bit registers V0
/// through VF (VF doubles as the flag register), the 16-bit address register
/// I (only its low 12 bits are significant), the program counter, and a
/// 16-entry stack of return addresses indexed by the stack pointer.
#[derive(Debug)]
pub struct Chip8Registers {
    /// V0 through VF. VF (index 15) receives carry, borrow and collision flags.
    pub general: Vec<u8>,
    /// The address register I.
    pub memory_address: u16,
    /// Shadow slots for the delay and sound timers, kept for display purposes.
    pub special: Vec<u8>,
    /// The address of the instruction to execute next.
    pub program_counter: u16,
    /// Index of the first free stack slot; 16 means the stack is full.
    pub stack_pointer: u8,
    /// Return addresses pushed by CALL and popped by RET.
    pub stack: Vec<u16>,
}

impl Chip8Registers {
    pub open spec fn wf(&self) -> bool {
        &&& self.general@.len() == 16
        &&& self.special@.len() == 2
        &&& self.stack@.len() == 16
        &&& self.stack_pointer <= 16
    }

    /// A fresh register file: everything zero except the program counter,
    /// which starts at 0x200, the base of program memory.
    pub fn new() -> (r: Chip8Registers)
        ensures
            r.wf(),
            r.general@ == Seq::new(16, |k: int| 0u8),
            r.memory_address == 0,
            r.special@ == Seq::new(2, |k: int| 0u8),
            r.program_counter == 0x200,
            r.stack_pointer == 0,
            r.stack@ == Seq::new(16, |k: int| 0u16),
    {
        let mut general: Vec<u8> = Vec::new();
        let mut k: usize = 0;
        while k < 16
            invariant
                k <= 16,
                general@.len() == k,
                forall|j: int| 0 <= j < k ==> general@[j] == 0,
            decreases 16 - k,
        {
            general.push(0);
            k = k + 1;
        }
        let mut special: Vec<u8> = Vec::new();
        special.push(0);
        special.push(0);
        let mut stack: Vec<u16> = Vec::new();
        let mut k2: usize = 0;
        while k2 < 16
            invariant
                k2 <= 16,
                stack@.len() == k2,
                forall|j: int| 0 <= j < k2 ==> stack@[j] == 0,
            decreases 16 - k2,
        {
            stack.push(0);
            k2 = k2 + 1;
        }
        let r = Chip8Registers {
            general,
            memory_address: 0,
            special,
            program_counter: 0x200,
            stack_pointer: 0,
            stack,
        };
        proof {
            assert(r.general@ =~= Seq::new(16, |k: int| 0u8));
            assert(r.special@ =~= Seq::new(2, |k: int| 0u8));
            assert(r.stack@ =~= Seq::new(16, |k: int| 0u16));
        }
        r
    }
}

} // verus!
