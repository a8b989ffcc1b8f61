pub mod display;
pub mod instruction_decoder;
pub mod keyboard;
pub mod memory;
pub mod registers;
pub mod thread_messages;
pub mod timers;

use vstd::prelude::*;

use crate::chip8::display::{
    spec_blank_fb, spec_draw_collision, spec_draw_rel, Chip8Display,
};
use crate::chip8::instruction_decoder::{decode, spec_decode, spec_word, Chip8Instruction};
use crate::chip8::memory::{spec_initial_memory, Chip8Memory};
use crate::chip8::registers::Chip8Registers;
use crate::chip8::timers::Chip8Timers;

verus! {

/// Why a load or an instruction step was refused. Addressing faults and stack
/// faults come from malformed programs; they abort the step and leave the
/// machine as it was.
#[derive(Clone, Copy, Debug, PartialEq, Eq, Structural)]
pub enum Chip8Error {
    /// The program image does not fit between 0x200 and the end of memory.
    ProgramTooLarge,
    /// A fetch or a memory operand would reach past the 4096 bytes.
    AddressOutOfRange,
    /// RET with an empty call stack.
    StackUnderflow,
    /// CALL with all 16 stack slots in use.
    StackOverflow,
    /// An encoding outside the documented instruction table.
    UnimplementedOpcode,
}

/// The mathematical state of the machine: memory, the register file, the
/// timers and the framebuffer, with the collections as sequences.
#[verifier::ext_equal]
pub ghost struct Chip8View {
    pub mem: Seq<u8>,
    pub v: Seq<u8>,
    pub i: u16,
    pub pc: u16,
    pub sp: u8,
    pub stack: Seq<u16>,
    pub delay: u8,
    pub sound: u8,
    pub fb: Seq<u8>,
}

/// The size bounds every reachable machine state satisfies.
pub open spec fn spec_view_wf(m: Chip8View) -> bool {
    &&& m.mem.len() == 4096
    &&& m.v.len() == 16
    &&& m.stack.len() == 16
    &&& m.fb.len() == 256
    &&& m.sp <= 16
}

/// The machine state right after construction.
pub open spec fn spec_initial_state() -> Chip8View {
    Chip8View {
        mem: spec_initial_memory(),
        v: Seq::new(16, |k: int| 0u8),
        i: 0,
        pc: 0x200,
        sp: 0,
        stack: Seq::new(16, |k: int| 0u16),
        delay: 0,
        sound: 0,
        fb: spec_blank_fb(),
    }
}

/// The 16-bit instruction word at the program counter, composed big-endian.
pub open spec fn spec_fetch(m: Chip8View) -> u16
    recommends
        spec_view_wf(m),
        m.pc + 1 < 4096,
{
    spec_word(m.mem[m.pc as int], m.mem[m.pc as int + 1])
}

/// Byte addition, wrapping modulo 256.
pub open spec fn spec_wrap_add_u8(a: u8, b: u8) -> u8 {
    ((a + b) % 256) as u8
}

/// The carry flag of a byte addition: 1 exactly when the true sum exceeds 255.
pub open spec fn spec_carry(a: u8, b: u8) -> u8 {
    if a + b > 255 {
        1u8
    } else {
        0u8
    }
}

/// Byte subtraction, wrapping modulo 256.
pub open spec fn spec_wrap_sub_u8(a: u8, b: u8) -> u8 {
    ((a - b + 256) % 256) as u8
}

/// The NOT-borrow flag of a byte subtraction: 1 exactly when a >= b.
pub open spec fn spec_no_borrow(a: u8, b: u8) -> u8 {
    if a >= b {
        1u8
    } else {
        0u8
    }
}

/// 16-bit addition, wrapping modulo 2^16.
pub open spec fn spec_wrap_add_u16(a: u16, b: u16) -> u16 {
    ((a + b) % 0x10000) as u16
}

/// Memory after LD [I],Vx: registers 0 through `x` written at `i` onward,
/// everything else untouched.
pub open spec fn spec_store_regs(mem: Seq<u8>, v: Seq<u8>, i: int, x: int) -> Seq<u8> {
    Seq::new(mem.len(), |k: int| if i <= k <= i + x { v[k - i] } else { mem[k] })
}

/// The register file after LD Vx,[I]: registers 0 through `x` read from `i`
/// onward, the higher registers untouched.
pub open spec fn spec_load_regs(v: Seq<u8>, mem: Seq<u8>, i: int, x: int) -> Seq<u8> {
    Seq::new(v.len(), |k: int| if 0 <= k <= x { mem[i + k] } else { v[k] })
}

/// Memory after LD B,Vx: the hundreds, tens and ones digits of `val` at `i`,
/// `i` + 1 and `i` + 2.
pub open spec fn spec_bcd(mem: Seq<u8>, i: int, val: u8) -> Seq<u8> {
    mem.update(i, val / 100).update(i + 1, val / 10 % 10).update(i + 2, val % 10)
}

/// The fault one step at state `pre` raises, if any: a fetch past the end of
/// memory, stack underflow or overflow, a memory operand past the end of
/// memory, or an encoding outside the table. Exactly when this is `None` the
/// step succeeds.
pub open spec fn spec_step_error(pre: Chip8View) -> Option<Chip8Error>
    recommends
        spec_view_wf(pre),
{
    if pre.pc + 1 >= 4096 {
        Some(Chip8Error::AddressOutOfRange)
    } else {
        match spec_decode(spec_fetch(pre)) {
            Chip8Instruction::Ret => if pre.sp == 0 {
                Some(Chip8Error::StackUnderflow)
            } else {
                None
            },
            Chip8Instruction::Call(_nnn) => if pre.sp >= 16 {
                Some(Chip8Error::StackOverflow)
            } else {
                None
            },
            Chip8Instruction::Drw(_x, _y, n) => if pre.i + n > 4096 {
                Some(Chip8Error::AddressOutOfRange)
            } else {
                None
            },
            Chip8Instruction::LdBcd(_x) => if pre.i + 2 >= 4096 {
                Some(Chip8Error::AddressOutOfRange)
            } else {
                None
            },
            Chip8Instruction::LdStore(x) => if pre.i + x >= 4096 {
                Some(Chip8Error::AddressOutOfRange)
            } else {
                None
            },
            Chip8Instruction::LdRead(x) => if pre.i + x >= 4096 {
                Some(Chip8Error::AddressOutOfRange)
            } else {
                None
            },
            Chip8Instruction::Unknown(_inst) => Some(Chip8Error::UnimplementedOpcode),
            _ => None,
        }
    }
}

/// What one successful step does: `post` is the state after executing the
/// instruction fetched at `pre`'s program counter, `rnd` being the byte the
/// RND instruction consumes. By default the program counter advances by 2;
/// jumps, calls, returns and skips set it themselves. Flags are written to
/// VF after the result register, so on the flag register itself the flag
/// wins; SUB and SUBN always write the wrapped difference (the documented
/// CHIP-8 behaviour), never withholding it on borrow.
pub open spec fn spec_step_effect(pre: Chip8View, post: Chip8View, rnd: u8) -> bool
    recommends
        spec_view_wf(pre),
        spec_step_error(pre) is None,
{
    let pc2 = (pre.pc + 2) as u16;
    match spec_decode(spec_fetch(pre)) {
        Chip8Instruction::Cls => post == (Chip8View { fb: spec_blank_fb(), pc: pc2, ..pre }),
        Chip8Instruction::Ret => post == (Chip8View {
            pc: spec_wrap_add_u16(pre.stack[pre.sp - 1], 2),
            sp: (pre.sp - 1) as u8,
            ..pre
        }),
        Chip8Instruction::Sys(_nnn) => post == (Chip8View { pc: pc2, ..pre }),
        Chip8Instruction::Jp(nnn) => post == (Chip8View { pc: nnn, ..pre }),
        Chip8Instruction::Call(nnn) => post == (Chip8View {
            stack: pre.stack.update(pre.sp as int, pre.pc),
            sp: (pre.sp + 1) as u8,
            pc: nnn,
            ..pre
        }),
        Chip8Instruction::SeByte(x, kk) => post == (Chip8View {
            pc: if pre.v[x as int] == kk {
                (pre.pc + 4) as u16
            } else {
                pc2
            },
            ..pre
        }),
        Chip8Instruction::SneByte(x, kk) => post == (Chip8View {
            pc: if pre.v[x as int] != kk {
                (pre.pc + 4) as u16
            } else {
                pc2
            },
            ..pre
        }),
        Chip8Instruction::SeReg(x, y) => post == (Chip8View {
            pc: if pre.v[x as int] == pre.v[y as int] {
                (pre.pc + 4) as u16
            } else {
                pc2
            },
            ..pre
        }),
        Chip8Instruction::LdByte(x, kk) => post == (Chip8View {
            v: pre.v.update(x as int, kk),
            pc: pc2,
            ..pre
        }),
        Chip8Instruction::AddByte(x, kk) => post == (Chip8View {
            v: pre.v.update(x as int, spec_wrap_add_u8(pre.v[x as int], kk)),
            pc: pc2,
            ..pre
        }),
        Chip8Instruction::LdReg(x, y) => post == (Chip8View {
            v: pre.v.update(x as int, pre.v[y as int]),
            pc: pc2,
            ..pre
        }),
        Chip8Instruction::Or(x, y) => post == (Chip8View {
            v: pre.v.update(x as int, pre.v[x as int] | pre.v[y as int]),
            pc: pc2,
            ..pre
        }),
        Chip8Instruction::And(x, y) => post == (Chip8View {
            v: pre.v.update(x as int, pre.v[x as int] & pre.v[y as int]),
            pc: pc2,
            ..pre
        }),
        Chip8Instruction::Xor(x, y) => post == (Chip8View {
            v: pre.v.update(x as int, pre.v[x as int] ^ pre.v[y as int]),
            pc: pc2,
            ..pre
        }),
        Chip8Instruction::AddReg(x, y) => post == (Chip8View {
            v: pre.v.update(
                x as int,
                spec_wrap_add_u8(pre.v[x as int], pre.v[y as int]),
            ).update(15, spec_carry(pre.v[x as int], pre.v[y as int])),
            pc: pc2,
            ..pre
        }),
        Chip8Instruction::Sub(x, y) => post == (Chip8View {
            v: pre.v.update(
                x as int,
                spec_wrap_sub_u8(pre.v[x as int], pre.v[y as int]),
            ).update(15, spec_no_borrow(pre.v[x as int], pre.v[y as int])),
            pc: pc2,
            ..pre
        }),
        Chip8Instruction::Shr(x, _y) => post == (Chip8View {
            v: pre.v.update(x as int, pre.v[x as int] / 2).update(15, pre.v[x as int] % 2),
            pc: pc2,
            ..pre
        }),
        Chip8Instruction::Subn(x, y) => post == (Chip8View {
            v: pre.v.update(
                x as int,
                spec_wrap_sub_u8(pre.v[y as int], pre.v[x as int]),
            ).update(15, spec_no_borrow(pre.v[y as int], pre.v[x as int])),
            pc: pc2,
            ..pre
        }),
        Chip8Instruction::Shl(x, _y) => post == (Chip8View {
            v: pre.v.update(x as int, ((pre.v[x as int] * 2) % 256) as u8).update(
                15,
                pre.v[x as int] / 128,
            ),
            pc: pc2,
            ..pre
        }),
        Chip8Instruction::SneReg(x, y) => post == (Chip8View {
            pc: if pre.v[x as int] != pre.v[y as int] {
                (pre.pc + 4) as u16
            } else {
                pc2
            },
            ..pre
        }),
        Chip8Instruction::LdI(nnn) => post == (Chip8View { i: nnn, pc: pc2, ..pre }),
        Chip8Instruction::JpV0(nnn) => post == (Chip8View {
            pc: (pre.v[0] + nnn) as u16,
            ..pre
        }),
        Chip8Instruction::Rnd(x, kk) => post == (Chip8View {
            v: pre.v.update(x as int, rnd & kk),
            pc: pc2,
            ..pre
        }),
        Chip8Instruction::Drw(x, y, n) => {
            let sprite = pre.mem.subrange(pre.i as int, pre.i + n);
            let vx = pre.v[x as int];
            let vy = pre.v[y as int];
            &&& spec_draw_rel(pre.fb, post.fb, vx, vy, sprite)
            &&& post == (Chip8View {
                fb: post.fb,
                v: pre.v.update(
                    15,
                    if spec_draw_collision(pre.fb, vx, vy, sprite) {
                        1u8
                    } else {
                        0u8
                    },
                ),
                pc: pc2,
                ..pre
            })
        },
        Chip8Instruction::Skp(_x) => post == (Chip8View { pc: pc2, ..pre }),
        Chip8Instruction::Sknp(_x) => post == (Chip8View { pc: pc2, ..pre }),
        Chip8Instruction::LdFromDelay(x) => post == (Chip8View {
            v: pre.v.update(x as int, pre.delay),
            pc: pc2,
            ..pre
        }),
        Chip8Instruction::LdKey(_x) => post == (Chip8View { pc: pc2, ..pre }),
        Chip8Instruction::LdDelay(x) => post == (Chip8View {
            delay: pre.v[x as int],
            pc: pc2,
            ..pre
        }),
        Chip8Instruction::LdSound(x) => post == (Chip8View {
            sound: pre.v[x as int],
            pc: pc2,
            ..pre
        }),
        Chip8Instruction::AddI(x) => post == (Chip8View {
            i: spec_wrap_add_u16(pre.i, pre.v[x as int] as u16),
            pc: pc2,
            ..pre
        }),
        Chip8Instruction::LdFont(x) => post == (Chip8View {
            i: ((pre.v[x as int] % 16) * 5) as u16,
            pc: pc2,
            ..pre
        }),
        Chip8Instruction::LdBcd(x) => post == (Chip8View {
            mem: spec_bcd(pre.mem, pre.i as int, pre.v[x as int]),
            pc: pc2,
            ..pre
        }),
        Chip8Instruction::LdStore(x) => post == (Chip8View {
            mem: spec_store_regs(pre.mem, pre.v, pre.i as int, x as int),
            pc: pc2,
            ..pre
        }),
        Chip8Instruction::LdRead(x) => post == (Chip8View {
            v: spec_load_regs(pre.v, pre.mem, pre.i as int, x as int),
            pc: pc2,
            ..pre
        }),
        Chip8Instruction::Unknown(_inst) => false,
    }
}

/// Relies on rand::random: draws one byte from the thread-local generator.
/// Nothing is assumed about the value; callers must be correct for every
/// possible byte.
#[verifier::external_body]
fn random_byte() -> u8 {
    rand::random::<u8>()
}

/// The whole machine: memory pre-seeded with the font, the register file,
/// the framebuffer and the two timers.
#[derive(Debug)]
pub struct Chip8 {
    pub display: Chip8Display,
    pub memory: Chip8Memory,
    pub registers: Chip8Registers,
    pub timers: Chip8Timers,
}

impl View for Chip8 {
    type V = Chip8View;

    open spec fn view(&self) -> Chip8View {
        Chip8View {
            mem: self.memory.raw_array@,
            v: self.registers.general@,
            i: self.registers.memory_address,
            pc: self.registers.program_counter,
            sp: self.registers.stack_pointer,
            stack: self.registers.stack@,
            delay: self.timers.delay_timer,
            sound: self.timers.sound_timer,
            fb: self.display@,
        }
    }
}

impl Chip8 {
    pub open spec fn wf(&self) -> bool {
        &&& self.display.wf()
        &&& self.memory.wf()
        &&& self.registers.wf()
    }

    /// A fresh machine: font in low memory, registers zeroed, program counter
    /// at 0x200, display cleared, timers at zero. Loading a program is a
    /// separate step, so construction itself cannot fail.
    pub fn new() -> (c: Chip8)
        ensures
            c.wf(),
            c@ == spec_initial_state(),
    {
        let c = Chip8 {
            display: Chip8Display::new(),
            memory: Chip8Memory::new(),
            registers: Chip8Registers::new(),
            timers: Chip8Timers::new(),
        };
        proof {
            assert(c@ =~= spec_initial_state());
        }
        c
    }

    /// Loads a program image verbatim at 0x200. An image longer than the
    /// 3584 bytes between 0x200 and the end of memory is refused whole:
    /// nothing is written.
    pub fn load(&mut self, program: &Vec<u8>) -> (r: Result<(), Chip8Error>)
        requires
            old(self).wf(),
        ensures
            final(self).wf(),
            program@.len() <= 3584 ==> r == Ok::<(), Chip8Error>(()) && final(self)@ == (Chip8View {
                mem: spec_load_program(old(self)@.mem, program@),
                ..old(self)@
            }),
            program@.len() > 3584 ==> r == Err::<(), Chip8Error>(Chip8Error::ProgramTooLarge)
                && final(self)@ == old(self)@,
    {
        if program.len() > 3584 {
            return Err(Chip8Error::ProgramTooLarge);
        }
        let mut k: usize = 0;
        while k < program.len()
            invariant
                old(self).wf(),
                program@.len() <= 3584,
                k <= program@.len(),
                self.memory.raw_array@.len() == 4096,
                forall|j: int|
                    0 <= j < 4096 ==> #[trigger] self.memory.raw_array@[j] == (if 0x200 <= j
                        < 0x200 + k {
                        program@[j - 0x200]
                    } else {
                        old(self)@.mem[j]
                    }),
                self.display == old(self).display,
                self.registers == old(self).registers,
                self.timers == old(self).timers,
            decreases program@.len() - k,
        {
            self.memory.raw_array[0x200 + k] = program[k];
            k = k + 1;
        }
        proof {
            assert(self.memory.raw_array@ =~= spec_load_program(old(self)@.mem, program@));
            assert(self@ =~= (Chip8View { mem: spec_load_program(old(self)@.mem, program@), ..old(
                self,
            )@ }));
        }
        Ok(())
    }

    /// Executes the instruction at the program counter, with `rnd` standing
    /// in for the byte that the RND instruction consumes, so the effect is
    /// pinned for every input. On success the decoded instruction that was
    /// executed is returned, for tracing; on a fault the machine is left
    /// exactly as it was.
    pub fn run_next_with(&mut self, rnd: u8) -> (r: Result<Chip8Instruction, Chip8Error>)
        requires
            old(self).wf(),
        ensures
            final(self).wf(),
            match r {
                Ok(inst) => {
                    &&& spec_step_error(old(self)@) is None
                    &&& inst == spec_decode(spec_fetch(old(self)@))
                    &&& spec_step_effect(old(self)@, final(self)@, rnd)
                },
                Err(e) => {
                    &&& spec_step_error(old(self)@) == Some(e)
                    &&& final(self)@ == old(self)@
                },
            },
    {
        let pc = self.registers.program_counter;
        if pc >= 4095 {
            return Err(Chip8Error::AddressOutOfRange);
        }
        let hi = self.memory.raw_array[pc as usize];
        let lo = self.memory.raw_array[pc as usize + 1];
        let word: u16 = (hi as u16) * 256 + (lo as u16);
        proof {
            assert(word == spec_fetch(old(self)@));
        }
        let decoded = decode(word);
        match decoded {
            Chip8Instruction::Cls => {
                self.display.clear();
                self.registers.program_counter = pc + 2;
                proof {
                    assert(self@ =~= (Chip8View {
                        fb: spec_blank_fb(),
                        pc: (old(self)@.pc + 2) as u16,
                        ..old(self)@
                    }));
                }
                Ok(decoded)
            },
            Chip8Instruction::Ret => {
                let sp = self.registers.stack_pointer;
                if sp == 0 {
                    return Err(Chip8Error::StackUnderflow);
                }
                let ra = self.registers.stack[(sp - 1) as usize];
                self.registers.program_counter = ((ra as u32 + 2) % 0x10000) as u16;
                self.registers.stack_pointer = sp - 1;
                proof {
                    assert(self@ =~= (Chip8View {
                        pc: spec_wrap_add_u16(old(self)@.stack[old(self)@.sp - 1], 2),
                        sp: (old(self)@.sp - 1) as u8,
                        ..old(self)@
                    }));
                }
                Ok(decoded)
            },
            Chip8Instruction::Sys(_nnn) => {
                self.registers.program_counter = pc + 2;
                proof {
                    assert(self@ =~= (Chip8View { pc: (old(self)@.pc + 2) as u16, ..old(self)@ }));
                }
                Ok(decoded)
            },
            Chip8Instruction::Jp(nnn) => {
                self.registers.program_counter = nnn;
                proof {
                    assert(self@ =~= (Chip8View { pc: nnn, ..old(self)@ }));
                }
                Ok(decoded)
            },
            Chip8Instruction::Call(nnn) => {
                let sp = self.registers.stack_pointer;
                if sp >= 16 {
                    return Err(Chip8Error::StackOverflow);
                }
                self.registers.stack[sp as usize] = pc;
                self.registers.stack_pointer = sp + 1;
                self.registers.program_counter = nnn;
                proof {
                    assert(self@ =~= (Chip8View {
                        stack: old(self)@.stack.update(old(self)@.sp as int, old(self)@.pc),
                        sp: (old(self)@.sp + 1) as u8,
                        pc: nnn,
                        ..old(self)@
                    }));
                }
                Ok(decoded)
            },
            Chip8Instruction::SeByte(x, kk) => {
                if self.registers.general[x as usize] == kk {
                    self.registers.program_counter = pc + 4;
                } else {
                    self.registers.program_counter = pc + 2;
                }
                Ok(decoded)
            },
            Chip8Instruction::SneByte(x, kk) => {
                if self.registers.general[x as usize] != kk {
                    self.registers.program_counter = pc + 4;
                } else {
                    self.registers.program_counter = pc + 2;
                }
                Ok(decoded)
            },
            Chip8Instruction::SeReg(x, y) => {
                if self.registers.general[x as usize] == self.registers.general[y as usize] {
                    self.registers.program_counter = pc + 4;
                } else {
                    self.registers.program_counter = pc + 2;
                }
                Ok(decoded)
            },
            Chip8Instruction::LdByte(x, kk) => {
                self.registers.general[x as usize] = kk;
                self.registers.program_counter = pc + 2;
                Ok(decoded)
            },
            Chip8Instruction::AddByte(x, kk) => {
                let a = self.registers.general[x as usize];
                let sum: u16 = a as u16 + kk as u16;
                self.registers.general[x as usize] = (sum % 256) as u8;
                self.registers.program_counter = pc + 2;
                Ok(decoded)
            },
            Chip8Instruction::LdReg(x, y) => {
                let b = self.registers.general[y as usize];
                self.registers.general[x as usize] = b;
                self.registers.program_counter = pc + 2;
                Ok(decoded)
            },
            Chip8Instruction::Or(x, y) => {
                let a = self.registers.general[x as usize];
                let b = self.registers.general[y as usize];
                self.registers.general[x as usize] = a | b;
                self.registers.program_counter = pc + 2;
                Ok(decoded)
            },
            Chip8Instruction::And(x, y) => {
                let a = self.registers.general[x as usize];
                let b = self.registers.general[y as usize];
                self.registers.general[x as usize] = a & b;
                self.registers.program_counter = pc + 2;
                Ok(decoded)
            },
            Chip8Instruction::Xor(x, y) => {
                let a = self.registers.general[x as usize];
                let b = self.registers.general[y as usize];
                self.registers.general[x as usize] = a ^ b;
                self.registers.program_counter = pc + 2;
                Ok(decoded)
            },
            Chip8Instruction::AddReg(x, y) => {
                let a = self.registers.general[x as usize];
                let b = self.registers.general[y as usize];
                let sum: u16 = a as u16 + b as u16;
                self.registers.general[x as usize] = (sum % 256) as u8;
                self.registers.general[15] = if sum > 255 {
                    1
                } else {
                    0
                };
                self.registers.program_counter = pc + 2;
                Ok(decoded)
            },
            Chip8Instruction::Sub(x, y) => {
                let a = self.registers.general[x as usize];
                let b = self.registers.general[y as usize];
                let diff: u16 = (a as u16 + 256 - b as u16) % 256;
                self.registers.general[x as usize] = diff as u8;
                self.registers.general[15] = if a >= b {
                    1
                } else {
                    0
                };
                self.registers.program_counter = pc + 2;
                Ok(decoded)
            },
            Chip8Instruction::Shr(x, _y) => {
                let a = self.registers.general[x as usize];
                self.registers.general[x as usize] = a / 2;
                self.registers.general[15] = a % 2;
                self.registers.program_counter = pc + 2;
                Ok(decoded)
            },
            Chip8Instruction::Subn(x, y) => {
                let a = self.registers.general[x as usize];
                let b = self.registers.general[y as usize];
                let diff: u16 = (b as u16 + 256 - a as u16) % 256;
                self.registers.general[x as usize] = diff as u8;
                self.registers.general[15] = if b >= a {
                    1
                } else {
                    0
                };
                self.registers.program_counter = pc + 2;
                Ok(decoded)
            },
            Chip8Instruction::Shl(x, _y) => {
                let a = self.registers.general[x as usize];
                self.registers.general[x as usize] = ((a as u16 * 2) % 256) as u8;
                self.registers.general[15] = a / 128;
                self.registers.program_counter = pc + 2;
                Ok(decoded)
            },
            Chip8Instruction::SneReg(x, y) => {
                if self.registers.general[x as usize] != self.registers.general[y as usize] {
                    self.registers.program_counter = pc + 4;
                } else {
                    self.registers.program_counter = pc + 2;
                }
                Ok(decoded)
            },
            Chip8Instruction::LdI(nnn) => {
                self.registers.memory_address = nnn;
                self.registers.program_counter = pc + 2;
                Ok(decoded)
            },
            Chip8Instruction::JpV0(nnn) => {
                let v0 = self.registers.general[0];
                self.registers.program_counter = v0 as u16 + nnn;
                proof {
                    assert(self@ =~= (Chip8View {
                        pc: (old(self)@.v[0] + nnn) as u16,
                        ..old(self)@
                    }));
                }
                Ok(decoded)
            },
            Chip8Instruction::Rnd(x, kk) => {
                self.registers.general[x as usize] = rnd & kk;
                self.registers.program_counter = pc + 2;
                Ok(decoded)
            },
            Chip8Instruction::Drw(x, y, n) => {
                let i_addr = self.registers.memory_address as usize;
                if i_addr + n as usize > 4096 {
                    return Err(Chip8Error::AddressOutOfRange);
                }
                let mut sprite: Vec<u8> = Vec::new();
                let mut k: usize = 0;
                while k < n as usize
                    invariant
                        *self == *old(self),
                        old(self).wf(),
                        i_addr == old(self)@.i,
                        i_addr + (n as usize) <= 4096,
                        k <= (n as usize),
                        sprite@.len() == k,
                        forall|j: int| 0 <= j < k ==> sprite@[j] == old(self)@.mem[i_addr + j],
                    decreases (n as usize) - k,
                {
                    sprite.push(self.memory.raw_array[i_addr + k]);
                    k = k + 1;
                }
                proof {
                    assert(sprite@ =~= old(self)@.mem.subrange(
                        i_addr as int,
                        i_addr as int + n as int,
                    ));
                }
                let vx = self.registers.general[x as usize];
                let vy = self.registers.general[y as usize];
                let collision = self.display.draw(vx, vy, &sprite);
                self.registers.general[15] = if collision {
                    1
                } else {
                    0
                };
                self.registers.program_counter = pc + 2;
                proof {
                    let spr = old(self)@.mem.subrange(i_addr as int, i_addr as int + n as int);
                    let flag: u8 = if spec_draw_collision(old(self)@.fb, old(self)@.v[x as int],
                        old(self)@.v[y as int], spr) {
                        1u8
                    } else {
                        0u8
                    };
                    assert(self@ =~= (Chip8View {
                        fb: self@.fb,
                        v: old(self)@.v.update(15, flag),
                        pc: (old(self)@.pc + 2) as u16,
                        ..old(self)@
                    }));
                }
                Ok(decoded)
            },
            Chip8Instruction::Skp(_x) => {
                // Key-conditional skips are kept as documented no-ops, matching
                // the behaviour this machine exposes.
                self.registers.program_counter = pc + 2;
                Ok(decoded)
            },
            Chip8Instruction::Sknp(_x) => {
                self.registers.program_counter = pc + 2;
                Ok(decoded)
            },
            Chip8Instruction::LdFromDelay(x) => {
                let d = self.timers.delay_timer;
                self.registers.general[x as usize] = d;
                self.registers.program_counter = pc + 2;
                Ok(decoded)
            },
            Chip8Instruction::LdKey(_x) => {
                // Wait-for-key is kept as a documented no-op, matching the
                // behaviour this machine exposes.
                self.registers.program_counter = pc + 2;
                Ok(decoded)
            },
            Chip8Instruction::LdDelay(x) => {
                let a = self.registers.general[x as usize];
                self.timers.delay_timer = a;
                self.registers.program_counter = pc + 2;
                Ok(decoded)
            },
            Chip8Instruction::LdSound(x) => {
                let a = self.registers.general[x as usize];
                self.timers.sound_timer = a;
                self.registers.program_counter = pc + 2;
                Ok(decoded)
            },
            Chip8Instruction::AddI(x) => {
                let a = self.registers.general[x as usize];
                let cur = self.registers.memory_address;
                self.registers.memory_address = ((cur as u32 + a as u32) % 0x10000) as u16;
                self.registers.program_counter = pc + 2;
                Ok(decoded)
            },
            Chip8Instruction::LdFont(x) => {
                let a = self.registers.general[x as usize];
                self.registers.memory_address = ((a % 16) * 5) as u16;
                self.registers.program_counter = pc + 2;
                Ok(decoded)
            },
            Chip8Instruction::LdBcd(x) => {
                let i_addr = self.registers.memory_address as usize;
                if i_addr + 2 >= 4096 {
                    return Err(Chip8Error::AddressOutOfRange);
                }
                let a = self.registers.general[x as usize];
                self.memory.raw_array[i_addr] = a / 100;
                self.memory.raw_array[i_addr + 1] = a / 10 % 10;
                self.memory.raw_array[i_addr + 2] = a % 10;
                self.registers.program_counter = pc + 2;
                proof {
                    assert(self@ =~= (Chip8View {
                        mem: spec_bcd(old(self)@.mem, old(self)@.i as int, old(self)@.v[x as int]),
                        pc: (old(self)@.pc + 2) as u16,
                        ..old(self)@
                    }));
                }
                Ok(decoded)
            },
            Chip8Instruction::LdStore(x) => {
                let i_addr = self.registers.memory_address as usize;
                if i_addr + x as usize >= 4096 {
                    return Err(Chip8Error::AddressOutOfRange);
                }
                let mut d: usize = 0;
                while d <= x as usize
                    invariant
                        old(self).wf(),
                        x < 16,
                        i_addr == old(self)@.i,
                        i_addr + (x as usize) < 4096,
                        d <= (x as usize) + 1,
                        self.memory.raw_array@.len() == 4096,
                        forall|j: int|
                            0 <= j < 4096 ==> #[trigger] self.memory.raw_array@[j] == (if i_addr
                                <= j < i_addr + d {
                                old(self)@.v[j - i_addr]
                            } else {
                                old(self)@.mem[j]
                            }),
                        self.display == old(self).display,
                        self.registers == old(self).registers,
                        self.timers == old(self).timers,
                    decreases (x as usize) + 1 - d,
                {
                    let a = self.registers.general[d];
                    self.memory.raw_array[i_addr + d] = a;
                    d = d + 1;
                }
                self.registers.program_counter = pc + 2;
                proof {
                    assert(self.memory.raw_array@ =~= spec_store_regs(
                        old(self)@.mem,
                        old(self)@.v,
                        old(self)@.i as int,
                        x as int,
                    ));
                    assert(self@ =~= (Chip8View {
                        mem: spec_store_regs(
                            old(self)@.mem,
                            old(self)@.v,
                            old(self)@.i as int,
                            x as int,
                        ),
                        pc: (old(self)@.pc + 2) as u16,
                        ..old(self)@
                    }));
                }
                Ok(decoded)
            },
            Chip8Instruction::LdRead(x) => {
                let i_addr = self.registers.memory_address as usize;
                if i_addr + x as usize >= 4096 {
                    return Err(Chip8Error::AddressOutOfRange);
                }
                let mut d: usize = 0;
                while d <= x as usize
                    invariant
                        old(self).wf(),
                        x < 16,
                        i_addr == old(self)@.i,
                        i_addr + (x as usize) < 4096,
                        d <= (x as usize) + 1,
                        self.registers.general@.len() == 16,
                        forall|j: int|
                            0 <= j < 16 ==> #[trigger] self.registers.general@[j] == (if 0 <= j
                                < d {
                                old(self)@.mem[i_addr + j]
                            } else {
                                old(self)@.v[j]
                            }),
                        self.display == old(self).display,
                        self.memory == old(self).memory,
                        self.timers == old(self).timers,
                        self.registers.memory_address == old(self).registers.memory_address,
                        self.registers.special == old(self).registers.special,
                        self.registers.program_counter == old(self).registers.program_counter,
                        self.registers.stack_pointer == old(self).registers.stack_pointer,
                        self.registers.stack == old(self).registers.stack,
                    decreases (x as usize) + 1 - d,
                {
                    let a = self.memory.raw_array[i_addr + d];
                    self.registers.general[d] = a;
                    d = d + 1;
                }
                self.registers.program_counter = pc + 2;
                proof {
                    assert(self.registers.general@ =~= spec_load_regs(
                        old(self)@.v,
                        old(self)@.mem,
                        old(self)@.i as int,
                        x as int,
                    ));
                    assert(self@ =~= (Chip8View {
                        v: spec_load_regs(
                            old(self)@.v,
                            old(self)@.mem,
                            old(self)@.i as int,
                            x as int,
                        ),
                        pc: (old(self)@.pc + 2) as u16,
                        ..old(self)@
                    }));
                }
                Ok(decoded)
            },
            Chip8Instruction::Unknown(_inst) => Err(Chip8Error::UnimplementedOpcode),
        }
    }

    /// Executes the instruction at the program counter. The byte that the RND
    /// instruction consumes is drawn from the random generator here; every
    /// other instruction's effect is independent of it.
    pub fn run_next(&mut self) -> (r: Result<Chip8Instruction, Chip8Error>)
        requires
            old(self).wf(),
        ensures
            final(self).wf(),
            match r {
                Ok(inst) => {
                    &&& spec_step_error(old(self)@) is None
                    &&& inst == spec_decode(spec_fetch(old(self)@))
                    &&& exists|rnd: u8| spec_step_effect(old(self)@, final(self)@, rnd)
                },
                Err(e) => {
                    &&& spec_step_error(old(self)@) == Some(e)
                    &&& final(self)@ == old(self)@
                },
            },
    {
        let rnd = random_byte();
        let r = self.run_next_with(rnd);
        proof {
            if r is Ok {
                assert(spec_step_effect(old(self)@, self@, rnd));
            }
        }
        r
    }

    /// Confirms at run time that the machine state has its documented sizes,
    /// so unverified callers can check the precondition of the step
    /// functions.
    pub fn check_wf(&self) -> (b: bool)
        ensures
            b == self.wf(),
    {
        self.display.check_wf() && self.memory.raw_array.len() == 4096
            && self.registers.general.len() == 16 && self.registers.special.len() == 2
            && self.registers.stack.len() == 16 && self.registers.stack_pointer <= 16
    }
}

/// Memory after loading a program image at 0x200.
pub open spec fn spec_load_program(mem: Seq<u8>, program: Seq<u8>) -> Seq<u8> {
    Seq::new(4096, |k: int| if 0x200 <= k < 0x200 + program.len() {
        program[k - 0x200]
    } else {
        mem[k]
    })
}

/// ADD Vx,Vy: for all register contents a and b, VF is set to 1 exactly when
/// a + b exceeds 255, and Vx receives (a + b) mod 256. The flag register
/// itself is excluded as destination: there the flag write lands on top of
/// the sum.
pub proof fn lemma_add_reg_carry(pre: Chip8View, post: Chip8View, rnd: u8, x: u8, y: u8)
    requires
        spec_view_wf(pre),
        pre.pc + 1 < 4096,
        spec_decode(spec_fetch(pre)) == Chip8Instruction::AddReg(x, y),
        x < 15,
        y < 16,
        spec_step_effect(pre, post, rnd),
    ensures
        post.v[x as int] == (pre.v[x as int] + pre.v[y as int]) % 256,
        post.v[15] == (if pre.v[x as int] + pre.v[y as int] > 255 {
            1u8
        } else {
            0u8
        }),
{
}

/// SUB Vx,Vy: for all register contents a and b, VF is set to 1 exactly when
/// a >= b (no borrow), and the destination is always written with the
/// wrapped difference (a - b) mod 256, borrow or not - the write-always
/// policy, fixed here. The flag register itself is excluded as destination:
/// there the flag write lands on top of the difference.
pub proof fn lemma_sub_reg_not_borrow(pre: Chip8View, post: Chip8View, rnd: u8, x: u8, y: u8)
    requires
        spec_view_wf(pre),
        pre.pc + 1 < 4096,
        spec_decode(spec_fetch(pre)) == Chip8Instruction::Sub(x, y),
        x < 15,
        y < 16,
        spec_step_effect(pre, post, rnd),
    ensures
        post.v[x as int] == (pre.v[x as int] - pre.v[y as int] + 256) % 256,
        post.v[15] == (if pre.v[x as int] >= pre.v[y as int] {
            1u8
        } else {
            0u8
        }),
{
}

/// Round trip of the register block transfers: storing V0 through Vx at I
/// with LD [I],Vx and then reading them back with LD Vx,[I] - even into a
/// register bank holding anything - restores exactly the stored registers,
/// for every x in 0..16.
pub proof fn lemma_store_load_round_trip(mem: Seq<u8>, v: Seq<u8>, w: Seq<u8>, i: int, x: int)
    requires
        mem.len() == 4096,
        v.len() == 16,
        w.len() == 16,
        0 <= x < 16,
        0 <= i,
        i + x < 4096,
    ensures
        forall|d: int|
            0 <= d <= x ==> #[trigger] spec_load_regs(w, spec_store_regs(mem, v, i, x), i, x)[d]
                == v[d],
{
    assert forall|d: int|
        0 <= d <= x implies #[trigger] spec_load_regs(w, spec_store_regs(mem, v, i, x), i, x)[d]
        == v[d] by {
        assert(spec_store_regs(mem, v, i, x)[i + d] == v[d]);
    }
}

} // verus!
