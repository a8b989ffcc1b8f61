use vstd::prelude::*;

verus! {

/// One decoded CHIP-8 operation. A 16-bit instruction word is decoded by its
/// top nibble and, where that family needs it, by further nibbles; `x` and
/// `y` name general registers, `kk` is an immediate byte, the 12-bit address
/// immediates and the sprite height nibble are carried as given. Encodings
/// outside the documented table decode to `Unknown`, carrying the word.
#[derive(Clone, Copy, Debug, PartialEq, Eq, Structural)]
pub enum Chip8Instruction {
    /// 00E0: clear the display.
    Cls,
    /// 00EE: return from a subroutine.
    Ret,
    /// 0nnn: jump to a machine code routine; ignored by modern interpreters.
    Sys(u16),
    /// 1nnn: jump.
    Jp(u16),
    /// 2nnn: call a subroutine.
    Call(u16),
    /// 3xkk: skip the next instruction if Vx == kk.
    SeByte(u8, u8),
    /// 4xkk: skip the next instruction if Vx != kk.
    SneByte(u8, u8),
    /// 5xy0: skip the next instruction if Vx == Vy.
    SeReg(u8, u8),
    /// 6xkk: Vx = kk.
    LdByte(u8, u8),
    /// 7xkk: Vx = Vx + kk, wrapping, flags untouched.
    AddByte(u8, u8),
    /// 8xy0: Vx = Vy.
    LdReg(u8, u8),
    /// 8xy1: Vx = Vx | Vy.
    Or(u8, u8),
    /// 8xy2: Vx = Vx & Vy.
    And(u8, u8),
    /// 8xy3: Vx = Vx ^ Vy.
    Xor(u8, u8),
    /// 8xy4: Vx = Vx + Vy wrapping, VF = carry.
    AddReg(u8, u8),
    /// 8xy5: Vx = Vx - Vy wrapping, VF = 1 exactly when no borrow (Vx >= Vy).
    Sub(u8, u8),
    /// 8xy6: VF = least significant bit of Vx, then Vx = Vx / 2.
    Shr(u8, u8),
    /// 8xy7: Vx = Vy - Vx wrapping, VF = 1 exactly when no borrow (Vy >= Vx).
    Subn(u8, u8),
    /// 8xyE: VF = most significant bit of Vx, then Vx = Vx * 2 wrapping.
    Shl(u8, u8),
    /// 9xy0: skip the next instruction if Vx != Vy.
    SneReg(u8, u8),
    /// Annn: I = nnn.
    LdI(u16),
    /// Bnnn: jump to nnn + V0.
    JpV0(u16),
    /// Cxkk: Vx = random byte & kk.
    Rnd(u8, u8),
    /// Dxyn: draw the n-byte sprite at memory address I at (Vx, Vy), VF =
    /// collision.
    Drw(u8, u8, u8),
    /// Ex9E: skip if the key in Vx is down; kept as a documented no-op here.
    Skp(u8),
    /// ExA1: skip if the key in Vx is up; kept as a documented no-op here.
    Sknp(u8),
    /// Fx07: Vx = delay timer.
    LdFromDelay(u8),
    /// Fx0A: wait for a key press; kept as a documented no-op here.
    LdKey(u8),
    /// Fx15: delay timer = Vx.
    LdDelay(u8),
    /// Fx18: sound timer = Vx.
    LdSound(u8),
    /// Fx1E: I = I + Vx, wrapping.
    AddI(u8),
    /// Fx29: I = address of the font glyph for the low nibble of Vx.
    LdFont(u8),
    /// Fx33: store the three decimal digits of Vx at I, I+1, I+2.
    LdBcd(u8),
    /// Fx55: store V0 through Vx at I onward.
    LdStore(u8),
    /// Fx65: load V0 through Vx from I onward.
    LdRead(u8),
    /// An encoding outside the documented table.
    Unknown(u16),
}

/// Composes two consecutive memory bytes, big-endian, into one instruction
/// word.
pub open spec fn spec_word(hi: u8, lo: u8) -> u16 {
    (hi * 256 + lo) as u16
}

/// The decode table: maps an instruction word to the operation it encodes.
pub open spec fn spec_decode(inst: u16) -> Chip8Instruction {
    let op = inst / 0x1000;
    let x = ((inst / 0x100) % 0x10) as u8;
    let y = ((inst / 0x10) % 0x10) as u8;
    let kk = (inst % 0x100) as u8;
    let nnn = inst % 0x1000;
    let n = (inst % 0x10) as u8;
    if op == 0x0 {
        if inst == 0x00E0 {
            Chip8Instruction::Cls
        } else if inst == 0x00EE {
            Chip8Instruction::Ret
        } else {
            Chip8Instruction::Sys(nnn)
        }
    } else if op == 0x1 {
        Chip8Instruction::Jp(nnn)
    } else if op == 0x2 {
        Chip8Instruction::Call(nnn)
    } else if op == 0x3 {
        Chip8Instruction::SeByte(x, kk)
    } else if op == 0x4 {
        Chip8Instruction::SneByte(x, kk)
    } else if op == 0x5 {
        if n == 0 {
            Chip8Instruction::SeReg(x, y)
        } else {
            Chip8Instruction::Unknown(inst)
        }
    } else if op == 0x6 {
        Chip8Instruction::LdByte(x, kk)
    } else if op == 0x7 {
        Chip8Instruction::AddByte(x, kk)
    } else if op == 0x8 {
        if n == 0x0 {
            Chip8Instruction::LdReg(x, y)
        } else if n == 0x1 {
            Chip8Instruction::Or(x, y)
        } else if n == 0x2 {
            Chip8Instruction::And(x, y)
        } else if n == 0x3 {
            Chip8Instruction::Xor(x, y)
        } else if n == 0x4 {
            Chip8Instruction::AddReg(x, y)
        } else if n == 0x5 {
            Chip8Instruction::Sub(x, y)
        } else if n == 0x6 {
            Chip8Instruction::Shr(x, y)
        } else if n == 0x7 {
            Chip8Instruction::Subn(x, y)
        } else if n == 0xE {
            Chip8Instruction::Shl(x, y)
        } else {
            Chip8Instruction::Unknown(inst)
        }
    } else if op == 0x9 {
        if n == 0 {
            Chip8Instruction::SneReg(x, y)
        } else {
            Chip8Instruction::Unknown(inst)
        }
    } else if op == 0xA {
        Chip8Instruction::LdI(nnn)
    } else if op == 0xB {
        Chip8Instruction::JpV0(nnn)
    } else if op == 0xC {
        Chip8Instruction::Rnd(x, kk)
    } else if op == 0xD {
        Chip8Instruction::Drw(x, y, n)
    } else if op == 0xE {
        if kk == 0x9E {
            Chip8Instruction::Skp(x)
        } else if kk == 0xA1 {
            Chip8Instruction::Sknp(x)
        } else {
            Chip8Instruction::Unknown(inst)
        }
    } else {
        if kk == 0x07 {
            Chip8Instruction::LdFromDelay(x)
        } else if kk == 0x0A {
            Chip8Instruction::LdKey(x)
        } else if kk == 0x15 {
            Chip8Instruction::LdDelay(x)
        } else if kk == 0x18 {
            Chip8Instruction::LdSound(x)
        } else if kk == 0x1E {
            Chip8Instruction::AddI(x)
        } else if kk == 0x29 {
            Chip8Instruction::LdFont(x)
        } else if kk == 0x33 {
            Chip8Instruction::LdBcd(x)
        } else if kk == 0x55 {
            Chip8Instruction::LdStore(x)
        } else if kk == 0x65 {
            Chip8Instruction::LdRead(x)
        } else {
            Chip8Instruction::Unknown(inst)
        }
    }
}

/// The field ranges decoding guarantees: register indices are nibbles, so
/// they are below 16; address immediates are below 4096; sprite heights are
/// below 16.
pub open spec fn spec_decoded_bounds(i: Chip8Instruction) -> bool {
    match i {
        Chip8Instruction::Cls => true,
        Chip8Instruction::Ret => true,
        Chip8Instruction::Sys(nnn) => nnn < 4096,
        Chip8Instruction::Jp(nnn) => nnn < 4096,
        Chip8Instruction::Call(nnn) => nnn < 4096,
        Chip8Instruction::SeByte(x, _kk) => x < 16,
        Chip8Instruction::SneByte(x, _kk) => x < 16,
        Chip8Instruction::SeReg(x, y) => x < 16 && y < 16,
        Chip8Instruction::LdByte(x, _kk) => x < 16,
        Chip8Instruction::AddByte(x, _kk) => x < 16,
        Chip8Instruction::LdReg(x, y) => x < 16 && y < 16,
        Chip8Instruction::Or(x, y) => x < 16 && y < 16,
        Chip8Instruction::And(x, y) => x < 16 && y < 16,
        Chip8Instruction::Xor(x, y) => x < 16 && y < 16,
        Chip8Instruction::AddReg(x, y) => x < 16 && y < 16,
        Chip8Instruction::Sub(x, y) => x < 16 && y < 16,
        Chip8Instruction::Shr(x, y) => x < 16 && y < 16,
        Chip8Instruction::Subn(x, y) => x < 16 && y < 16,
        Chip8Instruction::Shl(x, y) => x < 16 && y < 16,
        Chip8Instruction::SneReg(x, y) => x < 16 && y < 16,
        Chip8Instruction::LdI(nnn) => nnn < 4096,
        Chip8Instruction::JpV0(nnn) => nnn < 4096,
        Chip8Instruction::Rnd(x, _kk) => x < 16,
        Chip8Instruction::Drw(x, y, n) => x < 16 && y < 16 && n < 16,
        Chip8Instruction::Skp(x) => x < 16,
        Chip8Instruction::Sknp(x) => x < 16,
        Chip8Instruction::LdFromDelay(x) => x < 16,
        Chip8Instruction::LdKey(x) => x < 16,
        Chip8Instruction::LdDelay(x) => x < 16,
        Chip8Instruction::LdSound(x) => x < 16,
        Chip8Instruction::AddI(x) => x < 16,
        Chip8Instruction::LdFont(x) => x < 16,
        Chip8Instruction::LdBcd(x) => x < 16,
        Chip8Instruction::LdStore(x) => x < 16,
        Chip8Instruction::LdRead(x) => x < 16,
        Chip8Instruction::Unknown(_inst) => true,
    }
}

/// Decodes one instruction word.
pub fn decode(inst: u16) -> (i: Chip8Instruction)
    ensures
        i == spec_decode(inst),
        spec_decoded_bounds(i),
{
    let op = inst / 0x1000;
    let x = ((inst / 0x100) % 0x10) as u8;
    let y = ((inst / 0x10) % 0x10) as u8;
    let kk = (inst % 0x100) as u8;
    let nnn = inst % 0x1000;
    let n = (inst % 0x10) as u8;
    if op == 0x0 {
        if inst == 0x00E0 {
            Chip8Instruction::Cls
        } else if inst == 0x00EE {
            Chip8Instruction::Ret
        } else {
            Chip8Instruction::Sys(nnn)
        }
    } else if op == 0x1 {
        Chip8Instruction::Jp(nnn)
    } else if op == 0x2 {
        Chip8Instruction::Call(nnn)
    } else if op == 0x3 {
        Chip8Instruction::SeByte(x, kk)
    } else if op == 0x4 {
        Chip8Instruction::SneByte(x, kk)
    } else if op == 0x5 {
        if n == 0 {
            Chip8Instruction::SeReg(x, y)
        } else {
            Chip8Instruction::Unknown(inst)
        }
    } else if op == 0x6 {
        Chip8Instruction::LdByte(x, kk)
    } else if op == 0x7 {
        Chip8Instruction::AddByte(x, kk)
    } else if op == 0x8 {
        if n == 0x0 {
            Chip8Instruction::LdReg(x, y)
        } else if n == 0x1 {
            Chip8Instruction::Or(x, y)
        } else if n == 0x2 {
            Chip8Instruction::And(x, y)
        } else if n == 0x3 {
            Chip8Instruction::Xor(x, y)
        } else if n == 0x4 {
            Chip8Instruction::AddReg(x, y)
        } else if n == 0x5 {
            Chip8Instruction::Sub(x, y)
        } else if n == 0x6 {
            Chip8Instruction::Shr(x, y)
        } else if n == 0x7 {
            Chip8Instruction::Subn(x, y)
        } else if n == 0xE {
            Chip8Instruction::Shl(x, y)
        } else {
            Chip8Instruction::Unknown(inst)
        }
    } else if op == 0x9 {
        if n == 0 {
            Chip8Instruction::SneReg(x, y)
        } else {
            Chip8Instruction::Unknown(inst)
        }
    } else if op == 0xA {
        Chip8Instruction::LdI(nnn)
    } else if op == 0xB {
        Chip8Instruction::JpV0(nnn)
    } else if op == 0xC {
        Chip8Instruction::Rnd(x, kk)
    } else if op == 0xD {
        Chip8Instruction::Drw(x, y, n)
    } else if op == 0xE {
        if kk == 0x9E {
            Chip8Instruction::Skp(x)
        } else if kk == 0xA1 {
            Chip8Instruction::Sknp(x)
        } else {
            Chip8Instruction::Unknown(inst)
        }
    } else {
        if kk == 0x07 {
            Chip8Instruction::LdFromDelay(x)
        } else if kk == 0x0A {
            Chip8Instruction::LdKey(x)
        } else if kk == 0x15 {
            Chip8Instruction::LdDelay(x)
        } else if kk == 0x18 {
            Chip8Instruction::LdSound(x)
        } else if kk == 0x1E {
            Chip8Instruction::AddI(x)
        } else if kk == 0x29 {
            Chip8Instruction::LdFont(x)
        } else if kk == 0x33 {
            Chip8Instruction::LdBcd(x)
        } else if kk == 0x55 {
            Chip8Instruction::LdStore(x)
        } else if kk == 0x65 {
            Chip8Instruction::LdRead(x)
        } else {
            Chip8Instruction::Unknown(inst)
        }
    }
}

/// The operations encoded by a stream of bytes taken as consecutive
/// big-endian 16-bit words; a trailing odd byte is ignored.
pub open spec fn spec_decode_stream(bytes: Seq<u8>) -> Seq<Chip8Instruction> {
    Seq::new(bytes.len() / 2, |k: int| spec_decode(spec_word(bytes[2 * k], bytes[2 * k + 1])))
}

/// Decodes whole programs into their operation listing, for disassembly and
/// debugging; how the listing is rendered belongs to the caller.
#[derive(Debug)]
pub struct Chip8InstructionDecoder {
    pub decoded_instructions: Vec<Chip8Instruction>,
}

impl Chip8InstructionDecoder {
    /// A decoder with an empty listing.
    pub fn new() -> (d: Chip8InstructionDecoder)
        ensures
            d.decoded_instructions@ == Seq::<Chip8Instruction>::empty(),
    {
        let d = Chip8InstructionDecoder { decoded_instructions: Vec::new() };
        proof {
            assert(d.decoded_instructions@ =~= Seq::<Chip8Instruction>::empty());
        }
        d
    }

    /// Appends the decoding of a program image (a file's contents) to the
    /// listing.
    pub fn decode_file(&mut self, contents: &Vec<u8>)
        ensures
            final(self).decoded_instructions@ == old(self).decoded_instructions@
                + spec_decode_stream(contents@),
    {
        let n = contents.len() / 2;
        let mut k: usize = 0;
        while k < n
            invariant
                n == contents@.len() / 2,
                contents@.len() <= usize::MAX,
                k <= n,
                self.decoded_instructions@.len() == old(self).decoded_instructions@.len() + k,
                forall|j: int|
                    0 <= j < old(self).decoded_instructions@.len() ==> self.decoded_instructions@[j]
                        == old(self).decoded_instructions@[j],
                forall|j: int|
                    0 <= j < k ==> self.decoded_instructions@[old(
                        self,
                    ).decoded_instructions@.len() + j] == spec_decode_stream(contents@)[j],
            decreases n - k,
        {
            let hi = contents[2 * k];
            let lo = contents[2 * k + 1];
            let word: u16 = (hi as u16) * 256 + (lo as u16);
            self.decoded_instructions.push(decode(word));
            k = k + 1;
        }
        proof {
            assert(self.decoded_instructions@ =~= old(self).decoded_instructions@
                + spec_decode_stream(contents@));
        }
    }
}

} // verus!
