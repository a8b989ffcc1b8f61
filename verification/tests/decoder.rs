use chip8::chip8::instruction_decoder::Chip8Instruction as I;
use chip8::chip8::instruction_decoder::{decode, Chip8Instruction, Chip8InstructionDecoder};

#[test]
fn decode_covers_every_family() {
    let cases: Vec<(u16, Chip8Instruction)> = vec![
        (0x00E0, I::Cls),
        (0x00EE, I::Ret),
        (0x0123, I::Sys(0x123)),
        (0x0000, I::Sys(0x000)),
        (0x1abc, I::Jp(0xABC)),
        (0x2abc, I::Call(0xABC)),
        (0x3A7F, I::SeByte(0xA, 0x7F)),
        (0x4A7F, I::SneByte(0xA, 0x7F)),
        (0x5AB0, I::SeReg(0xA, 0xB)),
        (0x6A7F, I::LdByte(0xA, 0x7F)),
        (0x7A7F, I::AddByte(0xA, 0x7F)),
        (0x8AB0, I::LdReg(0xA, 0xB)),
        (0x8AB1, I::Or(0xA, 0xB)),
        (0x8AB2, I::And(0xA, 0xB)),
        (0x8AB3, I::Xor(0xA, 0xB)),
        (0x8AB4, I::AddReg(0xA, 0xB)),
        (0x8AB5, I::Sub(0xA, 0xB)),
        (0x8AB6, I::Shr(0xA, 0xB)),
        (0x8AB7, I::Subn(0xA, 0xB)),
        (0x8ABE, I::Shl(0xA, 0xB)),
        (0x9AB0, I::SneReg(0xA, 0xB)),
        (0xAabc, I::LdI(0xABC)),
        (0xBabc, I::JpV0(0xABC)),
        (0xCA7F, I::Rnd(0xA, 0x7F)),
        (0xDAB5, I::Drw(0xA, 0xB, 5)),
        (0xEA9E, I::Skp(0xA)),
        (0xEAA1, I::Sknp(0xA)),
        (0xFA07, I::LdFromDelay(0xA)),
        (0xFA0A, I::LdKey(0xA)),
        (0xFA15, I::LdDelay(0xA)),
        (0xFA18, I::LdSound(0xA)),
        (0xFA1E, I::AddI(0xA)),
        (0xFA29, I::LdFont(0xA)),
        (0xFA33, I::LdBcd(0xA)),
        (0xFA55, I::LdStore(0xA)),
        (0xFA65, I::LdRead(0xA)),
    ];
    for (word, expected) in cases {
        assert_eq!(decode(word), expected, "word {:#06X}", word);
    }
}

#[test]
fn encodings_outside_the_table_decode_to_unknown() {
    for word in [0x5AB1u16, 0x8AB8, 0x8ABF, 0x9AB1, 0xEA00, 0xEAFF, 0xFA00, 0xFAFF] {
        assert_eq!(decode(word), Chip8Instruction::Unknown(word), "word {:#06X}", word);
    }
}

#[test]
fn decoder_starts_empty() {
    let d = Chip8InstructionDecoder::new();
    assert!(d.decoded_instructions.is_empty());
}

#[test]
fn decode_file_appends_the_big_endian_word_stream() {
    let mut d = Chip8InstructionDecoder::new();
    d.decode_file(&vec![0x60, 0x05, 0x12, 0x00]);
    assert_eq!(
        d.decoded_instructions,
        vec![Chip8Instruction::LdByte(0, 5), Chip8Instruction::Jp(0x200)]
    );
    // a second image extends the listing; a trailing odd byte is ignored
    d.decode_file(&vec![0x00, 0xE0, 0x99]);
    assert_eq!(
        d.decoded_instructions,
        vec![
            Chip8Instruction::LdByte(0, 5),
            Chip8Instruction::Jp(0x200),
            Chip8Instruction::Cls,
        ]
    );
}
