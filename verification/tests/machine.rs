use chip8::app::App;
use chip8::chip8::instruction_decoder::Chip8Instruction;
use chip8::chip8::Chip8;
use chip8::chip8::Chip8Error;

fn machine_with(program: Vec<u8>) -> Chip8 {
    let mut c = Chip8::new();
    c.load(&program).expect("program fits");
    c
}

#[test]
fn initial_state() {
    let c = Chip8::new();
    assert!(c.check_wf());
    assert_eq!(c.registers.program_counter, 0x200);
    assert_eq!(c.registers.stack_pointer, 0);
    assert_eq!(c.registers.memory_address, 0);
    assert!(c.registers.general.iter().all(|&v| v == 0));
    assert!(c.registers.stack.iter().all(|&v| v == 0));
    assert_eq!(c.timers.delay_timer, 0);
    assert_eq!(c.timers.sound_timer, 0);
}

#[test]
fn app_owns_fresh_machine() {
    let a = App::new();
    assert!(a.sys.check_wf());
    assert_eq!(a.sys.registers.program_counter, 0x200);
}

#[test]
fn font_seeded_in_memory() {
    let c = Chip8::new();
    assert_eq!(c.memory.raw_array.len(), 4096);
    // glyph "0" starts with 0xF0 and glyph "F" ends with 0x80
    assert_eq!(c.memory.raw_array[0x00], 0xF0);
    assert_eq!(c.memory.raw_array[0x04], 0xF0);
    assert_eq!(c.memory.raw_array[0x05], 0x20);
    assert_eq!(c.memory.raw_array[0x4F], 0x80);
    assert_eq!(c.memory.raw_array[0x50], 0x00);
    assert_eq!(c.memory.raw_array[0x200], 0x00);
}

#[test]
fn load_places_program_at_0x200() {
    let c = machine_with(vec![0xAB, 0xCD, 0xEF]);
    assert_eq!(c.memory.raw_array[0x200], 0xAB);
    assert_eq!(c.memory.raw_array[0x201], 0xCD);
    assert_eq!(c.memory.raw_array[0x202], 0xEF);
    assert_eq!(c.memory.raw_array[0x203], 0x00);
}

#[test]
fn load_accepts_maximal_program() {
    let mut c = Chip8::new();
    let program = vec![0x77u8; 3584];
    assert_eq!(c.load(&program), Ok(()));
    assert_eq!(c.memory.raw_array[4095], 0x77);
}

#[test]
fn load_rejects_oversized_program_whole() {
    let mut c = Chip8::new();
    let program = vec![0x77u8; 3585];
    assert_eq!(c.load(&program), Err(Chip8Error::ProgramTooLarge));
    // nothing was partially loaded
    assert!(c.memory.raw_array[0x200..].iter().all(|&b| b == 0));
}

#[test]
fn add_reg_sets_carry_iff_sum_exceeds_255() {
    // ADD V0,V1 with 200 + 100: wraps to 44, carry set
    let mut c = machine_with(vec![0x80, 0x14]);
    c.registers.general[0] = 200;
    c.registers.general[1] = 100;
    assert!(c.run_next().is_ok());
    assert_eq!(c.registers.general[0], 44);
    assert_eq!(c.registers.general[15], 1);

    // 200 + 55 = 255: no carry
    let mut c = machine_with(vec![0x80, 0x14]);
    c.registers.general[0] = 200;
    c.registers.general[1] = 55;
    c.registers.general[15] = 1;
    assert!(c.run_next().is_ok());
    assert_eq!(c.registers.general[0], 255);
    assert_eq!(c.registers.general[15], 0);
}

#[test]
fn sub_reg_write_always_and_not_borrow_flag() {
    // 20 - 10: no borrow, flag 1
    let mut c = machine_with(vec![0x80, 0x15]);
    c.registers.general[0] = 20;
    c.registers.general[1] = 10;
    assert!(c.run_next().is_ok());
    assert_eq!(c.registers.general[0], 10);
    assert_eq!(c.registers.general[15], 1);

    // 10 - 20: borrow; the wrapped difference is still written (write-always)
    let mut c = machine_with(vec![0x80, 0x15]);
    c.registers.general[0] = 10;
    c.registers.general[1] = 20;
    assert!(c.run_next().is_ok());
    assert_eq!(c.registers.general[0], 246);
    assert_eq!(c.registers.general[15], 0);

    // equal operands: no borrow, difference zero
    let mut c = machine_with(vec![0x80, 0x15]);
    c.registers.general[0] = 7;
    c.registers.general[1] = 7;
    assert!(c.run_next().is_ok());
    assert_eq!(c.registers.general[0], 0);
    assert_eq!(c.registers.general[15], 1);
}

#[test]
fn subn_reg_reversed_operands() {
    let mut c = machine_with(vec![0x80, 0x17]);
    c.registers.general[0] = 10;
    c.registers.general[1] = 30;
    assert!(c.run_next().is_ok());
    assert_eq!(c.registers.general[0], 20);
    assert_eq!(c.registers.general[15], 1);
}

#[test]
fn shr_and_shl_flags() {
    let mut c = machine_with(vec![0x80, 0x16]);
    c.registers.general[0] = 0b1010_0101;
    assert!(c.run_next().is_ok());
    assert_eq!(c.registers.general[0], 0b0101_0010);
    assert_eq!(c.registers.general[15], 1);

    let mut c = machine_with(vec![0x80, 0x1E]);
    c.registers.general[0] = 0b1010_0101;
    assert!(c.run_next().is_ok());
    assert_eq!(c.registers.general[0], 0b0100_1010);
    assert_eq!(c.registers.general[15], 1);
}

#[test]
fn or_and_xor_family() {
    let mut c = machine_with(vec![0x80, 0x11, 0x80, 0x12, 0x80, 0x13]);
    c.registers.general[0] = 0b1100;
    c.registers.general[1] = 0b1010;
    assert!(c.run_next().is_ok());
    assert_eq!(c.registers.general[0], 0b1110);
    c.registers.general[0] = 0b1100;
    assert!(c.run_next().is_ok());
    assert_eq!(c.registers.general[0], 0b1000);
    c.registers.general[0] = 0b1100;
    assert!(c.run_next().is_ok());
    assert_eq!(c.registers.general[0], 0b0110);
}

#[test]
fn jp_sets_pc_exactly_without_auto_advance() {
    let mut c = machine_with(vec![0x12, 0x50]);
    assert!(c.run_next().is_ok());
    assert_eq!(c.registers.program_counter, 0x250);
}

#[test]
fn skip_scenario_with_decode_trace() {
    // LD V0,5; SE V0,5 (skips); JP 0x200 (skipped); CLS
    let program = vec![0x60, 0x05, 0x30, 0x05, 0x12, 0x00, 0x00, 0xE0];
    let mut c = machine_with(program.clone());
    assert_eq!(c.run_next(), Ok(Chip8Instruction::LdByte(0, 5)));
    assert_eq!(c.registers.general[0], 5);
    assert_eq!(c.registers.program_counter, 0x202);
    assert_eq!(c.run_next(), Ok(Chip8Instruction::SeByte(0, 5)));
    assert_eq!(c.registers.program_counter, 0x206);

    // the direct decode trace agrees with what was executed
    let mut d = chip8::chip8::instruction_decoder::Chip8InstructionDecoder::new();
    d.decode_file(&program);
    assert_eq!(
        d.decoded_instructions,
        vec![
            Chip8Instruction::LdByte(0, 5),
            Chip8Instruction::SeByte(0, 5),
            Chip8Instruction::Jp(0x200),
            Chip8Instruction::Cls,
        ]
    );
}

#[test]
fn conditional_skips() {
    // SNE V0,5 with V0 == 5: no skip
    let mut c = machine_with(vec![0x40, 0x05]);
    c.registers.general[0] = 5;
    assert!(c.run_next().is_ok());
    assert_eq!(c.registers.program_counter, 0x202);

    // SE V0,V1 with equal registers: skip
    let mut c = machine_with(vec![0x50, 0x10]);
    assert!(c.run_next().is_ok());
    assert_eq!(c.registers.program_counter, 0x204);

    // SNE V0,V1 with different registers: skip
    let mut c = machine_with(vec![0x90, 0x10]);
    c.registers.general[1] = 1;
    assert!(c.run_next().is_ok());
    assert_eq!(c.registers.program_counter, 0x204);
}

#[test]
fn call_and_ret_round_trip() {
    let mut program = vec![0x22, 0x04, 0x00, 0x00];
    program.extend_from_slice(&[0x00, 0xEE]); // 0x204: RET
    let mut c = machine_with(program);
    assert_eq!(c.run_next(), Ok(Chip8Instruction::Call(0x204)));
    assert_eq!(c.registers.program_counter, 0x204);
    assert_eq!(c.registers.stack_pointer, 1);
    assert_eq!(c.registers.stack[0], 0x200);
    assert_eq!(c.run_next(), Ok(Chip8Instruction::Ret));
    // execution resumes after the call site
    assert_eq!(c.registers.program_counter, 0x202);
    assert_eq!(c.registers.stack_pointer, 0);
}

#[test]
fn ret_on_empty_stack_is_underflow() {
    let mut c = machine_with(vec![0x00, 0xEE]);
    assert_eq!(c.run_next(), Err(Chip8Error::StackUnderflow));
    // the machine is untouched
    assert_eq!(c.registers.program_counter, 0x200);
    assert_eq!(c.registers.stack_pointer, 0);
}

#[test]
fn call_on_full_stack_is_overflow() {
    let mut c = machine_with(vec![0x22, 0x00]);
    c.registers.stack_pointer = 16;
    assert_eq!(c.run_next(), Err(Chip8Error::StackOverflow));
    assert_eq!(c.registers.program_counter, 0x200);
}

#[test]
fn unknown_opcode_is_reported_distinctly() {
    for program in [vec![0x51, 0x21], vec![0x80, 0x08], vec![0x91, 0x21], vec![0xE0, 0xFF], vec![
        0xF0, 0xFF,
    ]] {
        let mut c = machine_with(program);
        assert_eq!(c.run_next(), Err(Chip8Error::UnimplementedOpcode));
        assert_eq!(c.registers.program_counter, 0x200);
    }
}

#[test]
fn fetch_past_end_of_memory_is_addressing_fault() {
    let mut c = Chip8::new();
    c.registers.program_counter = 4095;
    assert_eq!(c.run_next(), Err(Chip8Error::AddressOutOfRange));
    assert_eq!(c.registers.program_counter, 4095);
}

#[test]
fn store_and_read_registers_round_trip() {
    // P4: LD [I],Vx then LD Vx,[I] restores the registers, for all x
    for x in 0u8..16 {
        let program = vec![0xF0 | x, 0x55, 0xF0 | x, 0x65];
        let mut c = machine_with(program);
        c.registers.memory_address = 0x300;
        for k in 0..16 {
            c.registers.general[k] = 40 + k as u8;
        }
        assert!(c.run_next().is_ok());
        // clobber the bank before reading back
        for k in 0..16 {
            c.registers.general[k] = 0xEE;
        }
        assert!(c.run_next().is_ok());
        for k in 0..=x as usize {
            assert_eq!(c.registers.general[k], 40 + k as u8);
        }
        for k in (x as usize + 1)..16 {
            assert_eq!(c.registers.general[k], 0xEE);
        }
    }
}

#[test]
fn store_registers_addressing_fault() {
    let mut c = machine_with(vec![0xF3, 0x55]);
    c.registers.memory_address = 4093;
    assert_eq!(c.run_next(), Err(Chip8Error::AddressOutOfRange));
    let mut c = machine_with(vec![0xF3, 0x65]);
    c.registers.memory_address = 4093;
    assert_eq!(c.run_next(), Err(Chip8Error::AddressOutOfRange));
}

#[test]
fn bcd_digits() {
    let mut c = machine_with(vec![0xF5, 0x33]);
    c.registers.general[5] = 237;
    c.registers.memory_address = 0x300;
    assert!(c.run_next().is_ok());
    assert_eq!(c.memory.raw_array[0x300], 2);
    assert_eq!(c.memory.raw_array[0x301], 3);
    assert_eq!(c.memory.raw_array[0x302], 7);
}

#[test]
fn bcd_addressing_fault() {
    let mut c = machine_with(vec![0xF5, 0x33]);
    c.registers.memory_address = 4094;
    assert_eq!(c.run_next(), Err(Chip8Error::AddressOutOfRange));
}

#[test]
fn rnd_applies_mask_to_the_drawn_byte() {
    let mut c = machine_with(vec![0xC0, 0x0F]);
    assert!(c.run_next_with(0xAB).is_ok());
    assert_eq!(c.registers.general[0], 0x0B);
    // a masked random byte can never escape the mask
    let mut c = machine_with(vec![0xC3, 0x07]);
    assert!(c.run_next().is_ok());
    assert!(c.registers.general[3] <= 0x07);
}

#[test]
fn font_address_lookup() {
    let mut c = machine_with(vec![0xF2, 0x29]);
    c.registers.general[2] = 0x1A; // low nibble selects glyph "A"
    assert!(c.run_next().is_ok());
    assert_eq!(c.registers.memory_address, 10 * 5);
}

#[test]
fn ld_i_and_add_i() {
    let mut c = machine_with(vec![0xA1, 0x23, 0xF0, 0x1E]);
    c.registers.general[0] = 5;
    assert!(c.run_next().is_ok());
    assert_eq!(c.registers.memory_address, 0x123);
    assert!(c.run_next().is_ok());
    assert_eq!(c.registers.memory_address, 0x128);

    // ADD I,Vx wraps modulo 2^16
    let mut c = machine_with(vec![0xF0, 0x1E]);
    c.registers.memory_address = 0xFFFE;
    c.registers.general[0] = 5;
    assert!(c.run_next().is_ok());
    assert_eq!(c.registers.memory_address, 3);
}

#[test]
fn jp_v0_adds_offset() {
    let mut c = machine_with(vec![0xB2, 0x00]);
    c.registers.general[0] = 0x10;
    assert!(c.run_next().is_ok());
    assert_eq!(c.registers.program_counter, 0x210);
}

#[test]
fn sys_is_a_noop_that_advances() {
    let mut c = machine_with(vec![0x01, 0x23]);
    assert_eq!(c.run_next(), Ok(Chip8Instruction::Sys(0x123)));
    assert_eq!(c.registers.program_counter, 0x202);
    assert_eq!(c.registers.stack_pointer, 0);
}

#[test]
fn key_and_wait_opcodes_are_documented_noops() {
    for (program, expected) in [
        (vec![0xE3, 0x9E], Chip8Instruction::Skp(3)),
        (vec![0xE3, 0xA1], Chip8Instruction::Sknp(3)),
        (vec![0xF3, 0x0A], Chip8Instruction::LdKey(3)),
    ] {
        let mut c = machine_with(program);
        c.registers.general[3] = 9;
        assert_eq!(c.run_next(), Ok(expected));
        assert_eq!(c.registers.program_counter, 0x202);
        assert_eq!(c.registers.general[3], 9);
    }
}

#[test]
fn timer_opcodes() {
    // LD DT,V0 ; LD ST,V1 ; LD V2,DT
    let mut c = machine_with(vec![0xF0, 0x15, 0xF1, 0x18, 0xF2, 0x07]);
    c.registers.general[0] = 42;
    c.registers.general[1] = 17;
    assert!(c.run_next().is_ok());
    assert_eq!(c.timers.delay_timer, 42);
    assert!(c.run_next().is_ok());
    assert_eq!(c.timers.sound_timer, 17);
    assert!(c.run_next().is_ok());
    assert_eq!(c.registers.general[2], 42);
}

#[test]
fn ld_byte_and_add_byte_wrap() {
    let mut c = machine_with(vec![0x63, 0xFE, 0x73, 0x05]);
    assert!(c.run_next().is_ok());
    assert_eq!(c.registers.general[3], 0xFE);
    assert!(c.run_next().is_ok());
    // 0xFE + 5 wraps to 3 and the flag register is untouched
    assert_eq!(c.registers.general[3], 3);
    assert_eq!(c.registers.general[15], 0);
}
