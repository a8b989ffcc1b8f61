use chip8::chip8::display::Chip8Display;
use chip8::chip8::Chip8;

#[test]
fn set_get_unset_pixel() {
    let mut d = Chip8Display::new();
    assert!(!d.get_pixel(3, 4));
    d.set_pixel(3, 4);
    assert!(d.get_pixel(3, 4));
    assert!(!d.get_pixel(4, 3));
    d.unset_pixel(3, 4);
    assert!(!d.get_pixel(3, 4));
}

#[test]
fn coordinates_wrap_modulo_screen_size() {
    let mut d = Chip8Display::new();
    d.set_pixel(64 + 1, 32 + 2);
    assert!(d.get_pixel(1, 2));
    assert!(d.get_pixel(65, 34));
    d.unset_pixel(1 + 128, 2 + 64);
    assert!(!d.get_pixel(1, 2));
}

#[test]
fn clear_twice_is_the_same_all_off_state() {
    let mut d = Chip8Display::new();
    d.set_pixel(0, 0);
    d.set_pixel(63, 31);
    d.clear();
    assert!(d.get_set_pixel_coords().is_empty());
    let after_once: Vec<(usize, usize)> = d.get_set_pixel_coords();
    d.clear();
    let after_twice: Vec<(usize, usize)> = d.get_set_pixel_coords();
    assert_eq!(after_once, after_twice);
    assert!(!d.get_pixel(0, 0));
    assert!(!d.get_pixel(63, 31));
}

#[test]
fn double_draw_toggles_off_and_collides() {
    // drawing the same all-ones 8x1 sprite twice: on, then off again, and
    // only the second draw reports a collision
    let mut d = Chip8Display::new();
    let sprite = vec![0xFFu8];
    let first = d.draw(10, 5, &sprite);
    assert!(!first);
    for c in 0..8 {
        assert!(d.get_pixel(10 + c, 5));
    }
    let second = d.draw(10, 5, &sprite);
    assert!(second);
    for c in 0..8 {
        assert!(!d.get_pixel(10 + c, 5));
    }
}

#[test]
fn draw_xor_composition_and_collision_flag() {
    let mut d = Chip8Display::new();
    // two-row sprite, left half then right half
    let collision = d.draw(0, 0, &vec![0xF0, 0x0F]);
    assert!(!collision);
    // overlapping sprite: 0xFF on row 0 clears the left half, sets the right
    let collision = d.draw(0, 0, &vec![0xFF]);
    assert!(collision);
    for c in 0..4 {
        assert!(!d.get_pixel(c, 0), "left half toggled off");
        assert!(d.get_pixel(4 + c, 0), "right half now on");
        assert!(!d.get_pixel(c, 1), "second row untouched left");
        assert!(d.get_pixel(4 + c, 1), "second row untouched right");
    }
}

#[test]
fn draw_wraps_at_the_edges() {
    let mut d = Chip8Display::new();
    d.draw(62, 31, &vec![0xFF, 0xFF]);
    // row 31 holds columns 62, 63, 0..=5; row 0 the same
    for (x, y) in [(62, 31), (63, 31), (0, 31), (5, 31), (62, 0), (0, 0), (5, 0)] {
        assert!(d.get_pixel(x, y), "({}, {}) should be on", x, y);
    }
    assert!(!d.get_pixel(6, 31));
    assert!(!d.get_pixel(61, 0));
}

#[test]
fn a_zero_sprite_bit_never_changes_the_screen() {
    let mut d = Chip8Display::new();
    d.set_pixel(1, 0);
    let collision = d.draw(0, 0, &vec![0x00]);
    assert!(!collision);
    assert!(d.get_pixel(1, 0));
}

#[test]
fn set_pixel_coords_row_major_without_duplicates() {
    let mut d = Chip8Display::new();
    d.set_pixel(5, 2);
    d.set_pixel(1, 7);
    d.set_pixel(63, 2);
    d.set_pixel(5, 2); // setting twice leaves one pixel
    assert_eq!(d.get_set_pixel_coords(), vec![(5, 2), (63, 2), (1, 7)]);
}

#[test]
fn drw_opcode_reads_sprite_at_i_and_sets_collision_flag() {
    // LD I,0x300 ; DRW V0,V1,1 ; DRW V0,V1,1
    let mut c = Chip8::new();
    c.load(&vec![0xA3, 0x00, 0xD0, 0x11, 0xD0, 0x11]).unwrap();
    c.memory.raw_array[0x300] = 0b1000_0001;
    c.registers.general[0] = 8;
    c.registers.general[1] = 4;
    assert!(c.run_next().is_ok());
    assert!(c.run_next().is_ok());
    assert!(c.display.get_pixel(8, 4));
    assert_eq!(c.registers.general[15], 0, "first draw saw a blank screen");
    assert!(c.run_next().is_ok());
    assert!(!c.display.get_pixel(8, 4));
    assert!(!c.display.get_pixel(15, 4));
    assert_eq!(c.registers.general[15], 1, "second draw cleared pixels");
}

#[test]
fn drw_opcode_addressing_fault() {
    let mut c = Chip8::new();
    c.load(&vec![0xD0, 0x15]).unwrap();
    c.registers.memory_address = 4092;
    assert_eq!(c.run_next(), Err(chip8::chip8::Chip8Error::AddressOutOfRange));
}

#[test]
fn cls_opcode_clears_the_display() {
    let mut c = Chip8::new();
    c.load(&vec![0x00, 0xE0]).unwrap();
    c.display.set_pixel(12, 20);
    assert!(c.run_next().is_ok());
    assert!(c.display.get_set_pixel_coords().is_empty());
    assert_eq!(c.registers.program_counter, 0x202);
}
