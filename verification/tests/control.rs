use chip8::chip8::keyboard::Chip8Keyboard;
use chip8::chip8::thread_messages::{scheduler_pass, Chip8ControlMessage, Chip8RunFlag};
use chip8::chip8::timers::Chip8Timers;

#[test]
fn keyboard_set_get_reset() {
    let mut k = Chip8Keyboard::new();
    assert_eq!(k.get_key_map(), 0);
    k.set_key(2);
    k.set_key(0xF);
    assert!(k.get_key(2));
    assert!(k.get_key(0xF));
    assert!(!k.get_key(3));
    assert_eq!(k.get_key_map(), (1 << 2) | (1 << 15));
    k.reset_keys();
    assert_eq!(k.get_key_map(), 0);
    assert!(!k.get_key(2));
}

#[test]
fn keyboard_uses_only_the_low_nibble() {
    let mut k = Chip8Keyboard::new();
    k.set_key(0x12);
    assert!(k.get_key(2));
    assert!(k.get_key(0x12));
    assert!(!k.get_key(1));
}

#[test]
fn timers_count_down_to_zero_and_stay_there() {
    // three due ticks while Running bring a delay of 3 to 0; further ticks
    // leave it at 0
    let mut t = Chip8Timers::new();
    t.delay_timer = 3;
    t.sound_timer = 1;
    let mut flag = Chip8RunFlag::Running;
    for expected in [2u8, 1, 0] {
        let (next, units) = scheduler_pass(flag, None, true);
        flag = next;
        assert_eq!(units, 1);
        for _ in 0..units {
            t.tick();
        }
        assert_eq!(t.delay_timer, expected);
    }
    for _ in 0..5 {
        t.tick();
    }
    assert_eq!(t.delay_timer, 0);
    assert_eq!(t.sound_timer, 0);
}

#[test]
fn stopped_loop_does_no_work_on_ticks() {
    let (flag, units) = scheduler_pass(Chip8RunFlag::Stopped, None, true);
    assert_eq!(flag, Chip8RunFlag::Stopped);
    assert_eq!(units, 0);
}

#[test]
fn step_while_stopped_does_one_unit_and_stays_stopped() {
    for tick_due in [false, true] {
        let (flag, units) = scheduler_pass(
            Chip8RunFlag::Stopped,
            Some(Chip8ControlMessage::Step),
            tick_due,
        );
        assert_eq!(flag, Chip8RunFlag::Stopped);
        assert_eq!(units, 1);
    }
}

#[test]
fn start_and_stop_set_the_flag() {
    let (flag, units) = scheduler_pass(
        Chip8RunFlag::Stopped,
        Some(Chip8ControlMessage::Start),
        false,
    );
    assert_eq!(flag, Chip8RunFlag::Running);
    assert_eq!(units, 0);

    // a Start serviced together with a due tick performs the tick's work
    let (flag, units) = scheduler_pass(
        Chip8RunFlag::Stopped,
        Some(Chip8ControlMessage::Start),
        true,
    );
    assert_eq!(flag, Chip8RunFlag::Running);
    assert_eq!(units, 1);

    let (flag, units) = scheduler_pass(
        Chip8RunFlag::Running,
        Some(Chip8ControlMessage::Stop),
        true,
    );
    assert_eq!(flag, Chip8RunFlag::Stopped);
    assert_eq!(units, 0);
}

#[test]
fn step_while_running_with_due_tick_services_both() {
    let (flag, units) = scheduler_pass(
        Chip8RunFlag::Running,
        Some(Chip8ControlMessage::Step),
        true,
    );
    assert_eq!(flag, Chip8RunFlag::Running);
    assert_eq!(units, 2);
}
