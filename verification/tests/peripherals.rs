use chip8::display::{Display, DISPLAY_HEIGHT, DISPLAY_WIDTH};
use chip8::keyboard::Keyboard;
use chip8::sound::Sound;
use chip8::timer::Timer;
use chip8::Options;

#[test]
fn options_defaults() {
    let opts = Options::defaults();
    assert_eq!(opts.scale, 8);
    assert_eq!(opts.tps, 12);
}

#[test]
fn timer_counts_down() {
    let mut t = Timer::new();
    assert_eq!(t.read(), 0);
    t.write(3);
    assert_eq!(t.read(), 3);
    t.step();
    assert_eq!(t.read(), 2);
    t.step();
    t.step();
    assert_eq!(t.read(), 0);
}

#[test]
fn timer_floors_at_zero() {
    let mut t = Timer::new();
    t.write(0);
    for _ in 0..10 {
        t.step();
        assert_eq!(t.read(), 0);
    }
}

#[test]
fn sound_counts_down_and_floors() {
    let mut s = Sound::new();
    assert_eq!(s.value, 0);
    s.write(2);
    s.step();
    assert_eq!(s.value, 1);
    s.step();
    assert_eq!(s.value, 0);
    for _ in 0..5 {
        s.step();
        assert_eq!(s.value, 0);
    }
}

#[test]
fn keyboard_pressed_state() {
    let mut k = Keyboard::new();
    for key in 0..16u8 {
        assert!(!k.is_pressed(key));
    }
    k.set(5, true);
    assert!(k.is_pressed(5));
    assert!(!k.is_pressed(4));
    k.set(5, false);
    assert!(!k.is_pressed(5));
}

#[test]
fn keyboard_latches_first_press_only() {
    let mut k = Keyboard::new();
    k.set(5, true);
    k.set(7, true);
    // Open a blocking request, then consume: the first press is the one
    // latched.
    let (_, ready) = k.poll();
    assert!(!ready);
    let (key, ready) = k.poll();
    assert!(ready);
    assert_eq!(key, 5);
}

#[test]
fn keyboard_poll_protocol() {
    let mut k = Keyboard::new();
    // No key: the first call opens the request, later calls stay not-ready.
    let (key, ready) = k.poll();
    assert!(!ready);
    assert_eq!(key, 0);
    let (_, ready) = k.poll();
    assert!(!ready);
    // A press arrives: the next poll consumes it and clears the latch.
    k.set(0xA, true);
    let (key, ready) = k.poll();
    assert!(ready);
    assert_eq!(key, 0xA);
    // The latch is cleared: a new request starts over.
    let (_, ready) = k.poll();
    assert!(!ready);
}

#[test]
fn display_toggle_and_collision() {
    let mut d = Display::new();
    assert!(!d.get(3, 4));
    let flag = d.set(3, 4, true);
    assert!(!flag);
    assert!(d.get(3, 4));
    // Toggling a lit pixel off is the collision case.
    let flag = d.set(3, 4, true);
    assert!(flag);
    assert!(!d.get(3, 4));
    // Toggling with false never changes or collides.
    let flag = d.set(3, 4, false);
    assert!(!flag);
    assert!(!d.get(3, 4));
}

#[test]
fn display_wraps_modulo_size() {
    let mut d = Display::new();
    let flag = d.set(DISPLAY_WIDTH, DISPLAY_HEIGHT, true);
    assert!(!flag);
    assert!(d.get(0, 0));
    // The same wrapped pixel collides when toggled through other coordinates.
    let flag = d.set(DISPLAY_WIDTH * 2, DISPLAY_HEIGHT * 3, true);
    assert!(flag);
    assert!(!d.get(0, 0));
}

#[test]
fn display_clear_turns_everything_off() {
    let mut d = Display::new();
    d.set(1, 1, true);
    d.set(63, 31, true);
    d.clear();
    for y in 0..DISPLAY_HEIGHT {
        for x in 0..DISPLAY_WIDTH {
            assert!(!d.get(x, y));
        }
    }
}
