use adb_input::desktop::chord;
use adb_input::pointer::{
    capabilities, summarize, Abilities, Axis, Event, Motion, Step, Summary,
};
use evdev::{
    AbsoluteAxisCode, EventType, KeyCode, RelativeAxisCode, SynchronizationCode,
};

/// A pointer whose fractions are kept from one report to the next.
struct Pointer {
    motion: Motion,
    x: f64,
    y: f64,
}

impl Pointer {
    fn new(range_x: i64, range_y: i64) -> Pointer {
        Pointer { motion: Motion::new(range_x, range_y), x: 0.0, y: 0.0 }
    }

    fn reset(&mut self) {
        self.motion.reset();
        self.x = 0.0;
        self.y = 0.0;
    }

    fn update(&mut self, event: Event, sensitivity: f64) -> Option<(i32, i32, i32)> {
        let (axis, moved) = match self.motion.update(event) {
            Step::Nothing => return None,
            Step::Relative { axis, value } => (axis, f64::from(value) * sensitivity),
            Step::Absolute { axis, delta, range } => {
                (axis, delta as f64 / range as f64 * 2000.0 * sensitivity)
            }
            Step::Report { wheel } => {
                let (x, y) = (self.x as i32, self.y as i32);
                self.x -= f64::from(x);
                self.y -= f64::from(y);
                return Some((x, y, wheel));
            }
        };
        match axis {
            Axis::X => self.x += moved,
            Axis::Y => self.y += moved,
        }
        None
    }
}

fn event(kind: EventType, code: u16, value: i32) -> Event {
    Event { kind: kind.0, code, value }
}

fn report(pointer: &mut Pointer) -> Option<(i32, i32, i32)> {
    pointer.update(event(EventType::SYNCHRONIZATION, SynchronizationCode::SYN_REPORT.0, 0), 1.0)
}

fn output(x: i32, y: i32, wheel: i32) -> Option<(i32, i32, i32)> {
    Some((x, y, wheel))
}

#[test]
fn relative_reports_preserve_fractions_buttons_and_wheel() {
    let mut motion = Pointer::new(0, 0);
    for (kind, code, value) in [
        (EventType::KEY, KeyCode::BTN_LEFT.0, 1),
        (EventType::KEY, KeyCode::BTN_EXTRA.0, 1),
        (EventType::RELATIVE, RelativeAxisCode::REL_X.0, 3),
        (EventType::RELATIVE, RelativeAxisCode::REL_Y.0, -3),
        (EventType::RELATIVE, RelativeAxisCode::REL_WHEEL.0, 2),
    ] {
        assert_eq!(motion.update(event(kind, code, value), 0.5), None);
    }
    assert_eq!(report(&mut motion), output(1, -1, 2));
    assert_eq!(motion.motion.buttons, 0b10001);
    assert_eq!(report(&mut motion), None);
    motion.update(event(EventType::RELATIVE, RelativeAxisCode::REL_X.0, 1), 0.5);
    motion.update(event(EventType::RELATIVE, RelativeAxisCode::REL_Y.0, -1), 0.5);
    motion.update(event(EventType::KEY, KeyCode::BTN_LEFT.0, 0), 1.0);
    assert_eq!(report(&mut motion), output(1, -1, 0));
    assert_eq!(motion.motion.buttons, 0b10000);
}

#[test]
fn absolute_motion_reanchors_after_release_and_keeps_axis_ranges() {
    let mut motion = Pointer::new(1000, 2000);
    let x = |value| event(EventType::ABSOLUTE, AbsoluteAxisCode::ABS_X.0, value);
    let y = |value| event(EventType::ABSOLUTE, AbsoluteAxisCode::ABS_Y.0, value);
    motion.update(x(100), 1.0);
    motion.update(y(500), 1.0);
    assert_eq!(report(&mut motion), None);
    motion.update(x(150), 2.0);
    motion.update(y(400), 2.0);
    assert_eq!(report(&mut motion), output(200, -200, 0));
    motion.update(event(EventType::KEY, KeyCode::BTN_LEFT.0, 1), 1.0);
    motion.reset();
    assert_eq!(motion.motion.buttons, 0);
    assert_eq!(report(&mut motion), None);
    motion.update(x(900), 1.0);
    motion.update(y(1000), 1.0);
    assert_eq!(report(&mut motion), None);
    motion.update(x(950), 1.0);
    motion.update(y(900), 1.0);
    assert_eq!(report(&mut motion), output(100, -100, 0));
}

#[test]
fn discrete_reports_keep_button_and_wheel_state() {
    let mut motion = Pointer::new(0, 0);
    motion.update(event(EventType::KEY, KeyCode::BTN_LEFT.0, 1), 1.0);
    assert_eq!(report(&mut motion), output(0, 0, 0));
    motion.update(event(EventType::RELATIVE, RelativeAxisCode::REL_WHEEL.0, 2), 1.0);
    assert_eq!(report(&mut motion), output(0, 0, 2));
}

#[test]
fn toggle_requires_complete_chord_and_accepts_either_side() {
    let chord = |keys: &[KeyCode]| {
        let codes: Vec<u16> = keys.iter().map(|key| key.0).collect();
        chord(&codes)
    };
    let semicolon = KeyCode::KEY_SEMICOLON;
    for ctrl in [KeyCode::KEY_LEFTCTRL, KeyCode::KEY_RIGHTCTRL] {
        assert!(chord(&[ctrl, semicolon]));
        assert!(!chord(&[ctrl]));
        for modifier in [
            KeyCode::KEY_LEFTSHIFT,
            KeyCode::KEY_RIGHTSHIFT,
            KeyCode::KEY_LEFTALT,
            KeyCode::KEY_RIGHTALT,
            KeyCode::KEY_LEFTMETA,
            KeyCode::KEY_RIGHTMETA,
        ] {
            assert!(!chord(&[ctrl, modifier, semicolon]));
        }
    }
    assert!(!chord(&[semicolon]));
    assert!(!chord(&[KeyCode::KEY_LEFTCTRL, KeyCode::KEY_LEFTSHIFT, KeyCode::KEY_R]));
}

#[test]
fn events_are_told_apart_by_their_kind() {
    assert_eq!(
        summarize(event(EventType::KEY, 30, 1)),
        Summary::Key { code: 30, value: 1 }
    );
    assert_eq!(
        summarize(event(EventType::RELATIVE, 8, -1)),
        Summary::Relative { code: 8, value: -1 }
    );
    assert_eq!(
        summarize(event(EventType::ABSOLUTE, 1, 77)),
        Summary::Absolute { code: 1, value: 77 }
    );
    assert_eq!(
        summarize(event(EventType::SYNCHRONIZATION, 3, 0)),
        Summary::Synchronization { code: 3 }
    );
    assert_eq!(summarize(event(EventType::LED, 1, 1)), Summary::Other);
    assert_eq!(summarize(Event { kind: 900, code: 1, value: 1 }), Summary::Other);
}

#[test]
fn wheels_saturate_and_buttons_are_independent() {
    let mut motion = Motion::new(0, 0);
    let wheel = |value| event(EventType::RELATIVE, RelativeAxisCode::REL_WHEEL.0, value);
    motion.update(wheel(i32::MAX));
    motion.update(wheel(5));
    let sync = event(EventType::SYNCHRONIZATION, SynchronizationCode::SYN_REPORT.0, 0);
    assert_eq!(motion.update(sync), Step::Report { wheel: i32::MAX });
    for bit in 0..5 {
        motion.update(event(EventType::KEY, KeyCode::BTN_LEFT.0 + bit, 1));
    }
    assert_eq!(motion.buttons, 0b11111);
    motion.update(event(EventType::KEY, KeyCode::BTN_LEFT.0 + 2, 0));
    assert_eq!(motion.buttons, 0b11011);
    motion.update(event(EventType::KEY, KeyCode::BTN_EXTRA.0 + 1, 1));
    assert_eq!(motion.buttons, 0b11011);
}

#[test]
fn devices_are_recognised_by_what_they_can_do() {
    let none = Abilities {
        key_a: false,
        key_enter: false,
        button_left: false,
        relative_x: false,
        relative_y: false,
        absolute_x: false,
        absolute_y: false,
    };
    assert_eq!(capabilities(none), (false, false));
    assert_eq!(capabilities(Abilities { key_a: true, key_enter: true, ..none }), (true, false));
    let mouse = Abilities { button_left: true, relative_x: true, relative_y: true, ..none };
    assert_eq!(capabilities(mouse), (false, true));
    assert_eq!(capabilities(Abilities { relative_y: false, ..mouse }), (false, false));
    let tablet = Abilities { button_left: true, absolute_x: true, absolute_y: true, ..none };
    assert_eq!(capabilities(tablet), (false, true));
    assert_eq!(capabilities(Abilities { button_left: false, ..tablet }), (false, false));
}
