use adb_input::bins::MotionBin;
use adb_input::desktop::{
    heartbeat_due, scan_due, Desktop, Mode, Notice, Reaction, Sent, KEY_LEFTCTRL, KEY_SEMICOLON,
};
use adb_input::packet::Packet;
use adb_input::pointer::{
    Axis, Event, Step, BTN_LEFT, EV_KEY, EV_REL, EV_SYN, REL_X, SYN_DROPPED, SYN_REPORT,
};

fn key(code: u16, value: i32) -> Event {
    Event { kind: EV_KEY, code, value }
}

/// A keyboard and a pointer.
fn desktop() -> (Desktop, u32, u32) {
    let mut desktop = Desktop::new();
    let keyboard = desktop.add_source(true, false, 0, 0).unwrap();
    assert!(!desktop.complete());
    let pointer = desktop.add_source(false, true, 0, 0).unwrap();
    assert!(desktop.complete());
    (desktop, keyboard, pointer)
}

/// The same after the chord was pressed and released.
fn remote() -> (Desktop, u32, u32) {
    let (mut desktop, keyboard, pointer) = desktop();
    assert_eq!(desktop.event(keyboard, key(KEY_LEFTCTRL, 1)), Reaction::Nothing);
    assert_eq!(desktop.event(keyboard, key(KEY_SEMICOLON, 1)), Reaction::Nothing);
    assert_eq!(desktop.mode, Mode::Arming);
    assert_eq!(desktop.event(keyboard, key(KEY_SEMICOLON, 0)), Reaction::Nothing);
    assert_eq!(desktop.event(keyboard, key(KEY_LEFTCTRL, 0)), Reaction::Capture);
    assert!(desktop.activate(&[keyboard, pointer]));
    assert_eq!(desktop.mode, Mode::Remote);
    (desktop, keyboard, pointer)
}

#[test]
fn switching_waits_for_every_key_and_needs_both_devices() {
    let (mut desktop, keyboard, _) = desktop();
    desktop.event(keyboard, key(KEY_LEFTCTRL, 1));
    desktop.event(keyboard, key(KEY_SEMICOLON, 1));
    desktop.event(keyboard, key(KEY_SEMICOLON, 0));
    assert_eq!(desktop.event(keyboard, key(KEY_LEFTCTRL, 0)), Reaction::Capture);
    assert!(!desktop.activate(&[keyboard]));
    assert_eq!(desktop.mode, Mode::Local);
    remote();
}

#[test]
fn keys_go_to_the_phone_and_the_chord_does_not() {
    let (mut desktop, keyboard, _) = remote();
    assert_eq!(
        desktop.event(keyboard, key(30, 1)),
        Reaction::Keyboard([0, 0, 4, 0, 0, 0, 0, 0])
    );
    assert_eq!(desktop.event(keyboard, key(30, 2)), Reaction::Nothing);
    assert_eq!(desktop.event(keyboard, key(30, 0)), Reaction::Keyboard([0; 8]));
    assert_eq!(
        desktop.event(keyboard, key(KEY_LEFTCTRL, 1)),
        Reaction::Keyboard([1, 0, 0, 0, 0, 0, 0, 0])
    );
    assert_eq!(desktop.event(keyboard, key(KEY_SEMICOLON, 1)), Reaction::ReleaseRemote);
    assert_eq!(desktop.mode, Mode::Releasing);
    assert_eq!(desktop.event(keyboard, key(KEY_SEMICOLON, 0)), Reaction::Nothing);
    assert_eq!(desktop.event(keyboard, key(KEY_LEFTCTRL, 0)), Reaction::ReleaseLocal);
    assert_eq!(desktop.mode, Mode::Local);
}

#[test]
fn one_keyboard_does_not_release_the_keys_of_another() {
    let (mut desktop, first, pointer) = desktop();
    let second = desktop.add_source(true, false, 0, 0).unwrap();
    desktop.event(first, key(KEY_LEFTCTRL, 1));
    desktop.event(first, key(KEY_SEMICOLON, 1));
    desktop.event(first, key(KEY_SEMICOLON, 0));
    desktop.event(first, key(KEY_LEFTCTRL, 0));
    assert!(desktop.activate(&[first, second, pointer]));
    desktop.event(first, key(30, 1));
    assert_eq!(
        desktop.event(second, key(30, 1)),
        Reaction::Keyboard([0, 0, 4, 0, 0, 0, 0, 0])
    );
    assert_eq!(
        desktop.event(second, key(30, 0)),
        Reaction::Keyboard([0, 0, 4, 0, 0, 0, 0, 0])
    );
}

#[test]
fn lost_events_and_devices_return_to_the_desktop() {
    let (mut lost, keyboard, _) = remote();
    let dropped = Event { kind: EV_SYN, code: SYN_DROPPED, value: 0 };
    assert_eq!(lost.event(keyboard, dropped), Reaction::Abandon(Notice::EventsLost));
    assert_eq!(lost.mode, Mode::Local);
    let (mut gone, _, pointer) = remote();
    assert_eq!(gone.disconnect(pointer), Reaction::Abandon(Notice::SourceDisconnected));
    assert_eq!(gone.mode, Mode::Local);
    assert!(!gone.complete());
    assert_eq!(Notice::EventsLost.text(), "Input events lost; returned to desktop.");
    assert_eq!(
        Notice::NotCapturable.text(),
        "no capturable keyboard/pointer pair; input is still on the desktop"
    );
}

#[test]
fn a_click_is_sent_behind_all_motion() {
    let (mut desktop, _, pointer) = remote();
    assert_eq!(
        desktop.event(pointer, Event { kind: EV_REL, code: REL_X, value: 3 }),
        Reaction::Pointer(Step::Relative { axis: Axis::X, value: 3 })
    );
    let sync = Event { kind: EV_SYN, code: SYN_REPORT, value: 0 };
    assert_eq!(desktop.event(pointer, sync), Reaction::Pointer(Step::Report { wheel: 0 }));
    let first = desktop.report(pointer, 3, 0, 0, 1_000_000, 1_000_000);
    assert_eq!(
        first,
        [Sent::Bin {
            source_id: pointer,
            bin: MotionBin {
                sequence: 1,
                period_us: 0,
                source_time_us: 1_000_000,
                dx: 3,
                dy: 0
            }
        }]
    );
    assert_eq!(desktop.report(pointer, 4, 0, 0, 1_008_000, 1_008_000), []);
    assert_eq!(desktop.next_poll_timeout_ms(1_008_000), 8);
    desktop.event(pointer, key(BTN_LEFT, 1));
    let click = desktop.report(pointer, 0, 0, 0, 1_009_000, 1_009_000);
    assert_eq!(click.len(), 2);
    assert!(matches!(click[0], Sent::Bin { bin, .. } if bin.dx == 4));
    assert_eq!(
        click[1].packet(7),
        Packet::Mouse {
            control_id: 7,
            buttons: 1,
            dx: 0,
            dy: 0,
            wheel: 0,
            source_id: pointer,
            source_time_us: 1_009_000
        }
    );
    assert_eq!(desktop.next_poll_timeout_ms(1_009_000), 25);
    assert!(desktop.report(pointer, 5, 0, 0, 1_020_000, 1_020_000).len() <= 1);
    desktop.release_local();
    assert_eq!(desktop.flush_bins(2_000_000, true), []);
    assert_eq!(desktop.next_poll_timeout_ms(2_000_000), 25);
}

#[test]
fn heartbeats_and_looks_for_devices_come_each_second() {
    assert!(!heartbeat_due(999_999));
    assert!(heartbeat_due(1_000_000));
    assert!(!scan_due(999_999));
    assert!(scan_due(1_000_000));
}
