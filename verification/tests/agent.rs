use adb_input::adb::read_greeting;
use adb_input::agent::{
    acknowledgement, greeting, watchdog_expired, Action, Input, Session, Wait,
};
use adb_input::filter::MotionBin;
use adb_input::packet::Packet;
use adb_input::sampler::MouseOutput;

const NOW: u128 = 5_000_000_000;

fn arm(epoch: u64) -> Input {
    Input::Adb(Some(Packet::Arm { epoch, control_id: 1, source_time_us: 1_000_000 }))
}

fn bin(epoch: u64) -> Input {
    Input::Udp {
        epoch,
        bin: MotionBin {
            source_id: 1,
            sequence: 1,
            period_us: 8_000,
            source_time_us: 1_000_000,
            dx: 20,
            dy: 0,
        },
    }
}

#[test]
fn arming_and_releasing_reset_the_devices_and_are_acknowledged() {
    let mut session = Session::new(false);
    let outcome = session.handle_input(arm(1), NOW);
    assert!(outcome.running && outcome.progress);
    assert_eq!(
        outcome.actions,
        [Action::Keyboard([0; 8]), Action::MouseReport([0; 6]), Action::Acknowledge(1)]
    );
    assert!(session.armed);
    let outcome = session
        .handle_input(Input::Adb(Some(Packet::Release { epoch: 1, control_id: 9 })), NOW);
    assert_eq!(
        outcome.actions,
        [Action::Keyboard([0; 8]), Action::MouseReport([0; 6]), Action::Acknowledge(9)]
    );
    assert!(!session.armed);
}

#[test]
fn an_unarmed_agent_forwards_nothing_but_answers() {
    let mut session = Session::new(false);
    let key = Packet::Keyboard { control_id: 4, report: [1; 8] };
    assert_eq!(
        session.handle_input(Input::Adb(Some(key)), NOW).actions,
        [Action::Acknowledge(4)]
    );
    let outcome = session.handle_input(bin(0), NOW);
    assert!(outcome.running && !outcome.progress);
    assert_eq!(session.immediate(NOW), None);
    session.handle_input(arm(2), NOW);
    session.handle_input(bin(1), NOW);
    assert_eq!(session.immediate(NOW), None);
    session.handle_input(bin(2), NOW);
    assert_eq!(
        session.immediate(NOW),
        Some(MouseOutput { buttons: 0, dx: 10, dy: 0, wheel: 0 })
    );
    assert_eq!(session.advance(NOW, &[]), (None, Wait::Until(NOW + 8_000_000)));
}

#[test]
fn a_click_comes_after_the_motion_before_it() {
    let mut session = Session::new(false);
    session.handle_input(arm(1), NOW);
    session.handle_input(bin(1), NOW);
    let click = Packet::Mouse {
        control_id: 3,
        buttons: 1,
        dx: 0,
        dy: 0,
        wheel: 0,
        source_id: 1,
        source_time_us: 1_000_000,
    };
    assert_eq!(
        session.handle_input(Input::Adb(Some(click)), NOW).actions,
        [
            Action::Mouse(MouseOutput { buttons: 0, dx: 20, dy: 0, wheel: 0 }),
            Action::Mouse(MouseOutput { buttons: 1, dx: 0, dy: 0, wheel: 0 }),
            Action::Acknowledge(3),
        ]
    );
}

#[test]
fn the_fast_path_starts_at_most_once() {
    let key = |byte| Input::Adb(Some(Packet::UdpKey([byte; 32])));
    let mut session = Session::new(true);
    assert_eq!(session.handle_input(key(1), NOW).actions, [Action::StartUdp([1; 32])]);
    assert_eq!(session.handle_input(key(2), NOW).actions, []);
    let mut without = Session::new(false);
    assert_eq!(without.handle_input(key(1), NOW).actions, []);
}

#[test]
fn the_stream_ends_with_stop_or_its_end() {
    let mut session = Session::new(false);
    assert_eq!(session.advance(NOW, &[]), (None, Wait::Forever));
    let heartbeat = Packet::Heartbeat { source_time_us: 1 };
    assert!(session.handle_input(Input::Adb(Some(heartbeat)), NOW).running);
    assert!(!session.handle_input(Input::Adb(Some(Packet::Stop)), NOW).running);
    assert!(!session.handle_input(Input::Adb(None), NOW).running);
}

#[test]
fn the_watchdog_waits_for_five_seconds() {
    assert!(!watchdog_expired(4, 0));
    assert!(watchdog_expired(5, 0));
    assert!(!watchdog_expired(3, 7));
}

#[test]
fn greetings_are_understood() {
    assert_eq!(greeting(40000), "ADB-INPUT 6 40000");
    assert_eq!(read_greeting("ADB-INPUT 6 40000\n"), Some(40000));
    assert_eq!(read_greeting(&greeting(0)), Some(0));
    assert_eq!(read_greeting("ADB-INPUT 6\n"), Some(0));
    assert_eq!(read_greeting("ADB-INPUT 5 40000"), None);
    assert_eq!(read_greeting("ADB-INPUT 6 70000"), None);
    assert_eq!(acknowledgement(12), "ACK 12");
}
