use adb_input::clock::{event_time_us, offset_us, reading_us, ClockBaseline, ClockError};

#[test]
fn readings_are_in_microseconds() {
    assert_eq!(reading_us(2, 1_500), Some(2_000_001));
    assert_eq!(reading_us(-1, 0), None);
    assert_eq!(reading_us(0, -1), None);
    assert_eq!(reading_us(i64::MAX, 0), Some(u64::MAX));
}

#[test]
fn offsets_are_taken_against_the_midpoint() {
    assert_eq!(offset_us(100, 1_000, 110), 895);
    assert_eq!(offset_us(110, 1_000, 100), 890);
}

#[test]
fn events_are_mapped_to_the_local_clock() {
    assert_eq!(event_time_us(5_000_000, 1_000_000, 4_000_000), Ok(4_000_000));
    assert_eq!(event_time_us(5_000_000, 0, 4_000_000), Ok(5_000_000));
    assert_eq!(event_time_us(5_000_001, 0, 4_000_000), Err(ClockError::Forwards));
    assert_eq!(event_time_us(5, 6, 4_000_000), Err(ClockError::Backwards));
    assert_eq!(event_time_us(0, i128::MIN, 4_000_000), Err(ClockError::Backwards));
    assert_eq!(event_time_us(u128::MAX, 0, 0), Err(ClockError::Overflow));
    assert_eq!(ClockError::Forwards.text(), "evdev clock moved forwards");
    assert_eq!(ClockError::Backwards.text(), "evdev clock moved backwards");
    assert_eq!(ClockError::Overflow.text(), "evdev timestamp overflow");
}

#[test]
fn the_baseline_is_the_smallest_recent_offset() {
    let mut clock = ClockBaseline::new();
    clock.observe_heartbeat(2_000_000, 1_000_000);
    assert_eq!(clock.observe_motion(2_500_000, 1_490_000), (1_010_000, 1_000_000));
    assert_eq!(clock.observe_motion(2_600_000, 1_700_000).0, 900_000);
    assert_eq!(clock.observe_motion(2_700_000, 1_700_000), (1_000_000, 900_000));
}
