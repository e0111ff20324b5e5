use adb_input::agent::mouse_events;
use adb_input::hid::{keyboard_report, mouse_hid_reports};
use adb_input::keys::usage;
use adb_input::link::Link;
use adb_input::packet::{Packet, ReadError};
use adb_input::sampler::MouseOutput;
use adb_input::uhid::{creation, input, keyboard_descriptor, mouse_descriptor};

#[test]
fn reports_and_protocol_roundtrip() {
    assert_eq!(keyboard_report(&[224, 4, 4]), [1, 0, 4, 0, 0, 0, 0, 0]);
    let seven: Vec<u16> = (4..11).collect();
    assert_eq!(&keyboard_report(&seven)[2..], &[1; 6]);
    assert_eq!(keyboard_report(&[]), [0; 8]);
    let reports = mouse_hid_reports(1, 40000, -15, 130);
    assert_eq!(reports, [[1, 255, 127, 241, 255, 127], [1, 65, 28, 0, 0, 3]]);
    let packets = [
        Packet::Mouse {
            control_id: 2,
            buttons: 1,
            dx: 40_000,
            dy: -15,
            wheel: 130,
            source_id: 7,
            source_time_us: 123_456_789,
        },
        Packet::MotionBin {
            source_id: 7,
            sequence: 4,
            period_us: 8_000,
            source_time_us: 123_456_789,
            dx: 31,
            dy: -13,
        },
        Packet::Keyboard { control_id: 1, report: keyboard_report(&[224, 4]) },
        Packet::Heartbeat { source_time_us: 123_456_789 },
        Packet::UdpKey([7; 32]),
        Packet::Arm { epoch: 1, control_id: 3, source_time_us: 123_456_789 },
        Packet::Release { epoch: 2, control_id: 4 },
        Packet::Stop,
    ];
    let data: Vec<u8> = packets.iter().flat_map(|packet| packet.encode()).collect();
    let mut reader = data.as_slice();
    for packet in packets {
        assert_eq!(Packet::read(&mut reader).unwrap(), Some(packet));
    }
    assert_eq!(Packet::read(&mut reader).unwrap(), None);
    assert!(Packet::read(&mut &[1, 0][..]).is_err());
    assert!(Packet::read(&mut &[2, 0][..]).is_err());
    assert!(Packet::read(&mut &[255][..]).is_err());
}

#[test]
fn packets_have_fixed_bytes() {
    assert_eq!(Packet::Stop.encode(), [3]);
    assert_eq!(
        Packet::Heartbeat { source_time_us: 0x0102 }.encode(),
        [0, 2, 1, 0, 0, 0, 0, 0, 0]
    );
    assert_eq!(
        Packet::Release { epoch: 1, control_id: 2 }.encode().len(),
        1 + Packet::body_len(Packet::Release { epoch: 1, control_id: 2 }.encode()[0]).unwrap()
    );
    assert_eq!(Packet::read(&mut &[1, 0][..]), Err(ReadError::UnexpectedEof));
    assert_eq!(Packet::read(&mut &[255][..]), Err(ReadError::UnknownPacket));
}

#[test]
fn reading_leaves_what_follows_a_packet() {
    let mut data = Packet::Stop.encode();
    data.extend([9, 9]);
    let mut reader = data.as_slice();
    assert_eq!(Packet::read(&mut reader), Ok(Some(Packet::Stop)));
    assert_eq!(reader, [9, 9]);
}

#[test]
fn reports_add_up_to_the_whole_movement() {
    let reports = mouse_hid_reports(3, i32::MIN, i32::MAX, -1000);
    let mut sum = [0i64; 3];
    for report in &reports {
        assert_eq!(report[0], 3);
        sum[0] += i64::from(i16::from_le_bytes([report[1], report[2]]));
        sum[1] += i64::from(i16::from_le_bytes([report[3], report[4]]));
        sum[2] += i64::from(report[5] as i8);
    }
    assert_eq!(sum, [i64::from(i32::MIN), i64::from(i32::MAX), -1000]);
    assert_eq!(mouse_hid_reports(5, 0, 0, 0), [[5, 0, 0, 0, 0, 0]]);
}

#[test]
fn a_keyboard_report_depends_on_the_set_of_keys() {
    assert_eq!(keyboard_report(&[9, 231, 5, 9]), keyboard_report(&[5, 9, 231]));
    assert_eq!(keyboard_report(&[5, 9, 231]), [128, 0, 5, 9, 0, 0, 0, 0]);
}

#[test]
fn keys_have_their_usages() {
    // A, Enter, left Control, semicolon, F12, and codes without a usage.
    assert_eq!(usage(30), Some(4));
    assert_eq!(usage(28), Some(40));
    assert_eq!(usage(29), Some(224));
    assert_eq!(usage(39), Some(51));
    assert_eq!(usage(88), Some(69));
    assert_eq!(usage(0), None);
    assert_eq!(usage(700), None);
}

#[test]
fn virtual_devices_are_created_and_fed() {
    let keyboard = keyboard_descriptor();
    let event = creation(b"ADB Input Keyboard", &keyboard, 1);
    assert_eq!(event.len(), 280 + keyboard.len());
    assert_eq!(&event[..4], &[11, 0, 0, 0]);
    assert_eq!(&event[4..22], b"ADB Input Keyboard");
    assert!(event[22..260].iter().all(|byte| *byte == 0));
    assert_eq!(&event[260..264], &[44, 0, 3, 0]);
    assert_eq!(&event[264..280], &[0, 0, 0, 0, 1, 0, 0, 0, 1, 0, 0, 0, 0, 0, 0, 0]);
    assert_eq!(&event[280..], &keyboard);
    assert_eq!(mouse_descriptor().len(), 64);
    assert_eq!(input(&[1, 2, 3]), [12, 0, 0, 0, 3, 0, 1, 2, 3]);
    assert_eq!(
        mouse_events(MouseOutput { buttons: 1, dx: 2, dy: -1, wheel: 0 }),
        [[12, 0, 0, 0, 6, 0, 1, 2, 0, 255, 255, 0]]
    );
}

#[test]
fn requests_are_numbered_and_epochs_grow() {
    let mut link = Link::new();
    assert_eq!(
        link.arm(77),
        Some(Packet::Arm { epoch: 1, control_id: 1, source_time_us: 77 })
    );
    assert_eq!(
        link.keyboard([1; 8]),
        Some(Packet::Keyboard { control_id: 2, report: [1; 8] })
    );
    assert_eq!(link.next_control(), Some(3));
    assert_eq!(link.release(), Some(Packet::Release { epoch: 1, control_id: 4 }));
    assert_eq!(
        link.arm(78),
        Some(Packet::Arm { epoch: 2, control_id: 5, source_time_us: 78 })
    );
    let mut last = Link { epoch: 3, control_id: u64::MAX };
    assert_eq!(last.release(), None);
    assert_eq!(last.keyboard([0; 8]), None);
    assert_eq!(last.arm(0), None);
    assert_eq!(last, Link { epoch: 3, control_id: u64::MAX });
}
