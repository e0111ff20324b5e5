use adb_input::adb::fast_path;
use adb_input::filter::MotionBin;
use adb_input::packet::Packet;
use adb_input::peer::{Ingress, MotionUdp, Origin, Reception, Reply};
use adb_input::udp::{
    aad, Datagram, Direction, Payload, CONTROL_DATAGRAM_LEN, KEY_LEN, MOTION_DATAGRAM_LEN,
};
use chacha20poly1305::aead::{Aead, KeyInit, Payload as AeadPayload};
use chacha20poly1305::{ChaCha20Poly1305, Nonce};

const KEY: [u8; KEY_LEN] = [0x53; KEY_LEN];

const DESKTOP: Origin = Origin { ip: 0x7f000001, port: 40_000 };

const STRANGER: Origin = Origin { ip: 0x7f000001, port: 40_001 };

fn motion(counter: u64) -> Datagram {
    Datagram {
        counter,
        epoch: u64::MAX - 1,
        payload: Payload::MotionBin {
            source_id: 7,
            sequence: u64::MAX,
            period_us: 8_333,
            source_time_us: 123_456_789,
            dx: -32_767,
            dy: 32_767,
        },
    }
}

#[test]
fn encrypted_motion_and_reachability_roundtrip() {
    let cases = [
        motion(1),
        Datagram { counter: 2, epoch: 42, payload: Payload::Hello { nonce: u64::MAX } },
        Datagram { counter: 3, epoch: 42, payload: Payload::Ack { nonce: u64::MAX } },
    ];
    for datagram in cases {
        let direction = match datagram.payload {
            Payload::Ack { .. } => Direction::DeviceToHost,
            _ => Direction::HostToDevice,
        };
        let encoded = datagram.encode(&KEY, direction);
        assert_eq!(Datagram::decode(&KEY, direction, &encoded), Some(datagram));
        assert_eq!(
            encoded.len(),
            match datagram.payload {
                Payload::MotionBin { .. } => MOTION_DATAGRAM_LEN,
                _ => CONTROL_DATAGRAM_LEN,
            }
        );
        let wrong_direction = match direction {
            Direction::HostToDevice => Direction::DeviceToHost,
            Direction::DeviceToHost => Direction::HostToDevice,
        };
        assert_eq!(Datagram::decode(&KEY, wrong_direction, &encoded), None);
    }
    let encoded = motion(1).encode(&KEY, Direction::HostToDevice);
    let original = Packet::MotionBin {
        source_id: 7,
        sequence: u64::MAX,
        period_us: 8_333,
        source_time_us: 123_456_789,
        dx: -32_767,
        dy: 32_767,
    }
    .encode();
    assert!(!encoded.windows(original.len()).any(|bytes| bytes == original));
}

#[test]
fn rejects_tampering_wrong_key_and_trailing_bytes() {
    let encoded = motion(7).encode(&KEY, Direction::HostToDevice);
    assert_eq!(Datagram::decode(&[0x54; KEY_LEN], Direction::HostToDevice, &encoded), None);
    for index in [0, 8, 10, MOTION_DATAGRAM_LEN - 1] {
        let mut tampered = encoded.clone();
        tampered[index] ^= 1;
        assert_eq!(Datagram::decode(&KEY, Direction::HostToDevice, &tampered), None);
    }
    assert_eq!(
        Datagram::decode(&KEY, Direction::HostToDevice, &encoded[..encoded.len() - 1]),
        None
    );
    let mut appended = encoded;
    appended.push(0);
    assert_eq!(Datagram::decode(&KEY, Direction::HostToDevice, &appended), None);
}

#[test]
fn authenticated_non_motion_payload_is_not_a_motion_frame() {
    let counter = 19u64;
    let mut plaintext = 5_u64.to_le_bytes().to_vec();
    plaintext.extend_from_slice(&[0; 33]);
    // A keyboard-shaped frame under the right key is still refused.
    plaintext[8] = 1;
    let cipher = ChaCha20Poly1305::new_from_slice(&KEY).unwrap();
    let ciphertext = cipher
        .encrypt(
            Nonce::from_slice(&Direction::HostToDevice.nonce(counter)),
            AeadPayload { msg: &plaintext, aad: &aad(counter) },
        )
        .unwrap();
    let mut encoded = counter.to_le_bytes().to_vec();
    encoded.extend_from_slice(&ciphertext);
    assert_eq!(encoded.len(), MOTION_DATAGRAM_LEN);
    assert_eq!(Datagram::decode(&KEY, Direction::HostToDevice, &encoded), None);
    assert_eq!(Datagram::from_plaintext(counter, &plaintext), None);
}

#[test]
fn counters_allow_strict_replay_and_reordering_rejection() {
    let mut highest: Option<u64> = None;
    for (counter, accepted) in [(3, true), (3, false), (2, false), (4, true)] {
        let encoded = motion(counter).encode(&KEY, Direction::HostToDevice);
        let packet = Datagram::decode(&KEY, Direction::HostToDevice, &encoded).unwrap();
        let fresh = highest.is_none_or(|last| packet.counter > last);
        assert_eq!(fresh, accepted);
        if fresh {
            highest = Some(packet.counter);
        }
    }
}

#[test]
fn sealed_datagrams_are_those_of_the_cipher() {
    let datagram = motion(9);
    let cipher = ChaCha20Poly1305::new_from_slice(&KEY).unwrap();
    let expected = cipher
        .encrypt(
            Nonce::from_slice(&Direction::DeviceToHost.nonce(9)),
            AeadPayload { msg: &datagram.plaintext(), aad: &aad(9) },
        )
        .unwrap();
    let encoded = datagram.encode(&KEY, Direction::DeviceToHost);
    assert_eq!(&encoded[..8], &9u64.to_le_bytes());
    assert_eq!(&encoded[8..], &expected);
    assert_eq!(Datagram::from_plaintext(9, &datagram.plaintext()), Some(datagram));
}

#[test]
fn authenticated_peer_delivers_motion_and_rejects_replay() {
    let key = [23; KEY_LEN];
    let mut agent = Ingress::new();
    let hello = Datagram { counter: 1, epoch: 0, payload: Payload::Hello { nonce: 91 } };
    let reply = agent.receive(&key, DESKTOP, &hello.encode(&key, Direction::HostToDevice));
    let Reply::Send(answer) = reply else {
        panic!("expected an answer");
    };
    assert!(matches!(
        Datagram::decode(&key, Direction::DeviceToHost, &answer),
        Some(Datagram { counter: 1, payload: Payload::Ack { nonce: 91 }, .. })
    ));

    let motion = Datagram {
        counter: 2,
        epoch: 7,
        payload: Payload::MotionBin {
            source_id: 4,
            sequence: 12,
            period_us: 8_000,
            source_time_us: 123_456,
            dx: 3,
            dy: -2,
        },
    };
    let encoded = motion.encode(&key, Direction::HostToDevice);
    assert_eq!(agent.receive(&key, STRANGER, &encoded), Reply::Ignore);
    assert_eq!(
        agent.receive(&key, DESKTOP, &encoded),
        Reply::Deliver {
            epoch: 7,
            bin: MotionBin {
                source_id: 4,
                sequence: 12,
                period_us: 8_000,
                source_time_us: 123_456,
                dx: 3,
                dy: -2
            }
        }
    );
    // The same authentic datagram cannot bring its motion a second time.
    assert_eq!(agent.receive(&key, DESKTOP, &encoded), Reply::Ignore);
}

#[test]
fn authenticated_reachability_precedes_motion() {
    let key = [19; KEY_LEN];
    let mut desktop = MotionUdp::new(key);
    let hello = desktop.hello(77);
    let received = Datagram::decode(&key, Direction::HostToDevice, &hello).unwrap();
    let Payload::Hello { nonce } = received.payload else {
        panic!("expected reachability challenge");
    };
    let ack = Datagram { counter: 1, epoch: received.epoch, payload: Payload::Ack { nonce } };
    let answer = ack.encode(&key, Direction::DeviceToHost);
    assert!(desktop.acknowledged(77, &answer));
    assert!(!desktop.acknowledged(78, &answer));
    let payload = Payload::MotionBin {
        source_id: 2,
        sequence: 7,
        period_us: 8_000,
        source_time_us: 42,
        dx: 3,
        dy: -1,
    };
    let sent = desktop.send_motion(1, payload).unwrap();
    assert_eq!(
        Datagram::decode(&key, Direction::HostToDevice, &sent).unwrap(),
        Datagram { counter: 2, epoch: 1, payload }
    );
}

#[test]
fn motion_before_a_greeting_is_ignored_and_the_peer_stays() {
    let mut agent = Ingress::new();
    assert_eq!(agent.accept(DESKTOP, motion(1)), Reception::Ignore);
    let hello = |counter| Datagram { counter, epoch: 0, payload: Payload::Hello { nonce: 5 } };
    assert!(matches!(agent.accept(DESKTOP, hello(2)), Reception::Answer(_)));
    assert_eq!(agent.accept(STRANGER, hello(3)), Reception::Ignore);
    assert_eq!(agent.peer, Some(DESKTOP));
    let mut spent = Ingress { device_counter: u64::MAX, ..agent };
    assert_eq!(spent.accept(DESKTOP, hello(9)), Reception::Exhausted);
}

#[test]
fn counters_do_not_wrap() {
    let mut desktop = MotionUdp { key: KEY, next_host_counter: u64::MAX };
    assert_eq!(desktop.send_motion(1, motion(1).payload), None);
    assert_eq!(desktop.next_host_counter, u64::MAX);
}

#[test]
fn the_fast_path_needs_an_address_and_a_port() {
    assert_eq!(
        fast_path("192.168.1.2:5555", 4000),
        Some(Origin { ip: 0xc0a80102, port: 4000 })
    );
    assert_eq!(fast_path("192.168.1.2:5555", 0), None);
    assert_eq!(fast_path("phone:5555", 4000), None);
    assert_eq!(fast_path("[::1]:5555", 4000), None);
    assert_eq!(fast_path("usb-serial", 4000), None);
}

#[test]
fn the_desktop_stops_challenging_a_silent_agent() {
    assert!(MotionUdp::keeps_trying(0));
    assert!(MotionUdp::keeps_trying(399_999));
    assert!(!MotionUdp::keeps_trying(400_000));
}

#[test]
fn a_datagram_of_another_length_does_not_open() {
    let whole = motion(9).encode(&KEY, Direction::HostToDevice);
    assert_eq!(Datagram::decode(&KEY, Direction::HostToDevice, &whole), Some(motion(9)));
    let mut longer = whole.clone();
    longer.push(0);
    for data in [&whole[..whole.len() - 1], &longer[..]] {
        for direction in [Direction::HostToDevice, Direction::DeviceToHost] {
            assert_eq!(Datagram::decode(&KEY, direction, data), None);
        }
    }
}
