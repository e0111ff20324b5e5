use adb_input::bytes::{push_le, read_le, signed32};
use adb_input::forecast::{debt_left, debt_less, repayment_of, target_of};
use adb_input::ip::{canonical_text, parse_ipv4, parse_ipv6, show_ipv6};
use adb_input::keys::usage;
use adb_input::text::{
    chars_of, contains, decimal_text, parse, split, split_words, starts_with, text_of,
    trimmed_chars,
};
use adb_input::udp::{Datagram, Direction, Payload};

fn chars(s: &str) -> Vec<char> {
    chars_of(s)
}

#[test]
fn addresses_have_one_text() {
    assert_eq!(parse_ipv4(&chars("192.168.1.2")), Some(vec![192, 168, 1, 2]));
    for bad in ["192.168.1", "1.2.3.256", "01.2.3.4", "1.2.3.4.5", "1.2.3.", "a.2.3.4"] {
        assert_eq!(parse_ipv4(&chars(bad)), None, "{bad}");
    }
    assert_eq!(parse_ipv6(&chars("::1")), Some(vec![0, 0, 0, 0, 0, 0, 0, 1]));
    for bad in ["", ":", ":::", "1::2::3", "1:2:3:4:5:6:7", "12345::", "::1%eth0", "::1.2.3"] {
        assert_eq!(parse_ipv6(&chars(bad)), None, "{bad}");
    }
    let shown = |s: &str| show_ipv6(&parse_ipv6(&chars(s)).unwrap());
    assert_eq!(shown("2001:0DB8:0:0:1:0:0:1"), "2001:db8::1:0:0:1");
    assert_eq!(shown("0:0:0:0:0:0:0:0"), "::");
    assert_eq!(shown("1:0:2:3:4:5:6:7"), "1:0:2:3:4:5:6:7");
    assert_eq!(shown("::ffff:10.0.0.1"), "::ffff:10.0.0.1");
    assert_eq!(shown("64:ff9b::192.0.2.33"), "64:ff9b::c000:221");
    assert_eq!(canonical_text(&chars("2001:DB8::")), Some("2001:db8::".into()));
    assert_eq!(canonical_text(&chars("10.0.0.1")), Some("10.0.0.1".into()));
    assert_eq!(canonical_text(&chars("phone")), None);
}

#[test]
fn numbers_read_back() {
    for n in [0, 7, 10, 65535, u64::MAX] {
        assert_eq!(decimal_text(n), n.to_string());
    }
    assert_eq!(parse(&chars("65535"), 65535), Some(65535));
    assert_eq!(parse(&chars("007"), 65535), Some(7));
    assert_eq!(parse(&chars("65536"), 65535), None);
    assert_eq!(parse(&chars("99999999999999999999999"), 65535), None);
    assert_eq!(parse(&chars(""), 9), None);
    assert_eq!(parse(&chars("-1"), 9), None);
}

#[test]
fn text_is_trimmed_split_and_searched() {
    assert_eq!(text_of(&trimmed_chars("\u{a0}\t a b \r\n")), "a b");
    let pieces: Vec<String> =
        split(&chars("a,,b"), ',').iter().map(|piece| text_of(piece)).collect();
    assert_eq!(pieces, ["a", "", "b"]);
    let words: Vec<String> =
        split_words(&chars("  a\u{3000}bc ")).iter().map(|word| text_of(word)).collect();
    assert_eq!(words, ["a", "bc"]);
    assert!(contains(&chars("xfailedx"), &chars("failed")));
    assert!(!contains(&chars("faile"), &chars("failed")));
    assert!(contains(&chars(""), &chars("")));
    assert!(starts_with(&chars("model:A"), &chars("model:")));
}

#[test]
fn integers_are_little_endian() {
    let mut bytes = Vec::new();
    push_le(&mut bytes, 0x0102_0304, 4);
    assert_eq!(bytes, [4, 3, 2, 1]);
    assert_eq!(read_le(&bytes, 0, 4), 0x0102_0304);
    assert_eq!(signed32(u32::MAX), -1);
}

#[test]
fn forecasts_fade_and_are_paid_back() {
    assert_eq!([target_of(20, 1), target_of(20, 2)], [10, 15]);
    assert_eq!([target_of(-7, 1), target_of(-7, 2)], [-4, -6]);
    assert_eq!(repayment_of(5, 20), 5);
    assert_eq!(repayment_of(15, 20), 10);
    assert_eq!(repayment_of(15, -20), 0);
    assert_eq!([debt_left(15, 20), debt_left(15, -20), debt_left(15, 0)], [5, 0, 15]);
    assert_eq!([debt_less(15, 5), debt_less(15, -5), debt_less(3, 5)], [10, 15, 0]);
}

#[test]
fn usages_fit_a_report() {
    for code in 0..=u16::MAX {
        if let Some(usage) = usage(code) {
            assert!((4..=164).contains(&usage) || (224..=231).contains(&usage));
        }
    }
}

#[test]
fn nonces_and_plaintexts_are_told_apart() {
    let mut seen = std::collections::HashSet::new();
    for counter in [0, 1, 255, 256, u64::MAX] {
        assert!(seen.insert(Direction::HostToDevice.nonce(counter)));
        assert!(seen.insert(Direction::DeviceToHost.nonce(counter)));
    }
    let hello = Datagram { counter: 1, epoch: 2, payload: Payload::Hello { nonce: 3 } };
    let ack = Datagram { counter: 1, epoch: 2, payload: Payload::Ack { nonce: 3 } };
    assert_ne!(hello.plaintext(), ack.plaintext());
    assert_eq!(Datagram::from_plaintext(1, &ack.plaintext()), Some(ack));
    assert_eq!(Datagram::from_plaintext(1, &ack.plaintext()[1..]), None);
}
