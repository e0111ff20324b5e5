use adb_input::devices::{host, port, Endpoint, HostError, SavedDevice, SavedDevices};
use adb_input::json::{Scalar, Table};
use adb_input::saved::{decode, decode_table, encode, encode_table, DecodeError};
use adb_input::store::{state_file, Reading};

fn text(s: &str) -> Option<String> {
    Some(s.to_string())
}

/// A file in memory, which several sessions share.
struct Disk {
    text: Option<String>,
}

impl Disk {
    fn read(&self) -> Reading {
        match &self.text {
            Some(text) => Reading::Text(text.clone()),
            None => Reading::Missing,
        }
    }

    fn change(&mut self, saved: &mut SavedDevices, change: impl FnOnce(&mut SavedDevices)) {
        let lasting = saved.begin(&self.read());
        change(saved);
        if lasting {
            self.text = Some(encode(&saved.entries));
            saved.finish(&Ok(()));
        }
    }
}

#[test]
fn endpoints_roundtrip_without_confusing_ipv6_or_pairing_ports() {
    for address in ["phone.example:5555", "[::1]:12345", "192.168.1.2:65535"] {
        assert_eq!(Endpoint::parse(address).unwrap().address(), address);
    }
    for bad in [
        "",
        ":5555",
        "host:0",
        "host:99999",
        "host:+123",
        "host",
        "::1:5555",
        "bad host:5555",
        "[host]:12",
    ] {
        assert!(Endpoint::parse(bad).is_none(), "{bad}");
    }
}

#[test]
fn history_survives_restart_and_preserves_names_and_connection_ports() {
    let mut disk = Disk { text: None };
    let (mut saved, lasting) = SavedDevices::load("devices.json", &disk.read());
    assert!(lasting);
    let (mut other_session, _) = SavedDevices::load("devices.json", &disk.read());
    disk.change(&mut saved, |s| s.remember("phone".into(), Some(5555), text("Test Phone")));
    disk.change(&mut saved, |s| s.rename("phone", "My phone".into()));
    disk.change(&mut other_session, |s| s.remember("other".into(), Some(4444), None));
    disk.change(&mut saved, |s| s.remember("phone".into(), Some(6666), None));
    // Pairing does not replace the port to connect to.
    disk.change(&mut saved, |s| s.remember("phone".into(), None, None));
    let (mut loaded, _) = SavedDevices::load("devices.json", &disk.read());
    assert_eq!(loaded.entries, saved.entries);
    assert_eq!(loaded.entries.len(), 2);
    assert_eq!(loaded.entries[0].name(), "My phone");
    assert_eq!(loaded.entries[0].port, Some(6666));
    assert!(loaded.change_host("phone", "other".into()).is_err());
    disk.change(&mut loaded, |s| s.change_host("phone", "new-host".into()).unwrap());
    disk.change(&mut loaded, |s| s.remove("other"));
    let (again, _) = SavedDevices::load("devices.json", &disk.read());
    assert_eq!(again.entries[0].host, "new-host");
    disk.text = text("corrupt");
    let (mut broken, lasting) = SavedDevices::load("devices.json", &disk.read());
    assert!(!lasting);
    broken.remember("phone".into(), None, None);
    assert!(broken.warning.is_some());
    assert_eq!(disk.text, text("corrupt"));
}

#[test]
fn a_file_that_fails_leaves_a_warning_and_the_list() {
    let mut saved = SavedDevices::new();
    saved.remember("phone".into(), Some(5555), None);
    assert!(!saved.begin(&Reading::Failed("no space".into())));
    assert_eq!(saved.entries.len(), 1);
    assert_eq!(
        saved.warning.as_deref(),
        Some("Could not update saved devices: no space. Changes are temporary.")
    );
    assert!(saved.begin(&Reading::Missing));
    assert!(saved.entries.is_empty());
    saved.finish(&Err("read-only".into()));
    assert_eq!(
        saved.warning.as_deref(),
        Some("Could not save devices: read-only. Changes are temporary.")
    );
    saved.finish(&Ok(()));
    assert_eq!(saved.warning, None);
    let (broken, _) = SavedDevices::load("/x/devices.json", &Reading::Text("{}".into()));
    assert_eq!(
        broken.warning.as_deref(),
        Some(
            "Cannot read saved devices at /x/devices.json: unsupported saved-device format. \
             Existing file preserved; changes are temporary."
        )
    );
    assert!(SavedDevices::unavailable().warning.is_some());
}

#[test]
fn the_file_is_below_an_absolute_directory() {
    let path = |state: &str, home: &str| {
        state_file(Some(state.as_bytes().to_vec()), Some(home.as_bytes().to_vec()))
            .map(|path| String::from_utf8(path).unwrap())
    };
    assert_eq!(path("/s", "/h"), text("/s/adb-input/devices.json"));
    assert_eq!(path("/s/", "/h"), text("/s/adb-input/devices.json"));
    assert_eq!(path("", "/h"), text("/h/.local/state/adb-input/devices.json"));
    assert_eq!(path("relative", "/h/"), text("/h/.local/state/adb-input/devices.json"));
    assert_eq!(path("", "h"), None);
    assert_eq!(state_file(None, None), None);
}

#[test]
fn hosts_are_brought_into_one_form() {
    assert_eq!(host(" Phone.Example "), text("phone.example"));
    assert_eq!(host("[2001:DB8::0:1]"), text("2001:db8::1"));
    assert_eq!(host("::ffff:1.2.3.4"), text("::ffff:1.2.3.4"));
    assert_eq!(host("a..b"), None);
    assert_eq!(host(""), None);
    assert_eq!(port(" 5555 "), Some(5555));
    assert_eq!(port("0"), None);
    assert_eq!(port("65536"), None);
    assert_eq!(port("+1"), None);
}

#[test]
fn canonical_hosts_stay_as_they_are() {
    for name in ["phone.example", "10.0.0.2", "::1", "2001:db8::1", "fe80::"] {
        assert_eq!(host(name), text(name));
    }
}

#[test]
fn remembered_devices_come_first_and_keep_what_is_known() {
    let mut saved = SavedDevices::new();
    saved.remember("a".into(), Some(1), text("Model A"));
    saved.remember("b".into(), Some(2), None);
    saved.rename("a", "Mine".into());
    saved.remember("a".into(), None, None);
    assert_eq!(
        saved.entries[0],
        SavedDevice { host: "a".into(), port: Some(1), label: text("Mine"), model: text("Model A") }
    );
    assert_eq!(saved.entries[1].host, "b");
    assert_eq!(saved.change_host("a", "b".into()), Err(HostError::Taken));
    assert_eq!(saved.change_host("c", "d".into()), Err(HostError::Missing));
    assert_eq!(saved.change_host("a", "a".into()), Ok(()));
    assert_eq!(saved.find("b").unwrap().port, Some(2));
    saved.remove("b");
    assert!(saved.find("b").is_none());
    assert_eq!(saved.entries.len(), 1);
    assert_eq!(HostError::Taken.text(), "That host already has a saved entry.");
    assert_eq!(HostError::Missing.text(), "saved device no longer exists");
}

#[test]
fn devices_are_named_by_label_model_or_host() {
    let mut device =
        SavedDevice { host: "::1".into(), port: Some(7777), label: None, model: None };
    assert_eq!(device.name(), "::1");
    device.model = text("Model");
    assert_eq!(device.name(), "Model");
    device.label = text("Label");
    assert_eq!(device.name(), "Label");
    assert_eq!(device.address(), text("[::1]:7777"));
    device.port = None;
    assert_eq!(device.address(), None);
}

#[test]
fn each_fault_of_the_file_is_told_apart() {
    assert!(matches!(decode("corrupt"), Err(DecodeError::Json(_))));
    assert_eq!(decode("[]"), Err(DecodeError::Format));
    assert_eq!(decode("{\"version\": 2, \"devices\": []}"), Err(DecodeError::Format));
    assert_eq!(decode("{\"version\": 1}"), Err(DecodeError::NoList));
    let row = |row: &str| decode(&format!("{{\"version\": 1, \"devices\": [{row}]}}"));
    assert_eq!(row("{}"), Err(DecodeError::NoHost));
    assert_eq!(row("7"), Err(DecodeError::NoHost));
    assert_eq!(row("{\"host\": \"bad host\"}"), Err(DecodeError::BadHost));
    assert_eq!(row("{\"host\": \"a\"}, {\"host\": \"A\"}"), Err(DecodeError::Duplicate));
    assert_eq!(row("{\"host\": \"a\", \"port\": 0}"), Err(DecodeError::BadPort));
    assert_eq!(row("{\"host\": \"a\", \"port\": \"1\"}"), Err(DecodeError::BadPort));
    assert_eq!(row("{\"host\": \"a\", \"port\": 65536}"), Err(DecodeError::BadPort));
    assert_eq!(row("{\"host\": \"a\", \"label\": \" \"}"), Err(DecodeError::BadName));
    assert_eq!(row("{\"host\": \"a\", \"model\": \"x\\u0007y\"}"), Err(DecodeError::BadName));
    assert_eq!(row("{\"host\": \"a\", \"model\": 5}"), Err(DecodeError::BadName));
    assert_eq!(
        row("{\"host\": \" A \", \"port\": null, \"label\": \" Mine \"}"),
        Ok(vec![SavedDevice { host: "a".into(), port: None, label: text("Mine"), model: None }])
    );
}

#[test]
fn what_is_written_reads_back() {
    let entries = vec![
        SavedDevice { host: "a".into(), port: Some(5555), label: text("\"L\\"), model: None },
        SavedDevice { host: "::1".into(), port: None, label: None, model: text("M\u{e9}") },
    ];
    assert_eq!(decode(&encode(&entries)).unwrap(), entries);
    assert_eq!(decode_table(&encode_table(&entries)).unwrap(), entries);
    assert!(encode(&entries).contains("\"version\": 1"));
    let no_list = Table { head: Scalar::Number(1), rows: None };
    assert_eq!(decode_table(&no_list), Err(DecodeError::NoList));
}

#[test]
fn canonical_hosts_have_a_plain_form() {
    let long = format!("{}.{}.{}.{}", "A".repeat(63), "b".repeat(63), "c".repeat(63), "d".repeat(61));
    assert_eq!(long.len(), 253);
    for value in [
        " Phone.LOCAL. ",
        "[FE80::00AB]",
        "2001:DB8:0:0:1:0:0:1",
        "::ffff:10.0.0.3",
        "1::",
        "FFFF:FFFF:FFFF:FFFF:FFFF:FFFF:FFFF:FFFF",
        "10.0.0.3",
        &long,
    ] {
        let canonical = host(value).unwrap();
        assert_eq!(host(&canonical).as_deref(), Some(canonical.as_str()));
        assert!(!canonical.is_empty() && canonical.len() <= 253);
        assert!(!canonical.ends_with('.'));
        assert!(!canonical
            .chars()
            .any(|c| c.is_whitespace() || c == '[' || c == ']' || c.is_ascii_uppercase()));
    }
    assert_eq!(host(" Phone.LOCAL. "), text("phone.local"));
    assert_eq!(host("[FE80::00AB]"), text("fe80::ab"));
    assert_eq!(host(&format!("{long}e")), None);
}
