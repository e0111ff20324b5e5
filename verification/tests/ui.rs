use adb_input::adb::{connect, connected, devices, pair, DeviceInfo};
use adb_input::devices::{Endpoint, SavedDevices};
use adb_input::editor::{clip, Editor};
use adb_input::forms::{address_valid, ConnectForm, ConnectStep, Field, Form, FormStep};
use adb_input::frame::{colored, draw, redraws, terminal_size, Line, Screen, Style};
use adb_input::home::{remember_paired, run, Action, Home};
use adb_input::manage::{Change, ManageStep, Manager};
use adb_input::menu::{menu, pick, session_goes_on, session_screen, working, Choice};
use adb_input::reconnect::{ReconnectForm, ReconnectStep};
use adb_input::roster::{
    choices, connection_info, preferred, reconnect_entry, remember_device, retain_choice,
    saved_notice,
};
use adb_input::saved::encode;
use adb_input::store::Reading;
use adb_input::terminal::{Decoder, Key};
use adb_input::desktop::Mode;

/// What the `adb` command does: it refuses port 5556, and lists what is connected.
struct Adb {
    listed: Option<String>,
    refuses: &'static str,
}

impl Adb {
    fn list(&self) -> Vec<DeviceInfo> {
        let mut report = String::from("List of devices attached\n");
        if let Some(serial) = &self.listed {
            report.push_str(&format!("{serial} device model:Test_Phone\n"));
        }
        devices(&report)
    }

    fn connect(&mut self, address: &str) -> Result<(), String> {
        if address.ends_with(self.refuses) {
            return Err("adb connect failed:  connection refused".into());
        }
        connect(&format!("connected to {address}")).map_err(|error| error.message())?;
        self.listed = Some(address.into());
        connected("device\n").map_err(|error| error.message())
    }

    fn pair(&self, address: &str, code: &str) -> Result<(), String> {
        assert_eq!(code, "123456");
        pair(&format!("Successfully paired to {address}")).map_err(|error| error.message())
    }
}

enum Stage {
    Home,
    Choose { labels: Vec<String>, selected: usize },
    Connect(ConnectForm),
    Reconnect(ReconnectForm),
    Manage(Manager),
    Left,
}

/// The interactive program, on a terminal and with a file in memory.
struct Ui {
    adb: Adb,
    disk: Option<String>,
    saved: SavedDevices,
    home: Home,
    stage: Stage,
    decoder: Decoder,
    color: bool,
    size: (usize, usize),
}

impl Ui {
    fn start(color: bool, adb: Adb, disk: Option<String>) -> Ui {
        let reading = match &disk {
            Some(text) => Reading::Text(text.clone()),
            None => Reading::Missing,
        };
        let (saved, _) = SavedDevices::load("devices.json", &reading);
        let home = Home::new(&saved, &Ok(adb.list()));
        Ui {
            adb,
            disk,
            saved,
            home,
            stage: Stage::Home,
            decoder: Decoder::new(),
            color,
            size: (80, 24),
        }
    }

    fn save<T>(&mut self, change: impl FnOnce(&mut SavedDevices) -> T) -> T {
        let reading = match &self.disk {
            Some(text) => Reading::Text(text.clone()),
            None => Reading::Missing,
        };
        assert!(self.saved.begin(&reading));
        let result = change(&mut self.saved);
        self.disk = Some(encode(&self.saved.entries));
        self.saved.finish(&Ok(()));
        result
    }

    fn output(&self) -> String {
        let (width, height) = self.size;
        let screen = match &self.stage {
            Stage::Home => self.home.screen(width, height),
            Stage::Choose { labels, selected } => {
                menu("Choose device", None, labels, *selected, "", false, width, height)
            }
            Stage::Connect(form) => form.screen(width, height),
            Stage::Reconnect(form) => form.screen(width, height),
            Stage::Manage(manager) => manager.screen(width, height),
            Stage::Left => return String::new(),
        };
        draw(&screen, width, height, self.color, "0.1.0")
    }

    fn shows(&self, needle: &str) -> bool {
        self.output().contains(needle)
    }

    fn send(&mut self, bytes: &[u8]) {
        self.decoder.push(bytes);
        while let Some(key) = self.decoder.next(false) {
            self.key(key);
        }
        while let Some(key) = self.decoder.next(true) {
            self.key(key);
        }
    }

    fn act(&mut self, action: Action) {
        match action {
            Action::Stay => {}
            Action::Quit => self.stage = Stage::Left,
            Action::Reconnect(entry) => self.stage = Stage::Reconnect(ReconnectForm::new(entry)),
            Action::Control(_) => panic!("no phone to control"),
            Action::Use(device) => {
                self.save(|saved| remember_device(saved, &device));
                self.home.uses(device, &self.saved);
            }
            Action::Choose => {
                let labels = self.home.list(&self.adb.list(), &self.saved);
                if !labels.is_empty() {
                    self.stage = Stage::Choose { labels, selected: 0 };
                }
            }
            Action::Connect { pairing } => self.stage = Stage::Connect(ConnectForm::new(pairing)),
            Action::Refresh => self.home.refreshed(&self.adb.list(), &self.saved),
            Action::Manage => match Manager::new(&self.saved) {
                Some(manager) => self.stage = Stage::Manage(manager),
                None => self.home.managed(Manager::nothing()),
            },
        }
    }

    fn key(&mut self, key: Key) {
        match std::mem::replace(&mut self.stage, Stage::Home) {
            Stage::Home => {
                let action = run(&mut self.home, &Some(key), &self.saved);
                self.act(action);
            }
            Stage::Choose { labels, selected } => {
                match pick(selected, labels.len(), &Some(key)) {
                    Choice::Stay(selected) => self.stage = Stage::Choose { labels, selected },
                    Choice::Picked(index) => {
                        let action = self.home.picked(index, &self.saved);
                        self.act(action);
                    }
                    Choice::Back => {}
                }
            }
            Stage::Connect(mut form) => match form.key(Some(key)) {
                ConnectStep::Stay => self.stage = Stage::Connect(form),
                ConnectStep::Cancel => {}
                ConnectStep::Connect(address) => match self.adb.connect(&address) {
                    Ok(()) => {
                        let device = connection_info(&self.adb.list(), &address);
                        self.save(|saved| remember_device(saved, &device));
                        self.home.joined(Some(device), &self.saved);
                    }
                    Err(error) => {
                        form.failed(&error);
                        self.stage = Stage::Connect(form);
                    }
                },
                ConnectStep::Pair { address, code } => match self.adb.pair(&address, &code) {
                    Ok(()) => {
                        let entry = self.save(|saved| remember_paired(&address, saved)).unwrap();
                        self.home.paired(&entry, &self.saved);
                        self.stage = Stage::Reconnect(ReconnectForm::new(entry));
                    }
                    Err(error) => {
                        form.failed(&error);
                        self.stage = Stage::Connect(form);
                    }
                },
            },
            Stage::Reconnect(mut form) => match form.key(Some(key), &self.saved) {
                ReconnectStep::Stay => self.stage = Stage::Reconnect(form),
                ReconnectStep::Cancel => self.home.joined(None, &self.saved),
                ReconnectStep::Connect { host, port } => {
                    let address = Endpoint { host: host.clone(), port }.address();
                    match self.adb.connect(&address) {
                        Ok(()) => {
                            let device = connection_info(&self.adb.list(), &address);
                            match self.save(|saved| form.connected(&host, device, saved)) {
                                Ok(device) => self.home.joined(Some(device), &self.saved),
                                Err(error) => self.home.fail(error.text()),
                            }
                        }
                        Err(error) => {
                            form.failed(&error);
                            self.stage = Stage::Reconnect(form);
                        }
                    }
                }
            },
            Stage::Manage(mut manager) => match manager.key(Some(key)) {
                ManageStep::Stay => self.stage = Stage::Manage(manager),
                ManageStep::Leave => self.home.managed(""),
                ManageStep::Apply(change) => {
                    match self.save(|saved| change.apply(saved)) {
                        Ok(news) => {
                            let notice = saved_notice(&self.saved, news);
                            self.home.managed(&notice);
                        }
                        Err(error) => self.home.fail(error.text()),
                    }
                    self.home.relisted(&self.adb.list(), &self.saved);
                }
            },
            Stage::Left => self.stage = Stage::Left,
        }
    }
}

fn nothing() -> Adb {
    Adb { listed: None, refuses: ":5556" }
}

#[test]
fn navigate_edit_retry_cancel_and_restore_terminal() {
    let adb = Adb { listed: Some("phone:5555".into()), refuses: ":5555" };
    let mut ui = Ui::start(true, adb, None);
    assert!(ui.shows("Test Phone"));
    assert!(ui.shows("\x1b[1;36m"));
    ui.send(b"\x1b[B\x1b[B\r");
    assert!(ui.shows("Connect a device"));
    ui.send(b"bad\r");
    assert!(ui.shows("Enter an address and port"));
    ui.send(b"\x01\x1b[3~\x1b[3~\x1b[3~host:5555\r");
    assert!(ui.shows("connection refused"));
    assert!(ui.shows("host:5555"));
    ui.send(b"\x1b");
    assert!(ui.shows("Choose device"));
    ui.send(b"\x03");
    assert!(matches!(ui.stage, Stage::Left));
}

#[test]
fn monochrome_resize_and_signal_cleanup() {
    let adb = Adb { listed: Some("phone:5555".into()), refuses: ":5555" };
    let mut ui = Ui::start(false, adb, None);
    assert!(ui.shows("Test Phone"));
    assert!(!ui.shows("\x1b[1;36m"));
    ui.size = (25, 8);
    assert!(ui.shows("Resize terminal"));
}

#[test]
fn saved_device_reconnects_by_port_after_restart_and_can_be_managed() {
    let mut first = Ui::start(true, nothing(), None);
    assert!(first.shows("No device connected"));
    first.send(b"\x1b[B\x1b[B\r");
    assert!(first.shows("Connect a device"));
    first.send(b"10.0.0.2:5555\r");
    assert!(first.shows("Connected. Select Start control"));
    assert_eq!(first.saved.entries[0].port, Some(5555));
    first.send(b"\x1b[B\x1b[B\x1b[B\x1b[B\x1b[B\r");
    assert!(first.shows("Manage saved devices"));
    first.send(b"\r");
    assert!(first.shows("Remove from saved list"));
    first.send(b"\r");
    assert!(first.shows("Rename saved device"));
    first.send(b"My Phone\r");
    assert!(first.shows("Device renamed."));
    first.send(b"\x03");

    let mut second = Ui::start(true, nothing(), first.disk.clone());
    assert!(second.shows("My Phone"));
    second.send(b"\r");
    assert!(second.shows("[5555]"));
    second.send(b"5556\r");
    assert!(second.shows("connection refused"));
    assert_eq!(second.saved.entries[0].port, Some(5555));
    second.send(b"\x1b");
    assert!(second.shows("Reconnect"));
    second.send(b"\r");
    assert!(second.shows("[5555]"));
    second.send(b"6666\r");
    assert!(second.shows("Connected. Select Start control"));
    assert_eq!(second.saved.entries.len(), 1);
    assert_eq!(second.saved.entries[0].port, Some(6666));
    assert_eq!(second.saved.entries[0].label.as_deref(), Some("My Phone"));
    second.send(b"\x03");

    let mut third = Ui::start(true, nothing(), second.disk.clone());
    assert!(third.shows("My Phone"));
    third.send(b"\r");
    assert!(third.shows("[6666]"));
    third.send(b"\t[::1]\r7777\r");
    assert!(third.shows("Connected. Select Start control"));
    assert_eq!(third.saved.entries.len(), 1);
    assert_eq!(third.saved.entries[0].host, "::1");
    assert_eq!(third.saved.entries[0].port, Some(7777));
    third.send(b"\x1b[B\x1b[B\x1b[B\x1b[B\x1b[B\r");
    assert!(third.shows("Manage saved devices"));
    third.send(b"\r");
    assert!(third.shows("Remove from saved list"));
    third.send(b"\x1b[B\x1b[B\r");
    assert!(third.shows("Removed from this list."));
    assert!(third.saved.entries.is_empty());
}

#[test]
fn pairing_keeps_host_but_never_saves_pairing_port_or_code() {
    let mut ui = Ui::start(true, nothing(), None);
    assert!(ui.shows("No device connected"));
    ui.send(b"\x1b[B\x1b[B\x1b[B\r");
    assert!(ui.shows("Use the pairing address"));
    ui.send(b"10.0.0.3:37000\r");
    assert!(ui.shows("Pairing code"));
    ui.send(b"123456");
    assert!(ui.shows("******"));
    assert!(!ui.shows("123456"));
    ui.send(b"\r");
    assert!(ui.shows("Connect 10.0.0.3"));
    assert_eq!(ui.saved.entries[0].host, "10.0.0.3");
    assert_eq!(ui.saved.entries[0].port, None);
    let raw = ui.disk.clone().unwrap();
    assert!(!raw.contains("37000"));
    assert!(!raw.contains("123456"));
    ui.send(b"42000\r");
    assert!(ui.shows("Connected. Select Start control"));
    assert_eq!(ui.saved.entries[0].port, Some(42000));

    let device = DeviceInfo {
        serial: "10.0.0.3:43000".into(),
        state: "device".into(),
        model: None,
    };
    ui.save(|saved| remember_device(saved, &device));
    assert_eq!(ui.saved.entries.len(), 1);
    assert_eq!(ui.saved.entries[0].port, Some(43000));
}

#[test]
fn address_validation_handles_ipv4_ipv6_and_bad_ports() {
    assert!(address_valid("host.example:5555"));
    assert!(address_valid("[::1]:12345"));
    for value in ["", ":5555", "host:0", "host:99999", "host"] {
        assert!(!address_valid(value));
    }
}

#[test]
fn fragmented_keys_paste_and_editing() {
    let mut decoder = Decoder::new();
    decoder.push(b"\x1b[");
    assert_eq!(decoder.next(false), None);
    decoder.push(b"A");
    assert_eq!(decoder.next(false), Some(Key::Up));
    decoder.push(b"\x1b[200~127.0.0.1:5555\n\x1b[201~");
    let mut editor = Editor::new();
    editor.key(decoder.next(false).unwrap());
    editor.key(Key::Left);
    editor.key(Key::Delete);
    editor.key(Key::Char('6'));
    assert_eq!(editor.value(), "127.0.0.1:5556");
    assert!(!editor.display(true, 12).contains('5'));
    decoder.push(b"\x1b");
    assert_eq!(decoder.next(true), Some(Key::Escape));
    assert_eq!(clip("bad\x1b[2J\n", 20), "bad?[2J?");
    let mut selected = Editor::selected("5555");
    assert_eq!(selected.display(false, 20), "[5555]");
    selected.key(Key::Paste("43210".into()));
    assert_eq!(selected.value(), "43210");
    let mut selected = Editor::selected("5555");
    selected.key(Key::Left);
    selected.key(Key::Delete);
    assert_eq!(selected.value(), "555");
}

#[test]
fn bytes_are_decoded_to_keys() {
    let keys = |bytes: &[u8]| {
        let mut decoder = Decoder::new();
        decoder.push(bytes);
        let mut keys = Vec::new();
        while let Some(key) = decoder.next(true) {
            keys.push(key);
        }
        keys
    };
    assert_eq!(
        keys(b"\x1b[C\x1b[D\x1bOH\x1b[F\x1bOA\x7f\t\r\x04"),
        [
            Key::Right,
            Key::Left,
            Key::Home,
            Key::End,
            Key::Up,
            Key::Backspace,
            Key::Tab,
            Key::Enter,
            Key::Interrupt
        ]
    );
    assert_eq!(keys("\u{e9}\u{1}x".as_bytes()), [Key::Char('\u{e9}'), Key::Home, Key::Char('x')]);
    assert_eq!(keys(b"\xffa\x02b"), [Key::Char('a'), Key::Char('b')]);
    assert_eq!(keys(b"\xc3\x28c"), [Key::Char('('), Key::Char('c')]);
    assert_eq!(keys(b"\x1b[200~a\xff\x1b[201~"), [Key::Paste("a\u{fffd}".into())]);
    assert_eq!(
        keys("\x1b[200~\u{e9}\u{20ac}\x1b[201~".as_bytes()),
        [Key::Paste("\u{e9}\u{20ac}".into())]
    );
    assert_eq!(keys(b"\x02\xff\x1b[200~p\x1b[201~"), [Key::Paste("p".into())]);
    assert_eq!(keys(b"\x1b[200~half\x03"), [Key::Interrupt]);
    assert_eq!(keys(b"\x1bx"), [Key::Escape, Key::Char('x')]);
}

#[test]
fn keys_do_not_depend_on_how_bytes_arrive() {
    let bytes = "a\u{20ac}\x1b[3~\x1b[200~p\x1b[201~z".as_bytes();
    let mut whole = Decoder::new();
    whole.push(bytes);
    let mut pieces = Decoder::new();
    let (mut first, mut second) = (Vec::new(), Vec::new());
    while let Some(key) = whole.next(false) {
        first.push(key);
    }
    for byte in bytes {
        pieces.push(&[*byte]);
        while let Some(key) = pieces.next(false) {
            second.push(key);
        }
    }
    assert_eq!(first, second);
    assert_eq!(first.len(), 5);
}

#[test]
fn text_is_cut_to_its_cells() {
    assert_eq!(clip("abcdef", 6), "abcdef");
    assert_eq!(clip("abcdef", 5), "ab...");
    assert_eq!(clip("abcdef", 2), "ab");
    assert_eq!(clip("\u{e9}", 3), "?");
}

#[test]
fn typing_and_backspace_undo_each_other_within_limits() {
    let mut editor = Editor::selected("ab");
    editor.key(Key::Home);
    editor.key(Key::Char('x'));
    assert_eq!(editor.value(), "xab");
    editor.key(Key::Backspace);
    assert_eq!(editor.value(), "ab");
    editor.key(Key::Paste("y".repeat(400)));
    assert_eq!(editor.value().len(), 256);
    editor.key(Key::Char('\u{7}'));
    assert_eq!(editor.value().len(), 256);
}

#[test]
fn forms_send_only_what_is_valid_and_keep_it_after_a_failure() {
    let mut form = Form::new(Field::PairingCode, "");
    for c in "12345".chars() {
        assert_eq!(form.key(Some(Key::Char(c))), FormStep::Stay);
    }
    assert_eq!(form.key(Some(Key::Enter)), FormStep::Stay);
    assert_eq!(form.validation, "Enter the 6-digit pairing code.");
    form.key(Some(Key::Char('6')));
    assert_eq!(form.key(None), FormStep::Stay);
    assert_eq!(form.key(Some(Key::Enter)), FormStep::Done("123456".into()));
    assert_eq!(form.key(Some(Key::Escape)), FormStep::Back);
    assert!(!Field::Name.valid(""));
    assert!(Field::Name.valid(&"n".repeat(80)));
    assert!(!Field::Name.valid(&"n".repeat(81)));
    assert!(Field::Host.valid("::1"));
    assert_eq!(Field::Name.error(), "Enter a name of 1 to 80 characters.");
    assert_eq!(Field::Host.error(), "Enter an IP address or hostname without a port.");

    let mut connect = ConnectForm::new(false);
    for c in " Host:5555 ".chars() {
        connect.key(Some(Key::Char(c)));
    }
    assert_eq!(connect.key(Some(Key::Enter)), ConnectStep::Connect("host:5555".into()));
    connect.failed("refused");
    assert!(connect.screen(80, 24).lines.iter().any(|line| line.text == "refused"));
    assert_eq!(connect.key(Some(Key::Enter)), ConnectStep::Connect("host:5555".into()));
    assert_eq!(connect.key(Some(Key::Interrupt)), ConnectStep::Cancel);
}

#[test]
fn reconnecting_checks_the_host_and_the_port() {
    let mut saved = SavedDevices::new();
    saved.remember("other".into(), Some(1), None);
    saved.remember("phone".into(), Some(5555), None);
    let entry = saved.entries[0].clone();
    let mut form = ReconnectForm::new(entry);
    assert_eq!(
        form.key(Some(Key::Enter), &saved),
        ReconnectStep::Connect { host: "phone".into(), port: 5555 }
    );
    form.key(Some(Key::Delete), &saved);
    assert_eq!(form.key(Some(Key::Enter), &saved), ReconnectStep::Stay);
    assert_eq!(form.error, "Enter a connection port from 1 to 65535.");
    form.key(Some(Key::Paste("1".into())), &saved);
    form.key(Some(Key::Up), &saved);
    form.key(Some(Key::Paste("other".into())), &saved);
    form.key(Some(Key::Down), &saved);
    assert_eq!(form.key(Some(Key::Enter), &saved), ReconnectStep::Stay);
    assert_eq!(
        form.error,
        "That host already has a saved entry. Select it from the device list."
    );
    form.key(Some(Key::Tab), &saved);
    form.key(Some(Key::Paste(" x".into())), &saved);
    assert_eq!(form.key(Some(Key::Enter), &saved), ReconnectStep::Stay);
    assert_eq!(form.error, "Enter an IP address or hostname without a port.");
    assert_eq!(form.key(Some(Key::Escape), &saved), ReconnectStep::Cancel);
    form.failed("refused");
    let shown: Vec<String> = form.screen(80, 24).lines.into_iter().map(|l| l.text).collect();
    assert_eq!(shown[0], "Connect phone");
    assert_eq!(shown[3], "  Port: 1");
    assert_eq!(shown.last().unwrap(), "refused");
}

#[test]
fn managing_renames_moves_and_refuses() {
    let mut saved = SavedDevices::new();
    assert!(Manager::new(&saved).is_none());
    saved.remember("b".into(), None, None);
    saved.remember("a".into(), Some(9), None);
    let mut manager = Manager::new(&saved).unwrap();
    assert_eq!(manager.key(Some(Key::Enter)), ManageStep::Stay);
    assert_eq!(manager.key(Some(Key::Char('j'))), ManageStep::Stay);
    assert_eq!(manager.key(Some(Key::Enter)), ManageStep::Stay);
    assert_eq!(manager.screen(80, 24).lines[0].text, "Edit saved host");
    manager.key(Some(Key::Paste("B".into())));
    let step = manager.key(Some(Key::Enter));
    let change = Change::Move { from: "a".into(), to: "b".into() };
    assert_eq!(step, ManageStep::Apply(Change::Move { from: "a".into(), to: "b".into() }));
    assert!(change.apply(&mut saved).is_err());
    let moved = Change::Move { from: "a".into(), to: "c".into() };
    assert_eq!(moved.apply(&mut saved), Ok("Host updated."));
    assert_eq!(saved.entries[0].port, Some(9));
    let mut manager = Manager::new(&saved).unwrap();
    assert_eq!(manager.key(Some(Key::Escape)), ManageStep::Leave);
}

#[test]
fn devices_that_can_be_used_come_first() {
    let mut saved = SavedDevices::new();
    saved.remember("old".into(), Some(1), None);
    saved.remember("phone".into(), Some(5555), None);
    saved.rename("phone", "Mine".into());
    let online = devices("usb device\nphone:6666 device\nold:1 offline\nx unauthorized\n");
    let list = choices(&online, &saved);
    let serials: Vec<&str> = list.iter().map(|device| device.serial.as_str()).collect();
    assert_eq!(serials, ["phone:6666", "usb", "old:1", "x"]);
    assert_eq!(list[0].model.as_deref(), Some("Mine"));
    assert_eq!(list[2].state, "saved");
    assert_eq!(preferred(&list).unwrap().serial, "phone:6666");
    assert_eq!(retain_choice(&Some(online[2].clone()), &list).unwrap().serial, "old:1");
    assert_eq!(retain_choice(&None, &list).unwrap().serial, "phone:6666");
    assert_eq!(preferred(&Vec::new()), None);
    assert_eq!(reconnect_entry(&online[3], &saved), None);
    assert_eq!(reconnect_entry(&list[2], &saved).unwrap().host, "old");
    assert_eq!(connection_info(&online, "usb").state, "device");
    assert_eq!(connection_info(&online, "new:1").state, "device");
}

#[test]
fn home_tells_what_to_do() {
    let saved = SavedDevices::new();
    let mut home = Home::new(&saved, &Err("cannot execute adb".into()));
    assert!(home.notice_error);
    assert_eq!(home.notice, "cannot execute adb");
    assert_eq!(run(&mut home, &Some(Key::Enter), &saved), Action::Stay);
    assert_eq!(home.notice, "Connect or select a saved device first.");
    assert_eq!(home.selected, 2);
    assert_eq!(run(&mut home, &Some(Key::Enter), &saved), Action::Connect { pairing: false });
    run(&mut home, &Some(Key::Down), &saved);
    assert_eq!(run(&mut home, &Some(Key::Enter), &saved), Action::Connect { pairing: true });
    run(&mut home, &Some(Key::Down), &saved);
    assert_eq!(run(&mut home, &Some(Key::Enter), &saved), Action::Refresh);
    home.refreshed(&devices("usb device\n"), &saved);
    assert_eq!(home.notice, "1 device(s) found, including saved devices.");
    for _ in 0..9 {
        run(&mut home, &Some(Key::Up), &saved);
    }
    let Action::Control(device) = run(&mut home, &Some(Key::Enter), &saved) else {
        panic!("expected control");
    };
    assert_eq!(device.serial, "usb");
    home.stopped(&saved);
    assert_eq!(home.notice, "Input stopped. Desktop controls restored.");
    home.session_failed(&Vec::new(), "gone");
    assert_eq!(home.chosen.as_ref().unwrap().state, "offline");
    assert_eq!(run(&mut home, &Some(Key::Enter), &saved), Action::Stay);
    assert_eq!(
        home.notice,
        "Reconnect the USB cable and approve debugging, then refresh devices."
    );
    assert!(home.notice_error);
    assert_eq!(home.list(&Vec::new(), &saved), Vec::<String>::new());
    assert_eq!(home.notice, "No devices found. Connect or pair a device.");
    let labels = home.list(&devices("usb device model:A_B\n"), &saved);
    assert_eq!(labels, ["A B / usb / device"]);
    assert!(matches!(home.picked(0, &saved), Action::Use(_)));
    for _ in 0..9 {
        run(&mut home, &Some(Key::Char('j')), &saved);
    }
    assert_eq!(run(&mut home, &Some(Key::Enter), &saved), Action::Quit);
    assert_eq!(run(&mut home, &Some(Key::Escape), &saved), Action::Quit);
}

#[test]
fn menus_fit_and_keep_the_selection_in_view() {
    let items: Vec<String> = (0..30).map(|i| format!("item {i}")).collect();
    for height in [10, 12, 16, 24] {
        for selected in [0, 7, 29] {
            let screen = menu("T", None, &items, selected, "notice", true, 80, height);
            assert!(screen.lines.len() <= height - 6);
            assert!(screen.lines.iter().any(|line| line.text == format!("> item {selected}")));
        }
    }
    assert_eq!(pick(29, 30, &Some(Key::Down)), Choice::Stay(29));
    assert_eq!(pick(0, 0, &Some(Key::Enter)), Choice::Stay(0));
    assert_eq!(pick(3, 30, &Some(Key::Enter)), Choice::Picked(3));
    assert_eq!(working("Finding devices", 130).lines[2].text, "\\ Working...");
}

#[test]
fn sessions_show_where_input_goes() {
    let device =
        DeviceInfo { serial: "usb".into(), state: "device".into(), model: None };
    let screen = session_screen(&device, Mode::Remote, "lost");
    assert_eq!(screen.lines[0].text, "* usb / Connected");
    assert_eq!(screen.lines[2].text, "PHONE");
    assert_eq!(screen.lines[5].text, "lost");
    assert_eq!(session_screen(&device, Mode::Local, "").lines[2].text, "DESKTOP");
    assert_eq!(session_screen(&device, Mode::Arming, "").lines[2].text, "SWITCHING");
    assert!(!session_goes_on(Mode::Local, &Some(Key::Escape)));
    assert!(session_goes_on(Mode::Remote, &Some(Key::Escape)));
    assert!(session_goes_on(Mode::Local, &None));
}

#[test]
fn frames_fill_the_terminal() {
    let screen = Screen {
        lines: vec![Line::new("Hello\x1b[2J", Style::Accent)],
        footer: "Footer".into(),
    };
    let frame = draw(&screen, 40, 12, true, "1.2.3");
    assert!(frame.starts_with("\x1b[H\x1b[0m\x1b[2K \x1b[0m\r\n"));
    assert!(frame.contains("\x1b[1;36mHello?[2J\r\n"));
    assert!(frame.contains("\x1b[90mFooter\r\n"));
    assert!(frame.contains(&format!("adb-input{}v1.2.3\r\n", " ".repeat(22))));
    assert_eq!(frame.matches("\r\n").count(), 11);
    let plain = draw(&screen, 40, 12, false, "1.2.3");
    let other = Screen {
        lines: vec![Line::new("Hello\x1b[2J", Style::Error)],
        footer: "Footer".into(),
    };
    assert_eq!(plain, draw(&other, 40, 12, false, "1.2.3"));
}

#[test]
fn only_a_changed_frame_is_written() {
    assert!(redraws("", "a"));
    assert!(redraws("a", "b"));
    assert!(!redraws("a", "a"));
}

#[test]
fn a_terminal_has_a_size_and_may_have_color() {
    assert_eq!(terminal_size(Some((120, 40))), (120, 40));
    assert_eq!(terminal_size(Some((0, 40))), (80, 24));
    assert_eq!(terminal_size(Some((120, 0))), (80, 24));
    assert_eq!(terminal_size(None), (80, 24));
    assert!(colored(false, "xterm-256color"));
    assert!(colored(false, ""));
    assert!(!colored(false, "dumb"));
    assert!(!colored(true, "xterm-256color"));
}

/// The keys of pieces, taken after each of them, and the bytes that are left.
fn keys_of(pieces: &[&[u8]]) -> (Vec<Key>, Vec<u8>) {
    let mut decoder = Decoder::new();
    let mut keys = Vec::new();
    for piece in pieces {
        decoder.push(piece);
        while let Some(key) = decoder.next(false) {
            keys.push(key);
        }
    }
    (keys, decoder.bytes)
}

#[test]
fn every_cut_gives_the_same_keys_and_rest() {
    let bytes = "\x03b\u{e9}\x1bOA\x02\x1b[200~x\u{20ac}\x1b[201~\x1b[3~q\x1b[200~open".as_bytes();
    let whole = keys_of(&[bytes]);
    assert_eq!(
        whole.0,
        [
            Key::Interrupt,
            Key::Char('b'),
            Key::Char('\u{e9}'),
            Key::Up,
            Key::Paste("x\u{20ac}".into()),
            Key::Delete,
            Key::Char('q')
        ]
    );
    assert_eq!(whole.1, b"\x1b[200~open");
    for i in 0..=bytes.len() {
        assert_eq!(keys_of(&[&bytes[..i], &bytes[i..]]), whole);
        for j in i..=bytes.len() {
            assert_eq!(keys_of(&[&bytes[..i], &bytes[i..j], &bytes[j..]]), whole);
        }
    }
}

#[test]
fn an_interrupt_drops_what_came_with_pasted_text() {
    assert_eq!(keys_of(&[b"\x1b[200~a\x1b[201~\x03"]).0, [Key::Interrupt]);
    assert_eq!(
        keys_of(&[b"\x1b[200~a\x1b[201~", b"\x03"]).0,
        [Key::Paste("a".into()), Key::Interrupt]
    );
}
