use adb_input::adb::{
    choose_agent, connect, connected, devices, failure, may_end, pair, parse_devices, select,
    timed_out, AdbError, Agent, DeviceInfo,
};

#[test]
fn device_listing_preserves_connection_states() {
    let list = parse_devices("List of devices attached\nphone:5555 device model:Galaxy_S25 transport_id:1\nusb unauthorized\nold offline\n\n");
    assert_eq!(list.len(), 3);
    assert_eq!(list[0].model.as_deref(), Some("Galaxy S25"));
    assert_eq!(list[1].state, "unauthorized");
    assert_eq!(list[2].state, "offline");
}

#[test]
fn messages_of_the_daemon_are_no_devices() {
    let report = "* daemon not running; starting now\r\n* daemon started\r\nList of devices attached\r\nx device\r\n";
    assert_eq!(
        devices(report),
        [DeviceInfo { serial: "x".into(), state: "device".into(), model: None }]
    );
    assert_eq!(devices("lonely\n"), []);
}

#[test]
fn pairing_and_connecting_are_judged_by_their_words() {
    assert_eq!(pair("Successfully paired to 10.0.0.3:37000"), Ok(()));
    assert_eq!(pair("Failed: wrong code"), Err(AdbError::PairingFailed));
    assert_eq!(connect("connected to 10.0.0.3:5555\n"), Ok(()));
    assert_eq!(
        connect(" FAILED to connect to host \n"),
        Err(AdbError::Refused("FAILED to connect to host".into()))
    );
    assert_eq!(connected(" device\n"), Ok(()));
    assert_eq!(connected("offline\n"), Err(AdbError::NotConnected));
}

#[test]
fn one_device_is_selected() {
    assert_eq!(select(Some("abc".into()), "device\n"), Ok("abc".into()));
    assert_eq!(select(Some("abc".into()), "offline\n"), Err(AdbError::NotOnline));
    assert_eq!(select(None, "a offline\nb device\n"), Ok("b".into()));
    assert_eq!(select(None, "a device\nb device\n"), Err(AdbError::NotOne(2)));
    assert_eq!(
        select(None, "").unwrap_err().message(),
        "expected one online ADB device; found 0. Use connect, --connect ADDRESS, or --device SERIAL"
    );
}

#[test]
fn an_agent_is_chosen_by_the_machine() {
    assert_eq!(choose_agent("arm64-v8a\n", false, true, true), Ok(Agent::Aarch64));
    assert_eq!(choose_agent("x86_64\n", false, true, true), Ok(Agent::X86_64));
    assert_eq!(choose_agent("x86_64\n", false, true, false), Err(AdbError::NoAgent));
    assert_eq!(
        choose_agent("armeabi\n", false, true, true).unwrap_err().message(),
        "unsupported Android ABI: armeabi; release agents support arm64-v8a and x86_64"
    );
    assert_eq!(choose_agent("armeabi\n", true, false, false), Ok(Agent::Given));
}

#[test]
fn failures_name_the_command_and_its_output() {
    assert_eq!(failure("push", " out\n", " err\n"), "adb push failed: out err");
    assert_eq!(
        AdbError::PairingFailed.message(),
        "Pairing failed. Check the pairing address and code on your phone."
    );
}

#[test]
fn commands_and_ending_agents_are_not_waited_for_without_end() {
    assert!(!timed_out(14_999_999));
    assert!(timed_out(15_000_000));
    assert!(may_end(1_999_999));
    assert!(!may_end(2_000_000));
}
