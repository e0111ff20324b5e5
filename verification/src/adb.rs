//! What the answers of the `adb` command mean.
use crate::devices;
use crate::ip::{self, parse_ipv4};
use crate::packet::READY;
use crate::peer::Origin;
use crate::text::{self, chars_of, decimal_text, split, split_words, text_of, trimmed_chars};
use vstd::prelude::*;
use vstd::string::*;

verus! {

/// A device that ADB lists.
#[derive(Clone, Debug, PartialEq, Eq)]
pub struct DeviceInfo {
    pub serial: String,
    pub state: String,
    pub model: Option<String>,
}

#[verifier::ext_equal]
pub struct InfoView {
    pub serial: Seq<char>,
    pub state: Seq<char>,
    pub model: Option<Seq<char>>,
}

impl View for DeviceInfo {
    type V = InfoView;

    open spec fn view(&self) -> InfoView {
        InfoView {
            serial: self.serial@,
            state: self.state@,
            model: devices::text_option(self.model),
        }
    }
}

impl DeviceInfo {
    /// The same device again.
    pub fn copy(&self) -> (r: DeviceInfo)
        ensures
            r@ == self@,
    {
        DeviceInfo {
            serial: text::text(self.serial.as_str()),
            state: text::text(self.state.as_str()),
            model: devices::copy_option(&self.model),
        }
    }
}

/// Why something that ADB was asked for did not work.
#[derive(Debug, PartialEq, Eq)]
pub enum AdbError {
    PairingFailed,
    /// The connection was refused in these words.
    Refused(String),
    NotConnected,
    NotOnline,
    /// This many devices are online, not one.
    NotOne(usize),
    UnsupportedAbi(String),
    NoAgent,
}

#[verifier::ext_equal]
pub enum AdbErrorView {
    PairingFailed,
    Refused(Seq<char>),
    NotConnected,
    NotOnline,
    NotOne(nat),
    UnsupportedAbi(Seq<char>),
    NoAgent,
}

impl View for AdbError {
    type V = AdbErrorView;

    open spec fn view(&self) -> AdbErrorView {
        match self {
            AdbError::PairingFailed => AdbErrorView::PairingFailed,
            AdbError::Refused(words) => AdbErrorView::Refused(words@),
            AdbError::NotConnected => AdbErrorView::NotConnected,
            AdbError::NotOnline => AdbErrorView::NotOnline,
            AdbError::NotOne(n) => AdbErrorView::NotOne(*n as nat),
            AdbError::UnsupportedAbi(abi) => AdbErrorView::UnsupportedAbi(abi@),
            AdbError::NoAgent => AdbErrorView::NoAgent,
        }
    }
}

impl AdbErrorView {
    pub open spec fn message(self) -> Seq<char> {
        match self {
            AdbErrorView::PairingFailed
                => "Pairing failed. Check the pairing address and code on your phone."@,
            AdbErrorView::Refused(words) => words,
            AdbErrorView::NotConnected => "device is not connected"@,
            AdbErrorView::NotOnline => "device is not online"@,
            AdbErrorView::NotOne(n) => "expected one online ADB device; found "@ + text::decimal(n)
                + ". Use connect, --connect ADDRESS, or --device SERIAL"@,
            AdbErrorView::UnsupportedAbi(abi) => "unsupported Android ABI: "@ + abi
                + "; release agents support arm64-v8a and x86_64"@,
            AdbErrorView::NoAgent
                => "this development build has no embedded agent; run cargo xtask build, or use --agent PATH"@,
        }
    }
}

impl AdbError {
    /// What the user is told.
    pub fn message(&self) -> (r: String)
        ensures
            r@ == self@.message(),
    {
        match self {
            AdbError::PairingFailed => text::text(
                "Pairing failed. Check the pairing address and code on your phone.",
            ),
            AdbError::Refused(words) => text::text(words.as_str()),
            AdbError::NotConnected => text::text("device is not connected"),
            AdbError::NotOnline => text::text("device is not online"),
            AdbError::NotOne(n) => {
                let mut out: String = text::text("expected one online ADB device; found ");
                out.append(decimal_text(*n as u64).as_str());
                out.append(". Use connect, --connect ADDRESS, or --device SERIAL");
                out
            },
            AdbError::UnsupportedAbi(abi) => {
                let mut out: String = text::text("unsupported Android ABI: ");
                out.append(abi.as_str());
                out.append("; release agents support arm64-v8a and x86_64");
                out
            },
            AdbError::NoAgent => text::text(
                "this development build has no embedded agent; run cargo xtask build, or use --agent PATH",
            ),
        }
    }
}

/// Text in lower case, by Unicode's rules.
pub uninterp spec fn lowercase_text(s: Seq<char>) -> Seq<char>;

/// `str::to_lowercase` of std: a function of the text.
#[verifier::external_body]
fn lowercase(s: &str) -> (r: String)
    ensures
        r@ == lowercase_text(s@),
{
    s.to_lowercase()
}

/// Whether `adb pair` succeeded.
pub fn pair(response: &str) -> (r: Result<(), AdbError>)
    ensures
        r is Ok == tells_pairing(response@),
        r is Ok == text::occurs(response@, "Successfully paired"@),
        r matches Err(error) ==> error@ == AdbErrorView::PairingFailed,
{
    let words: Vec<char> = chars_of("Successfully paired");
    if text::contains(chars_of(response).as_slice(), words.as_slice()) {
        Ok(())
    } else {
        Err(AdbError::PairingFailed)
    }
}

/// Whether a response, given in lower case, tells of a failure.
pub fn tells_failure(lowered: &str) -> (r: bool)
    ensures
        r == text::occurs(lowered@, "failed"@),
{
    let word: Vec<char> = chars_of("failed");
    text::contains(chars_of(lowered).as_slice(), word.as_slice())
}

/// Whether `adb connect` did not fail. It may report a failure with a success
/// status.
pub fn connect(response: &str) -> (r: Result<(), AdbError>)
    ensures
        r is Ok == !text::occurs(lowercase_text(response@), "failed"@),
        r matches Err(error) ==> error@ == AdbErrorView::Refused(text::trimmed(response@)),
{
    if tells_failure(lowercase(response).as_str()) {
        Err(AdbError::Refused(text_of(trimmed_chars(response).as_slice())))
    } else {
        Ok(())
    }
}

/// Whether a state is that of a device that can be used.
pub open spec fn is_online(state: Seq<char>) -> bool {
    text::trimmed(state) == "device"@
}

/// Whether `adb get-state` tells of a device that can be used.
pub fn online(state: &str) -> (r: bool)
    ensures
        r == is_online(state@),
{
    let word: Vec<char> = chars_of("device");
    text::same_chars(trimmed_chars(state).as_slice(), word.as_slice())
}

/// Whether a device that was connected can be used.
pub fn connected(state: &str) -> (r: Result<(), AdbError>)
    ensures
        r is Ok == is_online(state@),
        r matches Err(error) ==> error@ == AdbErrorView::NotConnected,
{
    if online(state) {
        Ok(())
    } else {
        Err(AdbError::NotConnected)
    }
}

/// The model among the further fields of a line, with spaces for underscores.
pub open spec fn model_of(fields: Seq<Seq<char>>) -> Option<Seq<char>>
    decreases fields.len(),
{
    if fields.len() == 0 {
        None
    } else if text::begins(fields[0], "model:"@) {
        Some(text::replaced(fields[0].skip(6), '_', ' '))
    } else {
        model_of(fields.drop_first())
    }
}

/// The device of a line, if it lists one.
pub open spec fn device_of(line: Seq<char>) -> Option<InfoView> {
    let fields = text::words(line);
    if text::begins(line, "List of devices"@) || text::begins(line, "*"@) || fields.len() < 2 {
        None
    } else {
        Some(
            InfoView { serial: fields[0], state: fields[1], model: model_of(fields.skip(2)) },
        )
    }
}

/// The devices of some lines.
pub open spec fn devices_of(lines: Seq<Seq<char>>) -> Seq<InfoView>
    decreases lines.len(),
{
    if lines.len() == 0 {
        seq![]
    } else {
        match device_of(lines.last()) {
            Some(device) => devices_of(lines.drop_last()).push(device),
            None => devices_of(lines.drop_last()),
        }
    }
}

pub open spec fn infos(list: Seq<DeviceInfo>) -> Seq<InfoView> {
    list.map_values(|device: DeviceInfo| device@)
}

fn find_model(fields: &Vec<Vec<char>>) -> (r: Option<String>)
    requires
        fields@.len() >= 2,
    ensures
        devices::text_option(r) == model_of(text::each(fields@).skip(2)),
{
    let prefix: Vec<char> = chars_of("model:");
    let ghost all = text::each(fields@);
    proof {
        reveal_strlit("model:");
    }
    let mut i: usize = 2;
    while i < fields.len()
        invariant
            2 <= i <= fields@.len(),
            prefix@ == "model:"@,
            "model:"@.len() == 6,
            all == text::each(fields@),
            model_of(all.skip(2)) == model_of(all.skip(i as int)),
        decreases fields@.len() - i,
    {
        let field: &Vec<char> = &fields[i];
        let len: usize = field.len();
        proof {
            assert(all.skip(i as int)[0] == field@);
            assert(all.skip(i as int).drop_first() =~= all.skip(i + 1));
        }
        if text::starts_with(field.as_slice(), prefix.as_slice()) {
            let rest: &[char] = vstd::slice::slice_subrange(field.as_slice(), 6, len);
            assert(rest@ =~= field@.skip(6));
            return Some(text_of(text::replace(rest, '_', ' ').as_slice()));
        }
        i = i + 1;
    }
    None
}

fn parse_line(line: &[char]) -> (r: Option<DeviceInfo>)
    ensures
        match r {
            Some(device) => device_of(line@) == Some(device@),
            None => device_of(line@) is None,
        },
{
    let heading: Vec<char> = chars_of("List of devices");
    let star: Vec<char> = chars_of("*");
    if text::starts_with(line, heading.as_slice()) || text::starts_with(line, star.as_slice()) {
        return None;
    }
    let fields: Vec<Vec<char>> = split_words(line);
    let ghost all = text::each(fields@);
    if fields.len() < 2 {
        return None;
    }
    proof {
        assert(all[0] == fields@[0]@ && all[1] == fields@[1]@);
    }
    Some(
        DeviceInfo {
            serial: text_of(fields[0].as_slice()),
            state: text_of(fields[1].as_slice()),
            model: find_model(&fields),
        },
    )
}

/// The devices that a listing shows.
pub fn parse_devices(listing: &str) -> (r: Vec<DeviceInfo>)
    ensures
        infos(r@) == devices_of(text::pieces(listing@, '\n')),
{
    let lines: Vec<Vec<char>> = split(chars_of(listing).as_slice(), '\n');
    let ghost all = text::each(lines@);
    let mut found: Vec<DeviceInfo> = Vec::new();
    let mut i: usize = 0;
    assert(infos(found@) =~= devices_of(all.take(0)));
    while i < lines.len()
        invariant
            i <= lines@.len(),
            all == text::each(lines@),
            infos(found@) == devices_of(all.take(i as int)),
        decreases lines@.len() - i,
    {
        let ghost so_far = infos(found@);
        proof {
            assert(all.take(i + 1).drop_last() =~= all.take(i as int));
            assert(all.take(i + 1).last() == lines@[i as int]@);
        }
        if let Some(device) = parse_line(lines[i].as_slice()) {
            found.push(device);
            assert(infos(found@) =~= so_far.push(device@));
        }
        i = i + 1;
    }
    assert(all.take(i as int) =~= all);
    found
}

/// The devices that `adb devices -l` lists.
pub fn devices(report: &str) -> (r: Vec<DeviceInfo>)
    ensures
        infos(r@) == devices_of(text::pieces(report@, '\n')),
{
    parse_devices(report)
}

/// The devices that can be used.
pub open spec fn usable(list: Seq<InfoView>) -> Seq<InfoView>
    decreases list.len(),
{
    if list.len() == 0 {
        seq![]
    } else if list.last().state == "device"@ {
        usable(list.drop_last()).push(list.last())
    } else {
        usable(list.drop_last())
    }
}

/// The device to use: the one that was asked for, where `report` is its state, or
/// the only one that can be used in the listing `report`.
pub open spec fn selected(requested: Option<Seq<char>>, report: Seq<char>) -> Result<
    Seq<char>,
    AdbErrorView,
> {
    match requested {
        Some(serial) => if is_online(report) {
            Ok(serial)
        } else {
            Err(AdbErrorView::NotOnline)
        },
        None => {
            let found = usable(devices_of(text::pieces(report, '\n')));
            if found.len() == 1 {
                Ok(found[0].serial)
            } else {
                Err(AdbErrorView::NotOne(found.len()))
            }
        },
    }
}

/// The device to use. `report` is the state of the device that was asked for, or
/// the listing of all devices where none was.
pub fn select(requested: Option<String>, report: &str) -> (r: Result<String, AdbError>)
    ensures
        match r {
            Ok(serial) => selected(devices::text_option(requested), report@) == Ok::<
                Seq<char>,
                AdbErrorView,
            >(serial@),
            Err(error) => selected(devices::text_option(requested), report@) == Err::<
                Seq<char>,
                AdbErrorView,
            >(error@),
        },
{
    if let Some(serial) = requested {
        return if online(report) {
            Ok(serial)
        } else {
            Err(AdbError::NotOnline)
        };
    }
    let all: Vec<DeviceInfo> = devices(report);
    let ghost list = infos(all@);
    let mut count: usize = 0;
    let mut serial: String = String::new();
    let mut i: usize = 0;
    assert(usable(list.take(0)) =~= seq![]);
    while i < all.len()
        invariant
            i <= all@.len(),
            list == infos(all@),
            count <= i,
            count == usable(list.take(i as int)).len(),
            count > 0 ==> serial@ == usable(list.take(i as int)).last().serial,
        decreases all@.len() - i,
    {
        proof {
            assert(list.take(i + 1).drop_last() =~= list.take(i as int));
            assert(list.take(i + 1).last() == all@[i as int]@);
        }
        if text::same(all[i].state.as_str(), "device") {
            count = count + 1;
            serial = text::text(all[i].serial.as_str());
        }
        i = i + 1;
    }
    assert(list.take(i as int) =~= list);
    if count == 1 {
        Ok(serial)
    } else {
        Err(AdbError::NotOne(count))
    }
}

/// Which agent is run on a device.
#[derive(Clone, Copy, Debug, PartialEq, Eq, Structural)]
pub enum Agent {
    Aarch64,
    X86_64,
    /// One that the user named.
    Given,
}

/// The agent for a device, where two flags tell which agents this build holds.
pub open spec fn agent_for(abi: Seq<char>, given: bool, aarch64: bool, x86_64: bool) -> Result<
    Agent,
    AdbErrorView,
> {
    if given {
        Ok(Agent::Given)
    } else if text::trimmed(abi) == "arm64-v8a"@ {
        if aarch64 {
            Ok(Agent::Aarch64)
        } else {
            Err(AdbErrorView::NoAgent)
        }
    } else if text::trimmed(abi) == "x86_64"@ {
        if x86_64 {
            Ok(Agent::X86_64)
        } else {
            Err(AdbErrorView::NoAgent)
        }
    } else {
        Err(AdbErrorView::UnsupportedAbi(text::trimmed(abi)))
    }
}

/// The agent for a device with this ABI: the one that was `given`, or one of those
/// that are embedded.
pub fn choose_agent(abi: &str, given: bool, aarch64: bool, x86_64: bool) -> (r: Result<
    Agent,
    AdbError,
>)
    ensures
        match r {
            Ok(agent) => agent_for(abi@, given, aarch64, x86_64) == Ok::<Agent, AdbErrorView>(
                agent,
            ),
            Err(error) => agent_for(abi@, given, aarch64, x86_64) == Err::<Agent, AdbErrorView>(
                error@,
            ),
        },
{
    if given {
        return Ok(Agent::Given);
    }
    let name: Vec<char> = trimmed_chars(abi);
    let arm: Vec<char> = chars_of("arm64-v8a");
    let intel: Vec<char> = chars_of("x86_64");
    if text::same_chars(name.as_slice(), arm.as_slice()) {
        if aarch64 {
            Ok(Agent::Aarch64)
        } else {
            Err(AdbError::NoAgent)
        }
    } else if text::same_chars(name.as_slice(), intel.as_slice()) {
        if x86_64 {
            Ok(Agent::X86_64)
        } else {
            Err(AdbError::NoAgent)
        }
    } else {
        Err(AdbError::UnsupportedAbi(text_of(name.as_slice())))
    }
}

/// The port of the fast path that a greeting offers, zero for none. The greeting
/// names the protocol, and the port may follow it.
pub open spec fn greeted(line: Seq<char>) -> Option<nat> {
    if text::trimmed(line) == READY@ {
        Some(0)
    } else if text::begins(text::trimmed(line), READY@ + " "@) {
        text::parsed(text::trimmed(line).skip(READY@.len() as int + 1), 65535)
    } else {
        None
    }
}

/// The port of the fast path that a greeting offers, zero for none. None where it
/// is no greeting of this protocol.
pub fn read_greeting(line: &str) -> (r: Option<u16>)
    ensures
        match r {
            Some(port) => greeted(line@) == Some(port as nat),
            None => greeted(line@) is None,
        },
{
    let v: Vec<char> = trimmed_chars(line);
    let ready: Vec<char> = chars_of(READY);
    if text::same_chars(v.as_slice(), ready.as_slice()) {
        return Some(0);
    }
    let mut lead: String = text::text(READY);
    lead.append(" ");
    let lead_chars: Vec<char> = chars_of(lead.as_str());
    if !text::starts_with(v.as_slice(), lead_chars.as_slice()) {
        return None;
    }
    proof {
        reveal_strlit(" ");
    }
    let len: usize = v.len();
    let number: &[char] = vstd::slice::slice_subrange(v.as_slice(), lead_chars.len(), len);
    assert(number@ =~= v@.skip(READY@.len() as int + 1));
    match text::parse(number, 65535) {
        Some(port) => Some(port as u16),
        None => None,
    }
}

/// Where the fast path goes for a device, if it has one: a device that is
/// connected over IPv4, and a port that is not zero.
pub open spec fn fast_path_of(serial: Seq<char>, port: u16) -> Option<Origin> {
    match devices::last_colon(serial) {
        Some(at) if port > 0 && ip::ipv4(serial.take(at)) is Some && text::parsed(
            serial.skip(at + 1),
            65535,
        ) is Some => {
            let o = ip::ipv4(serial.take(at))->0;
            Some(
                Origin {
                    ip: (0x100_0000 * o[0] + 0x1_0000 * o[1] + 0x100 * o[2] + o[3]) as u32,
                    port,
                },
            )
        },
        _ => None,
    }
}

/// Where the fast path goes for a device.
pub fn fast_path(serial: &str, port: u16) -> (r: Option<Origin>)
    ensures
        r == fast_path_of(serial@, port),
{
    if port == 0 {
        return None;
    }
    let v: Vec<char> = chars_of(serial);
    let len: usize = v.len();
    let at: usize = match devices::find_last_colon(v.as_slice()) {
        Some(at) => at,
        None => return None,
    };
    let host: &[char] = vstd::slice::slice_subrange(v.as_slice(), 0, at);
    let number: &[char] = vstd::slice::slice_subrange(v.as_slice(), at + 1, len);
    assert(host@ =~= v@.take(at as int));
    assert(number@ =~= v@.skip(at + 1));
    let octets: Vec<u16> = match parse_ipv4(host) {
        Some(octets) => octets,
        None => return None,
    };
    if text::parse(number, 65535).is_none() {
        return None;
    }
    proof {
        assert(octets@[0] <= 255 && octets@[1] <= 255 && octets@[2] <= 255 && octets@[3] <= 255);
    }
    Some(
        Origin {
            ip: 0x100_0000 * octets[0] as u32 + 0x1_0000 * octets[1] as u32 + 0x100
                * octets[2] as u32 + octets[3] as u32,
            port,
        },
    )
}

/// How long a command may take.
pub const COMMAND_US: u64 = 15_000_000;

/// How long an agent may take to end.
pub const ENDING_US: u64 = 2_000_000;

/// Whether a command has taken too long.
pub fn timed_out(elapsed_us: u64) -> (r: bool)
    ensures
        r == takes_too_long(elapsed_us),
        r == (elapsed_us >= COMMAND_US),
{
    elapsed_us >= COMMAND_US
}

/// Whether an agent may still be ending by itself.
pub fn may_end(elapsed_us: u64) -> (r: bool)
    ensures
        r == is_waited_for(elapsed_us),
        r == (elapsed_us < ENDING_US),
{
    elapsed_us < ENDING_US
}

/// What is told of a command that failed: its name, its output and its errors.
pub fn failure(command: &str, output: &str, errors: &str) -> (r: String)
    ensures
        r@ == failure_line(command@, text::trimmed(output@), text::trimmed(errors@)),
        r@ == "adb "@ + command@ + " failed: "@ + text::trimmed(output@) + " "@ + text::trimmed(
            errors@,
        ),
{
    let mut out: String = text::text("adb ");
    out.append(command);
    out.append(" failed: ");
    out.append(text_of(trimmed_chars(output).as_slice()).as_str());
    out.append(" ");
    out.append(text_of(trimmed_chars(errors).as_slice()).as_str());
    out
}

/// An agent's greeting is understood, with its port.
pub proof fn law_greetings_are_understood(port: nat)
    requires
        port <= 65535,
    ensures
        greeted(READY@ + " "@ + text::decimal(port)) == Some(port),
        greeted(READY@) == Some(0nat),
{
    reveal_strlit("ADB-INPUT 6");
    reveal_strlit(" ");
    let number = text::decimal(port);
    text::lemma_decimal_shape(port);
    text::law_decimal_reads_back(port, 65535);
    let s = READY@ + " "@ + number;
    assert(text::is_digit(number[number.len() - 1]));
    assert(s.last() == number[number.len() - 1]);
    assert(s[0] == 'A');
    assert(text::trimmed_start(s) == s);
    assert(text::trimmed_end(s) == s);
    assert(READY@[0] == 'A');
    assert(READY@.last() == '6');
    assert(text::trimmed(READY@) == READY@);
    assert(s.len() != READY@.len());
    assert(s.take((READY@ + " "@).len() as int) =~= READY@ + " "@);
    assert(s.skip(READY@.len() as int + 1) =~= number);
}

/// Whether `s` is one word.
pub open spec fn is_word(s: Seq<char>) -> bool {
    s.len() > 0 && forall|i: int| 0 <= i < s.len() ==> !text::is_space(#[trigger] s[i])
}

/// Whether `s` is what stands between two words.
pub open spec fn is_gap(s: Seq<char>) -> bool {
    s.len() > 0 && forall|i: int| 0 <= i < s.len() ==> text::is_space(#[trigger] s[i])
}

proof fn lemma_two_words(a: Seq<char>, gap: Seq<char>, b: Seq<char>)
    requires
        is_word(a),
        is_gap(gap),
        is_word(b),
    ensures
        text::words(a + gap + b) == seq![a, b],
{
    let none = Seq::<char>::empty();
    text::lemma_one_word_more(none, a);
    assert(none + a =~= a);
    text::lemma_no_word_more(a, gap);
    assert((a + gap).last() == gap[gap.len() - 1]);
    text::lemma_one_word_more(a + gap, b);
    assert(text::words(none) =~= seq![]);
    assert(text::words(a + gap + b) =~= seq![a, b]);
}

/// A line of the listing gives the device's serial, then its state, then what is called its
/// model, in which underscores stand for blanks.
pub proof fn law_lines_tell_serial_state_and_model(
    serial: Seq<char>,
    gap: Seq<char>,
    state: Seq<char>,
    more: Seq<char>,
    model: Seq<char>,
)
    requires
        is_word(serial),
        serial[0] != '*',
        serial != "List"@,
        is_gap(gap),
        is_word(state),
        is_gap(more),
        forall|i: int| 0 <= i < model.len() ==> !text::is_space(#[trigger] model[i]),
    ensures
        device_of(serial + gap + state) == Some(
            InfoView { serial, state, model: None::<Seq<char>> },
        ),
        ({
            let line = serial + gap + state + more + "model:"@ + model;
            let shown = Seq::new(
                model.len(),
                |i: int|
                    if model[i] == '_' {
                        ' '
                    } else {
                        model[i]
                    },
            );
            device_of(line) == Some(InfoView { serial, state, model: Some(shown) })
        }),
{
    reveal_strlit("model:");
    reveal_strlit("*");
    reveal_strlit("List of devices");
    let short = serial + gap + state;
    let field = "model:"@ + model;
    let line = serial + gap + state + more + "model:"@ + model;
    assert(line =~= short + more + field);
    lemma_two_words(serial, gap, state);
    text::lemma_no_word_more(short, more);
    assert((short + more).last() == more[more.len() - 1]);
    assert forall|i: int| 0 <= i < field.len() implies !text::is_space(#[trigger] field[i]) by {
        if i >= 6 {
            assert(field[i] == model[i - 6]);
        }
    }
    text::lemma_one_word_more(short + more, field);
    let fields = text::words(line);
    assert(fields =~= seq![serial, state, field]);
    lemma_not_heading(serial, gap + state);
    assert(serial + (gap + state) =~= short);
    lemma_not_heading(serial, gap + state + more + field);
    assert(serial + (gap + state + more + field) =~= line);
    assert(seq![serial, state].skip(2) =~= Seq::<Seq<char>>::empty());
    assert(fields.skip(2) =~= seq![field]);
    assert(field.take(6) =~= "model:"@);
    assert(text::begins(field, "model:"@));
    let shown = Seq::new(
        model.len(),
        |i: int|
            if model[i] == '_' {
                ' '
            } else {
                model[i]
            },
    );
    assert(field.skip(6) =~= model);
    assert(text::replaced(model, '_', ' ') =~= shown);
}

proof fn lemma_not_heading(serial: Seq<char>, after: Seq<char>)
    requires
        is_word(serial),
        serial[0] != '*',
        serial != "List"@,
        after.len() > 0,
        text::is_space(after[0]),
    ensures
        !text::begins(serial + after, "List of devices"@),
        !text::begins(serial + after, "*"@),
{
    reveal_strlit("*");
    reveal_strlit("List of devices");
    let s = serial + after;
    assert(s[0] == serial[0]);
    if text::begins(s, "*"@) {
        assert(s.take(1)[0] == '*');
    }
    if text::begins(s, "List of devices"@) {
        reveal_strlit("List");
        let t = s.take(15);
        assert(t[0] == 'L' && t[1] == 'i' && t[2] == 's' && t[3] == 't' && t[4] == ' ');
        if serial.len() > 4 {
            assert(s[4] == serial[4]);
        } else if serial.len() == 4 {
            assert(serial =~= "List"@);
        } else {
            assert(s[serial.len() as int] == after[0]);
        }
    }
}

/// Without a request the one device is taken that is ready, and it must be the only one.
pub proof fn law_the_only_ready_device_is_taken(report: Seq<char>, i: int)
    requires
        0 <= i < devices_of(text::pieces(report, '\n')).len(),
        devices_of(text::pieces(report, '\n'))[i].state == "device"@,
        forall|j: int|
            0 <= j < devices_of(text::pieces(report, '\n')).len() && j != i
                ==> #[trigger] devices_of(text::pieces(report, '\n'))[j].state != "device"@,
    ensures
        selected(None, report) == Ok::<Seq<char>, AdbErrorView>(
            devices_of(text::pieces(report, '\n'))[i].serial,
        ),
{
    lemma_only_usable(devices_of(text::pieces(report, '\n')), i);
}

proof fn lemma_none_usable(list: Seq<InfoView>)
    requires
        forall|j: int| 0 <= j < list.len() ==> #[trigger] list[j].state != "device"@,
    ensures
        usable(list).len() == 0,
    decreases list.len(),
{
    if list.len() > 0 {
        let less = list.drop_last();
        assert(list[list.len() - 1].state != "device"@);
        assert forall|j: int| 0 <= j < less.len() implies #[trigger] less[j].state != "device"@ by {
            assert(less[j] == list[j]);
        }
        lemma_none_usable(less);
    }
}

proof fn lemma_only_usable(list: Seq<InfoView>, i: int)
    requires
        0 <= i < list.len(),
        list[i].state == "device"@,
        forall|j: int| 0 <= j < list.len() && j != i ==> #[trigger] list[j].state != "device"@,
    ensures
        usable(list) == seq![list[i]],
    decreases list.len(),
{
    let less = list.drop_last();
    assert forall|j: int| 0 <= j < less.len() && j != i implies #[trigger] less[j].state
        != "device"@ by {
        assert(less[j] == list[j]);
    }
    if i == list.len() - 1 {
        lemma_none_usable(less);
        assert(usable(list) =~= seq![list[i]]);
    } else {
        assert(list[list.len() - 1].state != "device"@);
        assert(less[i] == list[i]);
        lemma_only_usable(less, i);
    }
}

/// Where two devices are ready, or none is, no device is taken.
pub proof fn law_no_device_is_guessed(report: Seq<char>, i: int, j: int)
    requires
        ({
            let list = devices_of(text::pieces(report, '\n'));
            ||| 0 <= i < j < list.len() && list[i].state == "device"@ && list[j].state
                == "device"@
            ||| forall|k: int| 0 <= k < list.len() ==> #[trigger] list[k].state != "device"@
        }),
    ensures
        selected(None, report) is Err,
{
    let list = devices_of(text::pieces(report, '\n'));
    if 0 <= i < j < list.len() && list[i].state == "device"@ && list[j].state == "device"@ {
        lemma_two_usable(list, i, j);
    } else {
        lemma_none_usable(list);
    }
}

proof fn lemma_some_usable(list: Seq<InfoView>, i: int)
    requires
        0 <= i < list.len(),
        list[i].state == "device"@,
    ensures
        usable(list).len() >= 1,
    decreases list.len(),
{
    if i < list.len() - 1 {
        assert(list.drop_last()[i] == list[i]);
        lemma_some_usable(list.drop_last(), i);
    }
}

proof fn lemma_two_usable(list: Seq<InfoView>, i: int, j: int)
    requires
        0 <= i < j < list.len(),
        list[i].state == "device"@,
        list[j].state == "device"@,
    ensures
        usable(list).len() >= 2,
    decreases list.len(),
{
    let less = list.drop_last();
    assert(less[i] == list[i]);
    if j == list.len() - 1 {
        lemma_some_usable(less, i);
    } else {
        assert(less[j] == list[j]);
        lemma_two_usable(less, i, j);
    }
}

/// A device that was asked for is taken where it is online, and no other is.
pub proof fn law_requested_devices_are_taken(serial: Seq<char>, report: Seq<char>)
    ensures
        text::trimmed(report) == "device"@ ==> selected(Some(serial), report) == Ok::<
            Seq<char>,
            AdbErrorView,
        >(serial),
        text::trimmed(report) != "device"@ ==> selected(Some(serial), report) == Err::<
            Seq<char>,
            AdbErrorView,
        >(AdbErrorView::NotOnline),
{
}

/// A phone gets the agent of its own kind, and the agent that the user named before any.
pub proof fn law_phones_get_their_agent(abi: Seq<char>, given: bool, aarch64: bool, x86_64: bool)
    ensures
        ({
            let r = agent_for(abi, given, aarch64, x86_64);
            &&& given <==> r == Ok::<Agent, AdbErrorView>(Agent::Given)
            &&& r == Ok::<Agent, AdbErrorView>(Agent::Aarch64) <==> !given && aarch64
                && text::trimmed(abi) == "arm64-v8a"@
            &&& r == Ok::<Agent, AdbErrorView>(Agent::X86_64) <==> !given && x86_64
                && text::trimmed(abi) == "x86_64"@
            &&& r == Err::<Agent, AdbErrorView>(
                AdbErrorView::UnsupportedAbi(text::trimmed(abi)),
            ) <==> !given && text::trimmed(abi) != "arm64-v8a"@ && text::trimmed(abi) != "x86_64"@
        }),
{
    reveal_strlit("arm64-v8a");
    reveal_strlit("x86_64");
    assert("arm64-v8a"@.len() != "x86_64"@.len());
}

/// A phone that is connected over the network is reached at its own address, on the port
/// that its agent opened, with the first number of the address as the highest byte.
pub proof fn law_fast_path_goes_to_the_phone(a: u8, b: u8, c: u8, d: u8, adb_port: u16, port: u16)
    ensures
        ({
            let serial = ip::show4(seq![a as nat, b as nat, c as nat, d as nat]) + seq![':']
                + text::decimal(adb_port as nat);
            fast_path_of(serial, port) == (if port > 0 {
                Some(
                    Origin { ip: (a * 16777216 + b * 65536 + c * 256 + d) as u32, port },
                )
            } else {
                None::<Origin>
            })
        }),
{
    let o = seq![a as nat, b as nat, c as nat, d as nat];
    let host = ip::show4(o);
    let number = text::decimal(adb_port as nat);
    let serial = host + seq![':'] + number;
    ip::law_ipv4_reads_back(o);
    text::lemma_decimal_shape(adb_port as nat);
    text::law_decimal_reads_back(adb_port as nat, 65535);
    assert forall|i: int| 0 <= i < number.len() implies #[trigger] number[i] != ':' by {
        assert(text::is_digit(number[i]));
    }
    devices::lemma_last_colon(host, number);
    assert(serial.take(host.len() as int) =~= host);
    assert(serial.skip(host.len() as int + 1) =~= number);
}

/// A serial without a colon belongs to a phone on a cable, which has no fast path.
pub proof fn law_cables_have_no_fast_path(serial: Seq<char>, port: u16)
    requires
        !serial.contains(':'),
    ensures
        fast_path_of(serial, port) is None,
{
    lemma_no_last_colon(serial);
}

proof fn lemma_no_last_colon(s: Seq<char>)
    requires
        !s.contains(':'),
    ensures
        devices::last_colon(s) is None,
    decreases s.len(),
{
    if s.len() > 0 {
        assert(s[s.len() - 1] != ':');
        let less = s.drop_last();
        assert(!less.contains(':')) by {
            if less.contains(':') {
                let i = choose|i: int| 0 <= i < less.len() && less[i] == ':';
                assert(s[i] == ':');
            }
        }
        lemma_no_last_colon(less);
    }
}

/// Whether an answer to pairing tells that it worked.
pub open spec fn tells_pairing(response: Seq<char>) -> bool {
    text::occurs(response, "Successfully paired"@)
}

/// Whether a command that runs for so long is given up.
pub open spec fn takes_too_long(elapsed_us: u64) -> bool {
    elapsed_us >= COMMAND_US
}

/// Whether an agent that was told to stop so long ago is still waited for.
pub open spec fn is_waited_for(elapsed_us: u64) -> bool {
    elapsed_us < ENDING_US
}

/// How a command that failed is told.
pub open spec fn failure_line(command: Seq<char>, output: Seq<char>, errors: Seq<char>) -> Seq<
    char,
> {
    "adb "@ + command + " failed: "@ + output + " "@ + errors
}

/// A command has fifteen seconds, and an agent two seconds to end.
pub proof fn law_waiting_has_an_end(elapsed_us: u64)
    ensures
        takes_too_long(elapsed_us) <==> elapsed_us >= 15_000_000,
        is_waited_for(elapsed_us) <==> elapsed_us < 2_000_000,
{
}

/// The line about a failure names the command, then what it said, then what it complained
/// about.
pub proof fn law_failures_tell_everything(
    command: Seq<char>,
    output: Seq<char>,
    errors: Seq<char>,
)
    ensures
        ({
            let s = failure_line(command, output, errors);
            let a = command.len() as int;
            let b = output.len() as int;
            &&& s.subrange(4, 4 + a) == command
            &&& s.subrange(13 + a, 13 + a + b) == output
            &&& s.skip(14 + a + b) == errors
            &&& s.len() == 14 + a + b + errors.len()
        }),
{
    reveal_strlit("adb ");
    reveal_strlit(" failed: ");
    reveal_strlit(" ");
    let s = failure_line(command, output, errors);
    let a = command.len() as int;
    let b = output.len() as int;
    assert(s.subrange(4, 4 + a) =~= command);
    assert(s.subrange(13 + a, 13 + a + b) =~= output);
    assert(s.skip(14 + a + b) =~= errors);
}

/// Pairing worked where the answer says so, whatever stands around the words.
pub proof fn law_pairing_is_told_by_its_words(before: Seq<char>, after: Seq<char>)
    ensures
        tells_pairing(before + "Successfully paired"@ + after),
        !tells_pairing(Seq::<char>::empty()),
{
    reveal_strlit("Successfully paired");
    let words = "Successfully paired"@;
    let s = before + words + after;
    assert(s.skip(before.len() as int).take(words.len() as int) =~= words);
    assert(text::begins(s.skip(before.len() as int), words));
}

} // verus!
