//! The file of saved devices: what it holds, and what is read from it.
use crate::devices::{self, host, DeviceView, HostError, SavedDevice, MAX_NAME};
use crate::json::{self, Scalar, ScalarView, Table, TableView};
use crate::text::{self, text_of, trimmed_chars};
use vstd::prelude::*;
use vstd::string::*;
use vstd::utf8;

verus! {

/// The version of the format.
pub const FORMAT: u64 = 1;

/// Why saved devices cannot be read.
#[derive(Debug, PartialEq, Eq)]
pub enum DecodeError {
    /// The text is no JSON; this is what is wrong with it.
    Json(String),
    Format,
    NoList,
    NoHost,
    BadHost,
    Duplicate,
    BadPort,
    BadName,
}

#[verifier::ext_equal]
pub enum DecodeErrorView {
    Json(Seq<char>),
    Format,
    NoList,
    NoHost,
    BadHost,
    Duplicate,
    BadPort,
    BadName,
}

impl View for DecodeError {
    type V = DecodeErrorView;

    open spec fn view(&self) -> DecodeErrorView {
        match self {
            DecodeError::Json(message) => DecodeErrorView::Json(message@),
            DecodeError::Format => DecodeErrorView::Format,
            DecodeError::NoList => DecodeErrorView::NoList,
            DecodeError::NoHost => DecodeErrorView::NoHost,
            DecodeError::BadHost => DecodeErrorView::BadHost,
            DecodeError::Duplicate => DecodeErrorView::Duplicate,
            DecodeError::BadPort => DecodeErrorView::BadPort,
            DecodeError::BadName => DecodeErrorView::BadName,
        }
    }
}

impl DecodeErrorView {
    pub open spec fn message(self) -> Seq<char> {
        match self {
            DecodeErrorView::Json(message) => message,
            DecodeErrorView::Format => "unsupported saved-device format"@,
            DecodeErrorView::NoList => "missing device list"@,
            DecodeErrorView::NoHost => "missing host"@,
            DecodeErrorView::BadHost => "invalid host"@,
            DecodeErrorView::Duplicate => "duplicate saved host"@,
            DecodeErrorView::BadPort => "invalid port"@,
            DecodeErrorView::BadName => "invalid device name"@,
        }
    }
}

impl DecodeError {
    pub fn message(&self) -> (r: &str)
        ensures
            r@ == self@.message(),
    {
        match self {
            DecodeError::Json(message) => message.as_str(),
            DecodeError::Format => "unsupported saved-device format",
            DecodeError::NoList => "missing device list",
            DecodeError::NoHost => "missing host",
            DecodeError::BadHost => "invalid host",
            DecodeError::Duplicate => "duplicate saved host",
            DecodeError::BadPort => "invalid port",
            DecodeError::BadName => "invalid device name",
        }
    }
}

impl HostError {
    pub open spec fn message(self) -> Seq<char> {
        match self {
            HostError::Taken => "That host already has a saved entry."@,
            HostError::Missing => "saved device no longer exists"@,
        }
    }

    pub fn text(self) -> (r: &'static str)
        ensures
            r@ == self.message(),
    {
        match self {
            HostError::Taken => "That host already has a saved entry.",
            HostError::Missing => "saved device no longer exists",
        }
    }
}

/// A member of a row; null where there is none.
pub open spec fn member(row: Option<Map<Seq<char>, ScalarView>>, key: Seq<char>) -> ScalarView {
    match row {
        Some(members) if members.contains_key(key) => members[key],
        _ => ScalarView::Null,
    }
}

/// Whether a name is without white space at its ends, not empty, not too long, and
/// without control characters.
pub open spec fn good_name(s: Seq<char>) -> bool {
    &&& text::trimmed(s) == s
    &&& s.len() > 0
    &&& utf8::encode_utf8(s).len() <= MAX_NAME
    &&& forall|i: int| 0 <= i < s.len() ==> !text::is_control(#[trigger] s[i])
}

pub open spec fn read_name(value: ScalarView) -> Result<Option<Seq<char>>, DecodeErrorView> {
    match value {
        ScalarView::Null => Ok(None),
        ScalarView::Text(s) if good_name(text::trimmed(s)) => Ok(Some(text::trimmed(s))),
        _ => Err(DecodeErrorView::BadName),
    }
}

pub open spec fn read_port(value: ScalarView) -> Result<Option<u16>, DecodeErrorView> {
    match value {
        ScalarView::Null => Ok(None),
        ScalarView::Number(n) if 0 < n <= 65535 => Ok(Some(n as u16)),
        _ => Err(DecodeErrorView::BadPort),
    }
}

pub open spec fn read_host(value: ScalarView) -> Result<Seq<char>, DecodeErrorView> {
    match value {
        ScalarView::Text(s) => match devices::host_of(s) {
            Some(host) => Ok(host),
            None => Err(DecodeErrorView::BadHost),
        },
        _ => Err(DecodeErrorView::NoHost),
    }
}

/// The device of a row, after the devices before it.
pub open spec fn read_row(
    before: Seq<DeviceView>,
    row: Option<Map<Seq<char>, ScalarView>>,
) -> Result<DeviceView, DecodeErrorView> {
    match read_host(member(row, "host"@)) {
        Err(error) => Err(error),
        Ok(host) => if devices::has_host(before, host) {
            Err(DecodeErrorView::Duplicate)
        } else {
            match read_port(member(row, "port"@)) {
                Err(error) => Err(error),
                Ok(port) => match read_name(member(row, "label"@)) {
                    Err(error) => Err(error),
                    Ok(label) => match read_name(member(row, "model"@)) {
                        Err(error) => Err(error),
                        Ok(model) => Ok(DeviceView { host, port, label, model }),
                    },
                },
            }
        },
    }
}

pub open spec fn read_rows(rows: Seq<Option<Map<Seq<char>, ScalarView>>>) -> Result<
    Seq<DeviceView>,
    DecodeErrorView,
>
    decreases rows.len(),
{
    if rows.len() == 0 {
        Ok(seq![])
    } else {
        match read_rows(rows.drop_last()) {
            Err(error) => Err(error),
            Ok(before) => match read_row(before, rows.last()) {
                Err(error) => Err(error),
                Ok(device) => Ok(before.push(device)),
            },
        }
    }
}

/// The devices that a table holds.
pub open spec fn read_table(table: TableView) -> Result<Seq<DeviceView>, DecodeErrorView> {
    if table.head != ScalarView::Number(FORMAT) {
        Err(DecodeErrorView::Format)
    } else {
        match table.rows {
            Some(rows) => read_rows(rows),
            None => Err(DecodeErrorView::NoList),
        }
    }
}

/// The devices that a text holds.
pub open spec fn read_text(text: Seq<char>) -> Result<Seq<DeviceView>, DecodeErrorView> {
    match json::json_table(text, "version"@, "devices"@) {
        Ok(table) => read_table(table),
        Err(message) => Err(DecodeErrorView::Json(message)),
    }
}

/// What was read.
pub open spec fn outcome(r: Result<Vec<SavedDevice>, DecodeError>) -> Result<
    Seq<DeviceView>,
    DecodeErrorView,
> {
    match r {
        Ok(entries) => Ok(devices::views(entries@)),
        Err(error) => Err(error@),
    }
}

pub open spec fn members_view(row: Option<Vec<(String, Scalar)>>) -> Option<
    Map<Seq<char>, ScalarView>,
> {
    json::row_option(row)
}

#[verifier::loop_isolation(false)]
fn find_member<'a>(row: &'a Option<Vec<(String, Scalar)>>, key: &str) -> (r: Option<&'a Scalar>)
    ensures
        match r {
            Some(value) => member(members_view(*row), key@) == value@,
            None => member(members_view(*row), key@) == ScalarView::Null,
        },
{
    match row {
        None => None,
        Some(members) => {
            let mut i: usize = members.len();
            assert(members@.take(i as int) =~= members@);
            while i > 0
                invariant
                    i <= members@.len(),
                    json::row_view(members@).contains_key(key@) == json::row_view(
                        members@.take(i as int),
                    ).contains_key(key@),
                    json::row_view(members@).contains_key(key@) ==> json::row_view(members@)[key@]
                        == json::row_view(members@.take(i as int))[key@],
                decreases i,
            {
                proof {
                    assert(members@.take(i as int).drop_last() =~= members@.take(i - 1));
                }
                if text::same(members[i - 1].0.as_str(), key) {
                    proof {
                        let known = json::row_view(members@.take(i as int));
                        assert(known.contains_key(key@) && known[key@] == members@[i - 1].1@);
                    }
                    return Some(&members[i - 1].1);
                }
                i = i - 1;
            }
            None
        },
    }
}

fn name_ok(s: &[char]) -> (r: bool)
    requires
        text::trimmed(s@) == s@,
    ensures
        r == good_name(s@),
{
    if s.len() == 0 {
        return false;
    }
    let whole: String = text_of(s);
    if whole.as_str().as_bytes().len() > MAX_NAME {
        return false;
    }
    let mut i: usize = 0;
    while i < s.len()
        invariant
            i <= s@.len(),
            forall|j: int| 0 <= j < i ==> !text::is_control(#[trigger] s@[j]),
        decreases s@.len() - i,
    {
        if text::control(s[i]) {
            assert(text::is_control(s@[i as int]));
            return false;
        }
        i = i + 1;
    }
    true
}

fn decode_name(value: Option<&Scalar>) -> (r: Result<Option<String>, DecodeError>)
    ensures
        ({
            let view = match value {
                Some(value) => value@,
                None => ScalarView::Null,
            };
            match r {
                Ok(name) => read_name(view) == Ok::<Option<Seq<char>>, DecodeErrorView>(
                    devices::text_option(name),
                ),
                Err(error) => read_name(view) == Err::<Option<Seq<char>>, DecodeErrorView>(error@),
            }
        }),
{
    match value {
        None => Ok(None),
        Some(Scalar::Null) => Ok(None),
        Some(Scalar::Text(s)) => {
            let v: Vec<char> = trimmed_chars(s.as_str());
            proof {
                devices::lemma_trimmed_twice(s@);
            }
            if name_ok(v.as_slice()) {
                Ok(Some(text_of(v.as_slice())))
            } else {
                Err(DecodeError::BadName)
            }
        },
        _ => Err(DecodeError::BadName),
    }
}

fn decode_port(value: Option<&Scalar>) -> (r: Result<Option<u16>, DecodeError>)
    ensures
        ({
            let view = match value {
                Some(value) => value@,
                None => ScalarView::Null,
            };
            match r {
                Ok(port) => read_port(view) == Ok::<Option<u16>, DecodeErrorView>(port),
                Err(error) => read_port(view) == Err::<Option<u16>, DecodeErrorView>(error@),
            }
        }),
{
    match value {
        None => Ok(None),
        Some(Scalar::Null) => Ok(None),
        Some(Scalar::Number(n)) => if *n > 0 && *n <= 65535 {
            Ok(Some(*n as u16))
        } else {
            Err(DecodeError::BadPort)
        },
        _ => Err(DecodeError::BadPort),
    }
}

fn decode_host(value: Option<&Scalar>) -> (r: Result<String, DecodeError>)
    ensures
        ({
            let view = match value {
                Some(value) => value@,
                None => ScalarView::Null,
            };
            match r {
                Ok(host) => read_host(view) == Ok::<Seq<char>, DecodeErrorView>(host@),
                Err(error) => read_host(view) == Err::<Seq<char>, DecodeErrorView>(error@),
            }
        }),
{
    match value {
        Some(Scalar::Text(s)) => match host(s.as_str()) {
            Some(host) => Ok(host),
            None => Err(DecodeError::BadHost),
        },
        _ => Err(DecodeError::NoHost),
    }
}

fn listed(entries: &Vec<SavedDevice>, host: &str) -> (r: bool)
    ensures
        r == devices::has_host(devices::views(entries@), host@),
{
    let ghost list = devices::views(entries@);
    let mut i: usize = 0;
    while i < entries.len()
        invariant
            i <= entries@.len(),
            list == devices::views(entries@),
            forall|j: int| 0 <= j < i ==> #[trigger] list[j].host != host@,
        decreases entries@.len() - i,
    {
        if text::same(entries[i].host.as_str(), host) {
            assert(list[i as int].host == host@);
            return true;
        }
        assert(list[i as int].host != host@);
        i = i + 1;
    }
    false
}

fn decode_row(before: &Vec<SavedDevice>, row: &Option<Vec<(String, Scalar)>>) -> (r: Result<
    SavedDevice,
    DecodeError,
>)
    ensures
        match r {
            Ok(device) => read_row(devices::views(before@), members_view(*row)) == Ok::<
                DeviceView,
                DecodeErrorView,
            >(device@),
            Err(error) => read_row(devices::views(before@), members_view(*row)) == Err::<
                DeviceView,
                DecodeErrorView,
            >(error@),
        },
{
    let host: String = match decode_host(find_member(row, "host")) {
        Ok(host) => host,
        Err(error) => return Err(error),
    };
    if listed(before, host.as_str()) {
        return Err(DecodeError::Duplicate);
    }
    let port: Option<u16> = match decode_port(find_member(row, "port")) {
        Ok(port) => port,
        Err(error) => return Err(error),
    };
    let label: Option<String> = match decode_name(find_member(row, "label")) {
        Ok(label) => label,
        Err(error) => return Err(error),
    };
    match decode_name(find_member(row, "model")) {
        Ok(model) => Ok(SavedDevice { host, port, label, model }),
        Err(error) => Err(error),
    }
}

/// Reading fails where reading the first rows fails.
proof fn lemma_rows_fail(rows: Seq<Option<Map<Seq<char>, ScalarView>>>, n: int)
    requires
        0 <= n <= rows.len(),
        read_rows(rows.take(n)) is Err,
    ensures
        read_rows(rows) == read_rows(rows.take(n)),
    decreases rows.len() - n,
{
    if n < rows.len() {
        assert(rows.take(n + 1).drop_last() =~= rows.take(n));
        lemma_rows_fail(rows, n + 1);
    } else {
        assert(rows.take(n) =~= rows);
    }
}

/// The devices that a table holds.
#[verifier::loop_isolation(false)]
pub fn decode_table(table: &Table) -> (r: Result<Vec<SavedDevice>, DecodeError>)
    ensures
        outcome(r) == read_table(table@),
{
    let supported: bool = match table.head {
        Scalar::Number(n) => n == FORMAT,
        _ => false,
    };
    if !supported {
        return Err(DecodeError::Format);
    }
    match &table.rows {
        Some(rows) => {
            let ghost all = json::rows_view(rows@);
            let mut entries: Vec<SavedDevice> = Vec::new();
            let mut i: usize = 0;
            assert(devices::views(entries@) =~= seq![]);
            assert(all.take(0) =~= seq![]);
            while i < rows.len()
                invariant
                    i <= rows@.len(),
                    all == json::rows_view(rows@),
                    read_rows(all.take(i as int)) == Ok::<Seq<DeviceView>, DecodeErrorView>(
                        devices::views(entries@),
                    ),
                decreases rows@.len() - i,
            {
                let ghost so_far = devices::views(entries@);
                proof {
                    assert(all.take(i + 1).drop_last() =~= all.take(i as int));
                    assert(all.take(i + 1).last() == members_view(rows@[i as int]));
                }
                match decode_row(&entries, &rows[i]) {
                    Ok(device) => {
                        entries.push(device);
                        assert(devices::views(entries@) =~= so_far.push(device@));
                    },
                    Err(error) => {
                        proof {
                            assert(read_rows(all.take(i + 1)) == Err::<
                                Seq<DeviceView>,
                                DecodeErrorView,
                            >(error@));
                            lemma_rows_fail(all, i + 1);
                        }
                        return Err(error);
                    },
                }
                i = i + 1;
            }
            assert(all.take(i as int) =~= all);
            Ok(entries)
        },
        None => Err(DecodeError::NoList),
    }
}

/// The devices that the text of the file holds.
pub fn decode(text: &str) -> (r: Result<Vec<SavedDevice>, DecodeError>)
    ensures
        outcome(r) == read_text(text@),
{
    match json::parse(text, "version", "devices") {
        Ok(table) => decode_table(&table),
        Err(message) => Err(DecodeError::Json(message)),
    }
}

pub open spec fn written_text(s: Option<Seq<char>>) -> ScalarView {
    match s {
        Some(s) => ScalarView::Text(s),
        None => ScalarView::Null,
    }
}

/// The row of a device.
pub open spec fn written_row(device: DeviceView) -> Map<Seq<char>, ScalarView> {
    Map::empty().insert("host"@, ScalarView::Text(device.host)).insert(
        "port"@,
        match device.port {
            Some(port) => ScalarView::Number(port as u64),
            None => ScalarView::Null,
        },
    ).insert("label"@, written_text(device.label)).insert("model"@, written_text(device.model))
}

/// The table of the saved devices.
pub open spec fn written(entries: Seq<DeviceView>) -> TableView {
    TableView {
        head: ScalarView::Number(FORMAT),
        rows: Some(entries.map_values(|device: DeviceView| Some(written_row(device)))),
    }
}

fn text_scalar(s: &Option<String>) -> (r: Scalar)
    ensures
        r@ == written_text(devices::text_option(*s)),
{
    match s {
        Some(s) => Scalar::Text(text::text(s.as_str())),
        None => Scalar::Null,
    }
}

fn encode_row(device: &SavedDevice) -> (r: Vec<(String, Scalar)>)
    ensures
        json::row_view(r@) == written_row(device@),
        json::named_once(r@),
{
    proof {
        lemma_keys();
    }
    let mut row: Vec<(String, Scalar)> = Vec::new();
    let ghost r0 = row@;
    row.push((text::text("host"), Scalar::Text(text::text(device.host.as_str()))));
    let ghost r1 = row@;
    row.push(
        (
            text::text("port"),
            match device.port {
                Some(port) => Scalar::Number(port as u64),
                None => Scalar::Null,
            },
        ),
    );
    let ghost r2 = row@;
    row.push((text::text("label"), text_scalar(&device.label)));
    let ghost r3 = row@;
    row.push((text::text("model"), text_scalar(&device.model)));
    proof {
        assert(r1.drop_last() =~= r0);
        assert(r2.drop_last() =~= r1);
        assert(r3.drop_last() =~= r2);
        assert(row@.drop_last() =~= r3);
        reveal_with_fuel(json::row_view, 5);
        assert(json::row_view(row@) =~= written_row(device@));
    }
    row
}

/// The table of the saved devices.
pub fn encode_table(entries: &Vec<SavedDevice>) -> (r: Table)
    ensures
        r@ == written(devices::views(entries@)),
        json::plain_table(r@),
        json::table_named_once(r),
{
    let ghost list = devices::views(entries@);
    let ghost want = list.map_values(|device: DeviceView| Some(written_row(device)));
    let mut rows: Vec<Option<Vec<(String, Scalar)>>> = Vec::new();
    let mut i: usize = 0;
    while i < entries.len()
        invariant
            i <= entries@.len(),
            list == devices::views(entries@),
            want == list.map_values(|device: DeviceView| Some(written_row(device))),
            rows@.len() == i,
            forall|j: int| 0 <= j < i ==> json::row_option(#[trigger] rows@[j]) == want[j],
            forall|j: int| 0 <= j < i ==> json::row_named_once(#[trigger] rows@[j]),
        decreases entries@.len() - i,
    {
        let row: Vec<(String, Scalar)> = encode_row(&entries[i]);
        rows.push(Some(row));
        i = i + 1;
    }
    proof {
        assert(json::rows_view(rows@) =~= want);
        lemma_written_plain(list);
    }
    Table { head: Scalar::Number(FORMAT), rows: Some(rows) }
}

proof fn lemma_written_plain(list: Seq<DeviceView>)
    ensures
        json::plain_table(written(list)),
{
    let rows = list.map_values(|device: DeviceView| Some(written_row(device)));
    assert forall|i: int| 0 <= i < rows.len() implies (#[trigger] rows[i] matches Some(row)
        && json::plain_row(row)) by {
        assert(rows[i] == Some(written_row(list[i])));
    }
}

/// The text of the file of saved devices.
pub fn encode(entries: &Vec<SavedDevice>) -> (r: String)
    ensures
        r@ == json::json_printed(written(devices::views(entries@)), "version"@, "devices"@),
        read_text(r@) == read_table(written(devices::views(entries@))),
{
    proof {
        lemma_keys();
    }
    let table: Table = encode_table(entries);
    json::print(&table, "version", "devices")
}

/// A device that can be saved: its host is in canonical form, its port is no zero,
/// and its names are good.
pub open spec fn savable(device: DeviceView) -> bool {
    &&& devices::host_of(device.host) == Some(device.host)
    &&& device.port != Some(0u16)
    &&& device.label matches Some(label) ==> good_name(label)
    &&& device.model matches Some(model) ==> good_name(model)
}

/// What is saved reads back: devices with distinct hosts, each of them savable,
/// come back the same and in the same order.
pub proof fn law_saved_devices_read_back(entries: Seq<DeviceView>)
    requires
        devices::distinct(entries),
        forall|i: int| 0 <= i < entries.len() ==> savable(#[trigger] entries[i]),
    ensures
        read_table(written(entries)) == Ok::<Seq<DeviceView>, DecodeErrorView>(entries),
{
    lemma_rows_read_back(entries);
}

proof fn lemma_keys()
    ensures
        "version"@ != "devices"@,
        "host"@ != "port"@,
        "host"@ != "label"@,
        "host"@ != "model"@,
        "port"@ != "label"@,
        "port"@ != "model"@,
        "label"@ != "model"@,
{
    reveal_strlit("version");
    reveal_strlit("devices");
    reveal_strlit("host");
    reveal_strlit("port");
    reveal_strlit("label");
    reveal_strlit("model");
    assert("version"@[0] == 'v' && "devices"@[0] == 'd');
    assert("host"@[0] == 'h' && "port"@[0] == 'p' && "label"@[0] == 'l' && "model"@[0] == 'm');
}

proof fn lemma_rows_read_back(entries: Seq<DeviceView>)
    requires
        devices::distinct(entries),
        forall|i: int| 0 <= i < entries.len() ==> savable(#[trigger] entries[i]),
    ensures
        read_rows(entries.map_values(|device: DeviceView| Some(written_row(device)))) == Ok::<
            Seq<DeviceView>,
            DecodeErrorView,
        >(entries),
    decreases entries.len(),
{
    let rows = entries.map_values(|device: DeviceView| Some(written_row(device)));
    if entries.len() > 0 {
        lemma_keys();
        let before = entries.drop_last();
        let device = entries.last();
        assert(before.map_values(|device: DeviceView| Some(written_row(device)))
            =~= rows.drop_last());
        assert forall|i: int| 0 <= i < before.len() implies savable(#[trigger] before[i]) by {
            assert(savable(entries[i]));
        }
        assert forall|i: int, j: int| 0 <= i < j < before.len() implies #[trigger] before[i].host
            != #[trigger] before[j].host by {
            assert(entries[i].host != entries[j].host);
        }
        lemma_rows_read_back(before);
        assert(rows.last() == Some(written_row(device)));
        assert(savable(entries[entries.len() - 1]));
        let row = Some(written_row(device));
        assert(member(row, "host"@) == ScalarView::Text(device.host));
        assert(member(row, "label"@) == written_text(device.label));
        assert(member(row, "model"@) == written_text(device.model));
        assert(!devices::has_host(before, device.host)) by {
            if devices::has_host(before, device.host) {
                let i = choose|i: int|
                    0 <= i < before.len() && #[trigger] before[i].host == device.host;
                assert(entries[i].host != entries[entries.len() - 1].host);
            }
        }
        assert(read_row(before, row) == Ok::<DeviceView, DecodeErrorView>(device));
        assert(before.push(device) =~= entries);
    } else {
        assert(rows =~= seq![]);
        assert(entries =~= seq![]);
    }
}

/// No two devices that are read have one host.
pub proof fn law_read_hosts_are_distinct(rows: Seq<Option<Map<Seq<char>, ScalarView>>>)
    ensures
        read_rows(rows) matches Ok(entries) ==> devices::distinct(entries),
    decreases rows.len(),
{
    if rows.len() > 0 {
        law_read_hosts_are_distinct(rows.drop_last());
        if let Ok(before) = read_rows(rows.drop_last()) {
            if let Ok(device) = read_row(before, rows.last()) {
                let entries = before.push(device);
                assert forall|i: int, j: int| 0 <= i < j < entries.len() implies #[trigger] entries[i].host
                    != #[trigger] entries[j].host by {
                    if j < before.len() {
                        assert(before[i].host != before[j].host);
                    } else {
                        assert(before[i].host != device.host);
                    }
                }
            }
        }
    }
}

/// What is read can be saved again, and then reads the same.
pub proof fn law_read_devices_are_savable(rows: Seq<Option<Map<Seq<char>, ScalarView>>>, i: int)
    requires
        read_rows(rows) is Ok,
        0 <= i < read_rows(rows)->Ok_0.len(),
    ensures
        savable(read_rows(rows)->Ok_0[i]),
    decreases rows.len(),
{
    let before = read_rows(rows.drop_last())->Ok_0;
    if i < before.len() {
        law_read_devices_are_savable(rows.drop_last(), i);
    } else {
        let row = rows.last();
        if let ScalarView::Text(s) = member(row, "host"@) {
            devices::law_canonical_hosts_are_stable(s);
        }
    }
}

pub open spec fn all_savable(entries: Seq<DeviceView>) -> bool {
    forall|i: int| 0 <= i < entries.len() ==> savable(#[trigger] entries[i])
}

proof fn lemma_remembered_savable(
    entries: Seq<DeviceView>,
    host: Seq<char>,
    port: Option<u16>,
    model: Option<Seq<char>>,
)
    requires
        all_savable(entries),
        devices::host_of(host) == Some(host),
        port != Some(0u16),
        model matches Some(model) ==> good_name(model),
    ensures
        all_savable(devices::remembered(entries, host, port, model)),
{
    if devices::has_host(entries, host) {
        devices::lemma_first(entries, host);
        assert(savable(entries[devices::first(entries, host)]));
    }
    let front = devices::remembered(entries, host, port, model);
    assert forall|i: int| 0 <= i < front.len() implies savable(#[trigger] front[i]) by {
        if i > 0 && devices::has_host(entries, host) {
            let at = devices::first(entries, host);
            assert(front[i] == entries[if i - 1 < at {
                i - 1
            } else {
                i
            }]);
        } else if i > 0 {
            assert(front[i] == entries[i - 1]);
        }
    }
}

proof fn lemma_changed_savable(
    entries: Seq<DeviceView>,
    host: Seq<char>,
    other: Seq<char>,
    label: Seq<char>,
)
    requires
        all_savable(entries),
        devices::host_of(other) == Some(other),
        good_name(label),
    ensures
        all_savable(devices::renamed(entries, host, label)),
        devices::moved(entries, host, other) matches Ok(list) ==> all_savable(list),
{
    if devices::has_host(entries, host) {
        devices::lemma_first(entries, host);
        assert(savable(entries[devices::first(entries, host)]));
    }
    let named = devices::renamed(entries, host, label);
    assert forall|i: int| 0 <= i < named.len() implies savable(#[trigger] named[i]) by {
        assert(savable(entries[i]));
    }
    if let Ok(list) = devices::moved(entries, host, other) {
        assert forall|i: int| 0 <= i < list.len() implies savable(#[trigger] list[i]) by {
            assert(savable(entries[i]));
        }
    }
}

proof fn lemma_removed_savable(entries: Seq<DeviceView>, host: Seq<char>)
    requires
        all_savable(entries),
    ensures
        all_savable(devices::removed(entries, host)),
{
    let rest = devices::removed(entries, host);
    assert forall|i: int| 0 <= i < rest.len() implies savable(#[trigger] rest[i]) by {
        lemma_filter_keeps(entries, devices::hosted_elsewhere(host), i);
        let k = choose|k: int| 0 <= k < entries.len() && entries[k] == rest[i];
        assert(savable(entries[k]));
    }
}

/// Changes with canonical hosts, ports other than zero and good names leave
/// devices that can be saved.
pub proof fn law_changes_keep_devices_savable(
    entries: Seq<DeviceView>,
    host: Seq<char>,
    other: Seq<char>,
    port: Option<u16>,
    model: Option<Seq<char>>,
    label: Seq<char>,
)
    requires
        all_savable(entries),
        devices::host_of(host) == Some(host),
        devices::host_of(other) == Some(other),
        port != Some(0u16),
        model matches Some(model) ==> good_name(model),
        good_name(label),
    ensures
        all_savable(devices::remembered(entries, host, port, model)),
        all_savable(devices::renamed(entries, host, label)),
        devices::moved(entries, host, other) matches Ok(list) ==> all_savable(list),
        all_savable(devices::removed(entries, host)),
{
    lemma_remembered_savable(entries, host, port, model);
    lemma_changed_savable(entries, host, other, label);
    lemma_removed_savable(entries, host);
}

proof fn lemma_filter_keeps(entries: Seq<DeviceView>, keep: spec_fn(DeviceView) -> bool, i: int)
    requires
        0 <= i < entries.filter(keep).len(),
    ensures
        entries.contains(entries.filter(keep)[i]),
    decreases entries.len(),
{
    reveal(Seq::filter);
    if entries.len() > 0 {
        let before = entries.drop_last();
        if i < before.filter(keep).len() {
            lemma_filter_keeps(before, keep, i);
            let k = choose|k: int| 0 <= k < before.len() && before[k] == before.filter(keep)[i];
            assert(entries[k] == entries.filter(keep)[i]);
        } else {
            assert(entries[entries.len() - 1] == entries.filter(keep)[i]);
        }
    }
}

/// Each part of a device is written under its own name.
pub proof fn law_parts_are_written_under_their_names(device: DeviceView)
    ensures
        ({
            let row = written_row(device);
            &&& row.contains_key("host"@) && row["host"@] == ScalarView::Text(device.host)
            &&& row.contains_key("port"@) && row["port"@] == (match device.port {
                Some(port) => ScalarView::Number(port as u64),
                None => ScalarView::Null,
            })
            &&& row.contains_key("label"@) && row["label"@] == (match device.label {
                Some(label) => ScalarView::Text(label),
                None => ScalarView::Null,
            })
            &&& row.contains_key("model"@) && row["model"@] == (match device.model {
                Some(model) => ScalarView::Text(model),
                None => ScalarView::Null,
            })
        }),
{
    lemma_keys();
}

/// Each part of a device is read from under its own name. A row is refused where the host is
/// missing, where it is none, where it was read before, where the port is out of range, and
/// where a name is none.
pub proof fn law_parts_are_read_from_under_their_names(
    before: Seq<DeviceView>,
    row: Map<Seq<char>, ScalarView>,
    i: int,
)
    ensures
        read_row(before, Some(row)) matches Ok(device) ==> {
            &&& row.contains_key("host"@) && (row["host"@] matches ScalarView::Text(s)
                && devices::host_of(s) == Some(device.host))
            &&& device.port matches Some(port) ==> row.contains_key("port"@) && row["port"@]
                == ScalarView::Number(port as u64) && port > 0
            &&& device.label matches Some(label) ==> row.contains_key("label"@) && (
            row["label"@] matches ScalarView::Text(s) && label == text::trimmed(s))
            &&& device.model matches Some(model) ==> row.contains_key("model"@) && (
            row["model"@] matches ScalarView::Text(s) && model == text::trimmed(s))
            &&& row.contains_key("port"@) && row["port"@] is Number ==> device.port is Some
            &&& row.contains_key("label"@) && row["label"@] is Text ==> device.label is Some
            &&& row.contains_key("model"@) && row["model"@] is Text ==> device.model is Some
            &&& 0 <= i < before.len() ==> before[i].host != device.host
        },
        !row.contains_key("host"@) ==> read_row(before, Some(row)) == Err::<
            DeviceView,
            DecodeErrorView,
        >(DecodeErrorView::NoHost),
{
    if let Ok(device) = read_row(before, Some(row)) {
        if 0 <= i < before.len() && before[i].host == device.host {
            assert(devices::has_host(before, device.host));
        }
    }
}

/// Rows are read in their order, one device from each.
pub proof fn law_every_row_is_a_device(rows: Seq<Option<Map<Seq<char>, ScalarView>>>, i: int)
    requires
        0 <= i < rows.len(),
    ensures
        read_rows(rows) matches Ok(entries) ==> entries.len() == rows.len() && (rows[i] matches Some(
            row,
        ) && (row["host"@] matches ScalarView::Text(s) && devices::host_of(s) == Some(
            entries[i].host,
        ))),
    decreases rows.len(),
{
    if let Ok(entries) = read_rows(rows) {
        let less = rows.drop_last();
        let before = read_rows(less)->Ok_0;
        if less.len() > 0 {
            law_every_row_is_a_device(less, if i < less.len() {
                i
            } else {
                0
            });
        }
        if i < less.len() {
            assert(less[i] == rows[i]);
        } else {
            assert(rows.last() == rows[i]);
        }
    }
}

} // verus!
