//! The file of the saved devices: what is known after reading it, and how changes
//! are made on its latest records.
use crate::devices::{self, DeviceView, SavedDevice, SavedDevices};
use crate::saved::{self, decode};
use crate::text;
use vstd::prelude::*;
use vstd::string::*;

verus! {

/// What reading the file gave.
#[derive(Debug)]
pub enum Reading {
    Text(String),
    /// There is no file yet.
    Missing,
    Failed(String),
}

pub enum ReadingView {
    Text(Seq<char>),
    Missing,
    Failed(Seq<char>),
}

impl View for Reading {
    type V = ReadingView;

    open spec fn view(&self) -> ReadingView {
        match self {
            Reading::Text(text) => ReadingView::Text(text@),
            Reading::Missing => ReadingView::Missing,
            Reading::Failed(error) => ReadingView::Failed(error@),
        }
    }
}

/// The devices in the file, or why they cannot be read.
pub open spec fn records(reading: ReadingView) -> Result<Seq<DeviceView>, Seq<char>> {
    match reading {
        ReadingView::Text(text) => match saved::read_text(text) {
            Ok(entries) => Ok(entries),
            Err(error) => Err(error.message()),
        },
        ReadingView::Missing => Ok(seq![]),
        ReadingView::Failed(error) => Err(error),
    }
}

fn latest(reading: &Reading) -> (r: Result<Vec<SavedDevice>, String>)
    ensures
        match r {
            Ok(entries) => records(reading@) == Ok::<Seq<DeviceView>, Seq<char>>(
                devices::views(entries@),
            ),
            Err(error) => records(reading@) == Err::<Seq<DeviceView>, Seq<char>>(error@),
        },
{
    match reading {
        Reading::Text(text) => match decode(text.as_str()) {
            Ok(entries) => Ok(entries),
            Err(error) => Err(text::text(error.message())),
        },
        Reading::Missing => {
            let entries: Vec<SavedDevice> = Vec::new();
            assert(devices::views(entries@) =~= seq![]);
            Ok(entries)
        },
        Reading::Failed(error) => Err(text::text(error.as_str())),
    }
}

fn sentence(before: &str, middle: &str, after: &str) -> (r: String)
    ensures
        r@ == before@ + middle@ + after@,
{
    let mut out: String = text::text(before);
    out.append(middle);
    out.append(after);
    out
}

pub open spec fn unreadable(path: Seq<char>, error: Seq<char>) -> Seq<char> {
    "Cannot read saved devices at "@ + path + ": "@ + error
        + ". Existing file preserved; changes are temporary."@
}

pub open spec fn not_updated(error: Seq<char>) -> Seq<char> {
    "Could not update saved devices: "@ + error + ". Changes are temporary."@
}

pub open spec fn not_saved(error: Seq<char>) -> Seq<char> {
    "Could not save devices: "@ + error + ". Changes are temporary."@
}

/// A path, and one below it.
pub open spec fn below(root: Seq<u8>, rest: Seq<u8>) -> Seq<u8> {
    if root.len() > 0 && root.last() != 0x2f {
        root.push(0x2f) + rest
    } else {
        root + rest
    }
}

pub open spec fn absolute(path: Seq<u8>) -> bool {
    path.len() > 0 && path[0] == 0x2f
}

/// Where the file is, by the two variables: below the first where that is an
/// absolute path, else in the usual place below the second.
pub open spec fn place(state: Option<Seq<u8>>, home: Option<Seq<u8>>) -> Option<Seq<u8>> {
    let file = "adb-input/devices.json"@.map_values(|c: char| c as u8);
    let usual = ".local/state"@.map_values(|c: char| c as u8);
    if state matches Some(root) && absolute(root) {
        Some(below(state->0, file))
    } else if home matches Some(root) && absolute(root) {
        Some(below(below(home->0, usual), file))
    } else {
        None
    }
}

pub open spec fn bytes_option(path: Option<Vec<u8>>) -> Option<Seq<u8>> {
    match path {
        Some(path) => Some(path@),
        None => None,
    }
}

fn append_ascii(path: &mut Vec<u8>, rest: &str)
    requires
        forall|i: int| 0 <= i < rest@.len() ==> text::is_printable(#[trigger] rest@[i]),
    ensures
        final(path)@ == below(old(path)@, rest@.map_values(|c: char| c as u8)),
{
    let ghost root = path@;
    if path.len() > 0 && path[path.len() - 1] != 0x2f {
        path.push(0x2f);
    }
    let ghost start = path@;
    let chars: Vec<char> = text::chars_of(rest);
    let ghost bytes = rest@.map_values(|c: char| c as u8);
    let mut i: usize = 0;
    while i < chars.len()
        invariant
            i <= chars@.len(),
            chars@ == rest@,
            bytes == rest@.map_values(|c: char| c as u8),
            forall|i: int| 0 <= i < rest@.len() ==> text::is_printable(#[trigger] rest@[i]),
            path@ =~= start + bytes.take(i as int),
        decreases chars@.len() - i,
    {
        assert(text::is_printable(rest@[i as int]));
        path.push(chars[i] as u8);
        i = i + 1;
    }
    assert(bytes.take(i as int) =~= bytes);
    assert(path@ =~= below(root, bytes));
}

/// The path of the file, by the values of `XDG_STATE_HOME` and `HOME`.
pub fn state_file(state: Option<Vec<u8>>, home: Option<Vec<u8>>) -> (r: Option<Vec<u8>>)
    ensures
        bytes_option(r) == place(bytes_option(state), bytes_option(home)),
{
    proof {
        reveal_strlit("adb-input/devices.json");
        reveal_strlit(".local/state");
    }
    if let Some(root) = state {
        if root.len() > 0 && root[0] == 0x2f {
            let mut path: Vec<u8> = root;
            append_ascii(&mut path, "adb-input/devices.json");
            return Some(path);
        }
    }
    if let Some(root) = home {
        if root.len() > 0 && root[0] == 0x2f {
            let mut path: Vec<u8> = root;
            append_ascii(&mut path, ".local/state");
            append_ascii(&mut path, "adb-input/devices.json");
            return Some(path);
        }
    }
    None
}

impl SavedDevices {
    /// The saved devices where there is no place for a file.
    pub fn unavailable() -> (r: SavedDevices)
        ensures
            r.list() == Seq::<DeviceView>::empty(),
            devices::text_option(r.warning) == Some(
                "Saved devices unavailable: HOME and XDG_STATE_HOME are unset."@,
            ),
    {
        let mut r: SavedDevices = SavedDevices::new();
        r.warning = Some(
            text::text("Saved devices unavailable: HOME and XDG_STATE_HOME are unset."),
        );
        r
    }

    /// The saved devices, and whether changes go to the file. A file that cannot be
    /// read is left alone.
    pub fn load(path: &str, reading: &Reading) -> (r: (SavedDevices, bool))
        ensures
            match records(reading@) {
                Ok(entries) => r.0.list() == entries && r.0.warning is None && r.1,
                Err(error) => {
                    &&& r.0.list() == Seq::<DeviceView>::empty()
                    &&& devices::text_option(r.0.warning) == Some(unreadable(path@, error))
                    &&& !r.1
                },
            },
    {
        match latest(reading) {
            Ok(entries) => (SavedDevices { entries, warning: None }, true),
            Err(error) => {
                let mut r: SavedDevices = SavedDevices::new();
                let mut warning: String = sentence("Cannot read saved devices at ", path, ": ");
                warning.append(error.as_str());
                warning.append(". Existing file preserved; changes are temporary.");
                assert(warning@ =~= unreadable(path@, error@));
                r.warning = Some(warning);
                (r, false)
            },
        }
    }

    /// Before a change: takes the latest records, so that the change keeps what was
    /// saved elsewhere in the meantime. Says whether the change can be saved.
    pub fn begin(&mut self, reading: &Reading) -> (r: bool)
        ensures
            match records(reading@) {
                Ok(entries) => {
                    &&& r
                    &&& final(self).list() == entries
                    &&& final(self).warning == old(self).warning
                },
                Err(error) => {
                    &&& !r
                    &&& final(self).list() == old(self).list()
                    &&& devices::text_option(final(self).warning) == Some(not_updated(error))
                },
            },
    {
        match latest(reading) {
            Ok(entries) => {
                self.entries = entries;
                true
            },
            Err(error) => {
                self.warning = Some(
                    sentence(
                        "Could not update saved devices: ",
                        error.as_str(),
                        ". Changes are temporary.",
                    ),
                );
                false
            },
        }
    }

    /// After a change: takes in whether the file was written.
    pub fn finish(&mut self, written: &Result<(), String>)
        ensures
            final(self).list() == old(self).list(),
            devices::text_option(final(self).warning) == match *written {
                Ok(_) => None,
                Err(error) => Some(not_saved(error@)),
            },
    {
        match written {
            Ok(_) => {
                self.warning = None;
            },
            Err(error) => {
                self.warning = Some(
                    sentence("Could not save devices: ", error.as_str(), ". Changes are temporary."),
                );
            },
        }
    }
}

/// A record that another process saved survives a change to another device.
pub proof fn law_records_saved_elsewhere_survive(
    reading: ReadingView,
    latest: Seq<DeviceView>,
    host: Seq<char>,
    other: Seq<char>,
    port: Option<u16>,
    model: Option<Seq<char>>,
    i: int,
)
    requires
        records(reading) == Ok::<Seq<DeviceView>, Seq<char>>(latest),
        0 <= i < latest.len(),
        latest[i].host != host,
    ensures
        devices::remembered(latest, host, port, model).contains(latest[i]),
        devices::renamed(latest, host, other).contains(latest[i]),
        devices::moved(latest, host, other) matches Ok(list) ==> list.contains(latest[i]),
        devices::removed(latest, host).contains(latest[i]),
{
    devices::law_other_devices_stay(latest, host, other, port, model, i);
}

/// What was written to the file is what reading it gives.
pub proof fn law_written_records_read_back(entries: Seq<DeviceView>, text: Seq<char>)
    requires
        saved::read_text(text) == saved::read_table(saved::written(entries)),
        devices::distinct(entries),
        forall|i: int| 0 <= i < entries.len() ==> saved::savable(#[trigger] entries[i]),
    ensures
        records(ReadingView::Text(text)) == Ok::<Seq<DeviceView>, Seq<char>>(entries),
{
    saved::law_saved_devices_read_back(entries);
}

/// The file lies below the directory for state where that is given as an absolute path, else
/// below the home directory, and nowhere else; a relative path counts as none.
pub proof fn law_the_file_lies_below_its_root(state: Seq<u8>, home: Seq<u8>)
    ensures
        ({
            let file = "adb-input/devices.json"@.map_values(|c: char| c as u8);
            let usual = ".local/state/adb-input/devices.json"@.map_values(|c: char| c as u8);
            &&& state.len() > 0 && state[0] == 47 && state.last() != 47 ==> place(
                Some(state),
                Some(home),
            ) == Some(state + seq![47u8] + file) && place(Some(state), None) == Some(
                state + seq![47u8] + file,
            )
            &&& home.len() > 0 && home[0] == 47 && home.last() != 47 ==> place(None, Some(home))
                == Some(home + seq![47u8] + usual)
            &&& home.len() > 0 && home[0] == 47 && home.last() != 47 && (state.len() == 0 || state[0]
                != 47) ==> place(Some(state), Some(home)) == Some(home + seq![47u8] + usual)
            &&& place(None, None) is None
            &&& (home.len() == 0 || home[0] != 47) ==> place(None, Some(home)) is None
        }),
{
    reveal_strlit("adb-input/devices.json");
    reveal_strlit(".local/state");
    reveal_strlit(".local/state/adb-input/devices.json");
    let file = "adb-input/devices.json"@.map_values(|c: char| c as u8);
    let inner = ".local/state"@.map_values(|c: char| c as u8);
    let usual = ".local/state/adb-input/devices.json"@.map_values(|c: char| c as u8);
    assert(inner.last() == 101);
    assert(usual =~= inner + seq![47u8] + file);
    assert(state.push(47) + file =~= state + seq![47u8] + file);
    assert(home.push(47) + inner =~= home + seq![47u8] + inner);
    let dir = home.push(47) + inner;
    assert(dir.last() == 101);
    assert(dir.push(47) + file =~= home + seq![47u8] + usual);
}

/// A file that is not there yet holds no devices, and one that cannot be read is told in the
/// words of the error.
pub proof fn law_missing_files_are_empty(error: Seq<char>)
    ensures
        records(ReadingView::Missing) == Ok::<Seq<DeviceView>, Seq<char>>(
            Seq::<DeviceView>::empty(),
        ),
        records(ReadingView::Failed(error)) == Err::<Seq<DeviceView>, Seq<char>>(error),
{
}

} // verus!
