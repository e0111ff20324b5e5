//! Managing the saved devices: choosing one, and giving it a name, another host, or
//! up.
use crate::devices::{self, host, DeviceView, HostError, SavedDevice, SavedDevices};
use crate::editor::EditorView;
use crate::forms::{Field, Form, FormStep, FormStepView, FormView, Wording, WordingView};
use crate::frame::{Screen, ScreenView};
use crate::menu::{self, menu, pick, Choice};
use crate::terminal::{Key, KeyView};
use crate::text;
use vstd::prelude::*;
use vstd::string::*;

verus! {

/// What is done to a saved device.
#[derive(Debug, PartialEq, Eq)]
pub enum Change {
    Rename { host: String, label: String },
    Move { from: String, to: String },
    Remove { host: String },
}

#[verifier::ext_equal]
pub enum ChangeView {
    Rename { host: Seq<char>, label: Seq<char> },
    Move { from: Seq<char>, to: Seq<char> },
    Remove { host: Seq<char> },
}

impl View for Change {
    type V = ChangeView;

    open spec fn view(&self) -> ChangeView {
        match self {
            Change::Rename { host, label } => ChangeView::Rename { host: host@, label: label@ },
            Change::Move { from, to } => ChangeView::Move { from: from@, to: to@ },
            Change::Remove { host } => ChangeView::Remove { host: host@ },
        }
    }
}

impl ChangeView {
    /// The saved devices after the change.
    pub open spec fn applied(self, saved: Seq<DeviceView>) -> Result<Seq<DeviceView>, HostError> {
        match self {
            ChangeView::Rename { host, label } => Ok(devices::renamed(saved, host, label)),
            ChangeView::Move { from, to } => devices::moved(saved, from, to),
            ChangeView::Remove { host } => Ok(devices::removed(saved, host)),
        }
    }

    /// What is said of it.
    pub open spec fn news(self) -> Seq<char> {
        match self {
            ChangeView::Rename { .. } => "Device renamed."@,
            ChangeView::Move { .. } => "Host updated."@,
            ChangeView::Remove { .. } => "Removed from this list. ADB pairing is unchanged."@,
        }
    }
}

impl Change {
    /// Makes the change, and says so. A device keeps its host where the change is
    /// refused.
    pub fn apply(&self, saved: &mut SavedDevices) -> (r: Result<&'static str, HostError>)
        ensures
            final(saved).warning == old(saved).warning,
            match self@.applied(old(saved).list()) {
                Ok(list) => {
                    &&& final(saved).list() == list
                    &&& r matches Ok(news) && news@ == self@.news()
                },
                Err(error) => {
                    &&& final(saved).list() == old(saved).list()
                    &&& r == Err::<&'static str, HostError>(error)
                },
            },
    {
        match self {
            Change::Rename { host, label } => {
                saved.rename(host.as_str(), text::text(label.as_str()));
                Ok("Device renamed.")
            },
            Change::Move { from, to } => match saved.change_host(
                from.as_str(),
                text::text(to.as_str()),
            ) {
                Ok(_) => Ok("Host updated."),
                Err(error) => Err(error),
            },
            Change::Remove { host } => {
                saved.remove(host.as_str());
                Ok("Removed from this list. ADB pairing is unchanged.")
            },
        }
    }
}

/// What a key leads to.
#[derive(Debug, PartialEq, Eq)]
pub enum ManageStep {
    Stay,
    Leave,
    Apply(Change),
}

#[verifier::ext_equal]
pub enum ManageStepView {
    Stay,
    Leave,
    Apply(ChangeView),
}

impl View for ManageStep {
    type V = ManageStepView;

    open spec fn view(&self) -> ManageStepView {
        match self {
            ManageStep::Stay => ManageStepView::Stay,
            ManageStep::Leave => ManageStepView::Leave,
            ManageStep::Apply(change) => ManageStepView::Apply(change@),
        }
    }
}

/// Where the management of the saved devices stands.
#[derive(Debug)]
pub enum Stage {
    /// A device is being chosen.
    Entries { selected: usize },
    /// What to do with the device is being chosen.
    Actions { entry: SavedDevice, selected: usize },
    Naming { entry: SavedDevice, form: Form },
    Moving { entry: SavedDevice, form: Form },
}

#[verifier::ext_equal]
pub enum StageView {
    Entries { selected: usize },
    Actions { entry: DeviceView, selected: usize },
    Naming { entry: DeviceView, form: FormView },
    Moving { entry: DeviceView, form: FormView },
}

impl View for Stage {
    type V = StageView;

    open spec fn view(&self) -> StageView {
        match self {
            Stage::Entries { selected } => StageView::Entries { selected: *selected },
            Stage::Actions { entry, selected } => StageView::Actions {
                entry: entry@,
                selected: *selected,
            },
            Stage::Naming { entry, form } => StageView::Naming { entry: entry@, form: form@ },
            Stage::Moving { entry, form } => StageView::Moving { entry: entry@, form: form@ },
        }
    }
}

pub open spec fn filled(field: Field, value: Seq<char>) -> FormView {
    FormView {
        field,
        editor: EditorView {
            text: value,
            cursor: value.len() as int,
            selected: value.len() > 0,
        },
        validation: seq![],
    }
}

pub open spec fn naming_words() -> WordingView {
    WordingView {
        title: "Rename saved device"@,
        label: "Name"@,
        help: "Choose a name for this device."@,
    }
}

pub open spec fn moving_words() -> WordingView {
    WordingView {
        title: "Edit saved host"@,
        label: "IP / hostname"@,
        help: "The last connection port will be kept."@,
    }
}

pub open spec fn actions() -> Seq<Seq<char>> {
    seq!["Rename"@, "Edit IP / hostname"@, "Remove from saved list"@]
}

/// A saved device among those that can be chosen.
pub open spec fn entry_label(entry: DeviceView) -> Seq<char> {
    entry.name() + " / "@ + entry.host
}

pub open spec fn entry_labels(entries: Seq<DeviceView>) -> Seq<Seq<char>> {
    entries.map_values(|entry: DeviceView| entry_label(entry))
}

impl StageView {
    /// A key among `entries`. Escape leaves from every stage.
    pub open spec fn key(self, entries: Seq<DeviceView>, key: Option<KeyView>) -> (
        StageView,
        ManageStepView,
    ) {
        match self {
            StageView::Entries { selected } => match menu::chosen(
                selected,
                entries.len() as int,
                key,
            ) {
                Choice::Stay(selected) => (StageView::Entries { selected }, ManageStepView::Stay),
                Choice::Picked(i) => (
                    StageView::Actions { entry: entries[i as int], selected: 0 },
                    ManageStepView::Stay,
                ),
                Choice::Back => (self, ManageStepView::Leave),
            },
            StageView::Actions { entry, selected } => match menu::chosen(selected, 3, key) {
                Choice::Stay(selected) => (
                    StageView::Actions { entry, selected },
                    ManageStepView::Stay,
                ),
                Choice::Picked(i) => if i == 0 {
                    (
                        StageView::Naming { entry, form: filled(Field::Name, entry.name()) },
                        ManageStepView::Stay,
                    )
                } else if i == 1 {
                    (
                        StageView::Moving { entry, form: filled(Field::Host, entry.host) },
                        ManageStepView::Stay,
                    )
                } else {
                    (self, ManageStepView::Apply(ChangeView::Remove { host: entry.host }))
                },
                Choice::Back => (self, ManageStepView::Leave),
            },
            StageView::Naming { entry, form } => {
                let (form, step) = form.key(key);
                (
                    StageView::Naming { entry, form },
                    match step {
                        FormStepView::Stay => ManageStepView::Stay,
                        FormStepView::Back => ManageStepView::Leave,
                        FormStepView::Done(label) => ManageStepView::Apply(
                            ChangeView::Rename { host: entry.host, label },
                        ),
                    },
                )
            },
            StageView::Moving { entry, form } => {
                let (form, step) = form.key(key);
                (
                    StageView::Moving { entry, form },
                    match step {
                        FormStepView::Stay => ManageStepView::Stay,
                        FormStepView::Back => ManageStepView::Leave,
                        FormStepView::Done(value) => match devices::host_of(value) {
                            Some(to) => ManageStepView::Apply(
                                ChangeView::Move { from: entry.host, to },
                            ),
                            None => ManageStepView::Stay,
                        },
                    },
                )
            },
        }
    }
}

impl StageView {
    /// The stage on a terminal of this size.
    pub open spec fn screen(self, entries: Seq<DeviceView>, width: int, height: int) -> ScreenView {
        match self {
            StageView::Entries { selected } => menu::menu_screen(
                "Manage saved devices"@,
                None,
                entry_labels(entries),
                selected as int,
                ""@,
                false,
                width,
                height,
            ),
            StageView::Actions { entry, selected } => menu::menu_screen(
                entry.name(),
                None,
                actions(),
                selected as int,
                ""@,
                false,
                width,
                height,
            ),
            StageView::Naming { entry, form } => form.screen(naming_words(), width, height),
            StageView::Moving { entry, form } => form.screen(moving_words(), width, height),
        }
    }
}

/// The saved devices, and where their management stands.
#[derive(Debug)]
pub struct Manager {
    pub entries: Vec<SavedDevice>,
    pub stage: Stage,
}

impl Manager {
    pub open spec fn list(self) -> Seq<DeviceView> {
        devices::views(self.entries@)
    }

    pub open spec fn wf(self) -> bool {
        match self.stage {
            Stage::Entries { selected } => selected < self.entries@.len(),
            Stage::Actions { entry, selected } => selected < 3,
            Stage::Naming { entry, form } => form.wf(),
            Stage::Moving { entry, form } => form.wf(),
        }
    }

    /// Starts with the saved devices. Without any there is nothing to manage.
    pub fn new(saved: &SavedDevices) -> (r: Option<Manager>)
        ensures
            r is Some == (saved.list().len() > 0),
            r matches Some(manager) ==> {
                &&& manager.wf()
                &&& manager.list() == saved.list()
                &&& manager.stage == (Stage::Entries { selected: 0 })
            },
    {
        if saved.entries.len() == 0 {
            return None;
        }
        let mut entries: Vec<SavedDevice> = Vec::new();
        let mut i: usize = 0;
        while i < saved.entries.len()
            invariant
                i <= saved.entries@.len(),
                entries@.len() == i,
                forall|j: int| 0 <= j < i ==> (#[trigger] entries@[j])@ == saved.entries@[j]@,
            decreases saved.entries@.len() - i,
        {
            entries.push(saved.entries[i].copy());
            i = i + 1;
        }
        assert(devices::views(entries@) =~= saved.list());
        Some(Manager { entries, stage: Stage::Entries { selected: 0 } })
    }

    /// What is said where there is nothing to manage.
    pub fn nothing() -> (r: &'static str)
        ensures
            r@ == "No saved devices yet. Connect or pair a device first."@,
    {
        "No saved devices yet. Connect or pair a device first."
    }

    fn choose_entry(&mut self, selected: usize, key: Option<Key>) -> (r: ManageStep)
        requires
            old(self).wf(),
            old(self).stage == (Stage::Entries { selected }),
        ensures
            final(self).wf(),
            final(self).entries == old(self).entries,
            (final(self).stage@, r@) == old(self).stage@.key(
                old(self).list(),
                menu::key_option(key),
            ),
    {
        match pick(selected, self.entries.len(), &key) {
            Choice::Stay(selected) => {
                self.stage = Stage::Entries { selected };
                ManageStep::Stay
            },
            Choice::Picked(i) => {
                let entry: SavedDevice = self.entries[i].copy();
                assert(entry@ == self.list()[i as int]);
                self.stage = Stage::Actions { entry, selected: 0 };
                ManageStep::Stay
            },
            Choice::Back => ManageStep::Leave,
        }
    }

    fn choose_action(&mut self, entry: SavedDevice, selected: usize, key: Option<Key>) -> (r:
        ManageStep)
        requires
            old(self).wf(),
            old(self).stage@ == (StageView::Actions { entry: entry@, selected }),
        ensures
            final(self).wf(),
            final(self).entries == old(self).entries,
            (final(self).stage@, r@) == old(self).stage@.key(
                old(self).list(),
                menu::key_option(key),
            ),
    {
        match pick(selected, 3, &key) {
            Choice::Stay(selected) => {
                self.stage = Stage::Actions { entry, selected };
                ManageStep::Stay
            },
            Choice::Picked(i) => if i == 0 {
                let form: Form = Form::new(Field::Name, entry.name());
                self.stage = Stage::Naming { entry, form };
                ManageStep::Stay
            } else if i == 1 {
                let form: Form = Form::new(Field::Host, entry.host.as_str());
                self.stage = Stage::Moving { entry, form };
                ManageStep::Stay
            } else {
                ManageStep::Apply(Change::Remove { host: entry.host })
            },
            Choice::Back => ManageStep::Leave,
        }
    }

    /// Takes in one key.
    pub fn key(&mut self, key: Option<Key>) -> (r: ManageStep)
        requires
            old(self).wf(),
        ensures
            final(self).wf(),
            final(self).entries == old(self).entries,
            (final(self).stage@, r@) == old(self).stage@.key(
                old(self).list(),
                menu::key_option(key),
            ),
    {
        match &mut self.stage {
            Stage::Entries { selected } => {
                let selected: usize = *selected;
                self.choose_entry(selected, key)
            },
            Stage::Actions { entry, selected } => {
                let entry: SavedDevice = entry.copy();
                let selected: usize = *selected;
                self.choose_action(entry, selected, key)
            },
            Stage::Naming { entry, form } => match form.key(key) {
                FormStep::Stay => ManageStep::Stay,
                FormStep::Back => ManageStep::Leave,
                FormStep::Done(label) => ManageStep::Apply(
                    Change::Rename { host: text::text(entry.host.as_str()), label },
                ),
            },
            Stage::Moving { entry, form } => match form.key(key) {
                FormStep::Stay => ManageStep::Stay,
                FormStep::Back => ManageStep::Leave,
                FormStep::Done(value) => match host(value.as_str()) {
                    Some(to) => ManageStep::Apply(
                        Change::Move { from: text::text(entry.host.as_str()), to },
                    ),
                    None => ManageStep::Stay,
                },
            },
        }
    }

    /// The screen of the stage on a terminal of this size.
    pub fn screen(&self, width: usize, height: usize) -> (r: Screen)
        requires
            self.wf(),
        ensures
            r@ == self.stage@.screen(self.list(), width as int, height as int),
    {
        match &self.stage {
            Stage::Entries { selected } => {
                let mut labels: Vec<String> = Vec::new();
                let mut i: usize = 0;
                while i < self.entries.len()
                    invariant
                        i <= self.entries@.len(),
                        menu::texts(labels@) =~= entry_labels(self.list()).take(i as int),
                    decreases self.entries@.len() - i,
                {
                    let mut label: String = text::text(self.entries[i].name());
                    label.append(" / ");
                    label.append(self.entries[i].host.as_str());
                    let ghost before = labels@;
                    labels.push(label);
                    assert(menu::texts(labels@) =~= menu::texts(before).push(label@));
                    assert(label@ == entry_label(self.list()[i as int]));
                    assert(entry_labels(self.list()).take(i + 1) =~= entry_labels(
                        self.list(),
                    ).take(i as int).push(label@));
                    i = i + 1;
                }
                assert(menu::texts(labels@) =~= entry_labels(self.list()));
                menu(
                    "Manage saved devices",
                    None,
                    &labels,
                    *selected,
                    "",
                    false,
                    width,
                    height,
                )
            },
            Stage::Actions { entry, selected } => {
                let mut items: Vec<String> = Vec::new();
                items.push(text::text("Rename"));
                items.push(text::text("Edit IP / hostname"));
                items.push(text::text("Remove from saved list"));
                assert(menu::texts(items@) =~= actions());
                menu(entry.name(), None, &items, *selected, "", false, width, height)
            },
            Stage::Naming { entry, form } => {
                let wording: Wording = Wording {
                    title: "Rename saved device",
                    label: "Name",
                    help: "Choose a name for this device.",
                };
                form.screen(&wording, width, height)
            },
            Stage::Moving { entry, form } => {
                let wording: Wording = Wording {
                    title: "Edit saved host",
                    label: "IP / hostname",
                    help: "The last connection port will be kept.",
                };
                form.screen(&wording, width, height)
            },
        }
    }
}

/// The stages hold forms for what they ask.
pub open spec fn sound(stage: StageView) -> bool {
    match stage {
        StageView::Naming { entry, form } => form.field == Field::Name,
        StageView::Moving { entry, form } => form.field == Field::Host,
        _ => true,
    }
}

/// Every change is to the device that was chosen, gives it a name or a canonical
/// host, and leaves the others as they are and no host saved twice.
pub proof fn law_changes_are_confined(
    stage: StageView,
    entries: Seq<DeviceView>,
    key: Option<KeyView>,
    saved: Seq<DeviceView>,
)
    requires
        sound(stage),
        devices::distinct(saved),
    ensures
        sound(stage.key(entries, key).0),
        stage.key(entries, key).1 matches ManageStepView::Apply(change) ==> {
            let host = match change {
                ChangeView::Rename { host, label } => host,
                ChangeView::Move { from, to } => from,
                ChangeView::Remove { host } => host,
            };
            &&& match stage {
                StageView::Entries { .. } => false,
                StageView::Actions { entry, .. } => host == entry.host,
                StageView::Naming { entry, .. } => host == entry.host,
                StageView::Moving { entry, .. } => host == entry.host,
            }
            &&& match change {
                ChangeView::Rename { host, label } => Field::Name.accepts(label),
                ChangeView::Move { from, to } => devices::host_of(to) == Some(to),
                ChangeView::Remove { host } => true,
            }
            &&& change.applied(saved) matches Ok(list) ==> {
                &&& devices::distinct(list)
                &&& forall|i: int|
                    0 <= i < saved.len() && (#[trigger] saved[i]).host != host ==> list.contains(
                        saved[i],
                    )
            }
        },
{
    if let ManageStepView::Apply(change) = stage.key(entries, key).1 {
        let (host, other) = match change {
            ChangeView::Rename { host, label } => (host, label),
            ChangeView::Move { from, to } => (from, to),
            ChangeView::Remove { host } => (host, host),
        };
        if let StageView::Moving { entry, form } = stage {
            devices::law_canonical_hosts_are_stable(text::trimmed(form.editor.text));
        }
        devices::law_saved_hosts_stay_distinct(saved, host, other, None, None);
        assert forall|i: int| 0 <= i < saved.len() && (#[trigger] saved[i]).host != host implies (
        change.applied(saved) matches Ok(list) ==> list.contains(saved[i])) by {
            devices::law_other_devices_stay(saved, host, other, None, None, i);
        }
    }
}

/// Each of the three actions does what its line says, to the device that was picked.
pub proof fn law_actions_do_what_they_say(
    entry: DeviceView,
    selected: usize,
    entries: Seq<DeviceView>,
)
    requires
        selected < 3,
    ensures
        ({
            let stage = StageView::Actions { entry, selected };
            let says = actions()[selected as int];
            let (after, step) = stage.key(entries, Some(KeyView::Enter));
            &&& actions().len() == 3
            &&& says == "Rename"@ ==> step == ManageStepView::Stay && (
            after matches StageView::Naming { entry: named, form } && named == entry
                && form.editor.text == entry.name() && form.field == Field::Name)
            &&& says == "Edit IP / hostname"@ ==> step == ManageStepView::Stay && (
            after matches StageView::Moving { entry: moving, form } && moving == entry
                && form.editor.text == entry.host && form.field == Field::Host)
            &&& says == "Remove from saved list"@ ==> step == ManageStepView::Apply(
                ChangeView::Remove { host: entry.host },
            )
            &&& says == "Rename"@ || says == "Edit IP / hostname"@ || says
                == "Remove from saved list"@
        }),
{
    reveal_strlit("Rename");
    reveal_strlit("Edit IP / hostname");
    reveal_strlit("Remove from saved list");
    assert("Rename"@.len() == 6 && "Edit IP / hostname"@.len() == 18
        && "Remove from saved list"@.len() == 22);
}

/// The device on the selected line is the one whose actions are offered.
pub proof fn law_picked_devices_are_managed(selected: usize, entries: Seq<DeviceView>)
    requires
        selected < entries.len(),
    ensures
        ({
            let (after, step) = (StageView::Entries { selected }).key(
                entries,
                Some(KeyView::Enter),
            );
            &&& step == ManageStepView::Stay
            &&& after == (StageView::Actions { entry: entries[selected as int], selected: 0 })
            &&& entry_labels(entries)[selected as int] == entries[selected as int].name() + " / "@
                + entries[selected as int].host
        }),
{
}

/// Escape leaves every stage, and nothing is changed by it.
pub proof fn law_escape_changes_nothing(stage: StageView, entries: Seq<DeviceView>)
    ensures
        stage.key(entries, Some(KeyView::Escape)).1 == ManageStepView::Leave,
{
}

/// What is typed as a name becomes the label, and what is typed as a host becomes the host
/// in its canonical form, of the device that was picked. A change comes from Enter alone.
pub proof fn law_entered_values_are_applied(
    stage: StageView,
    entries: Seq<DeviceView>,
    key: Option<KeyView>,
)
    ensures
        stage.key(entries, key).1 matches ManageStepView::Apply(change) ==> {
            &&& key == Some(KeyView::Enter)
            &&& match stage {
                StageView::Naming { entry, form } => change matches ChangeView::Rename {
                    host,
                    label,
                } && host == entry.host && label == text::trimmed(form.editor.text),
                StageView::Moving { entry, form } => change matches ChangeView::Move { from, to }
                    && from == entry.host && Some(to) == devices::host_of(text::trimmed(form.editor.text)),
                StageView::Actions { entry, selected } => change matches ChangeView::Remove {
                    host,
                } && host == entry.host,
                StageView::Entries { selected } => false,
            }
        },
        stage matches StageView::Naming { entry, form } ==> form.field.accepts(
            text::trimmed(form.editor.text),
        ) ==> stage.key(entries, Some(KeyView::Enter)).1 is Apply,
        stage matches StageView::Moving { entry, form } ==> form.field == Field::Host
            && form.field.accepts(text::trimmed(form.editor.text)) ==> stage.key(
            entries,
            Some(KeyView::Enter),
        ).1 is Apply,
{
}

/// Carrying out a change gives the device its new label, gives it its new host, or takes it
/// off the list, and does nothing else to it.
pub proof fn law_changes_are_carried_out(
    saved: Seq<DeviceView>,
    host: Seq<char>,
    other: Seq<char>,
    i: int,
)
    requires
        devices::is_found(saved, host, i),
    ensures
        (ChangeView::Rename { host, label: other }).applied(saved) matches Ok(list) && list[i].label
            == Some(other) && list[i].host == host && list[i].port == saved[i].port
            && list.len() == saved.len(),
        (ChangeView::Move { from: host, to: other }).applied(saved) matches Ok(list) ==> list[i].host
            == other && list[i].label == saved[i].label && list[i].port == saved[i].port
            && list.len() == saved.len(),
        (ChangeView::Remove { host }).applied(saved) matches Ok(list) && !devices::has_host(
            list,
            host,
        ),
{
    devices::law_changes_touch_one_field(saved, host, other, i);
    let list = devices::removed(saved, host);
    if devices::has_host(list, host) {
        let j = choose|j: int| 0 <= j < list.len() && #[trigger] list[j].host == host;
        saved.lemma_filter_pred(devices::hosted_elsewhere(host), j);
    }
}

} // verus!
