//! The home screen: the chosen device, what can be done with it, and what became of
//! it.
use crate::adb::{self, DeviceInfo, InfoView};
use crate::devices::{self, DeviceView, Endpoint, SavedDevice, SavedDevices};
use crate::frame::Screen;
use crate::menu::{self, menu, pick, Choice};
use crate::roster::{
    self, caption, choices, is_on, preferred, reconnect_entry, retain_choice, saved_info,
    saved_notice,
};
use crate::terminal::{Key, KeyView};
use crate::text::{self, decimal_text};
use vstd::prelude::*;
use vstd::string::*;

verus! {

/// What is to be done after a key.
#[derive(Debug, PartialEq, Eq)]
pub enum Action {
    Stay,
    Quit,
    /// Ask for the port of this device, and connect to it.
    Reconnect(SavedDevice),
    /// Save this device, and hand it the keyboard and the pointer.
    Control(DeviceInfo),
    /// Save this device, and choose it.
    Use(DeviceInfo),
    /// List the devices, and let one be chosen.
    Choose,
    /// Ask for an address, and connect or pair.
    Connect { pairing: bool },
    Refresh,
    Manage,
}

#[verifier::ext_equal]
pub enum ActionView {
    Stay,
    Quit,
    Reconnect(DeviceView),
    Control(InfoView),
    Use(InfoView),
    Choose,
    Connect { pairing: bool },
    Refresh,
    Manage,
}

impl View for Action {
    type V = ActionView;

    open spec fn view(&self) -> ActionView {
        match self {
            Action::Stay => ActionView::Stay,
            Action::Quit => ActionView::Quit,
            Action::Reconnect(entry) => ActionView::Reconnect(entry@),
            Action::Control(device) => ActionView::Control(device@),
            Action::Use(device) => ActionView::Use(device@),
            Action::Choose => ActionView::Choose,
            Action::Connect { pairing } => ActionView::Connect { pairing: *pairing },
            Action::Refresh => ActionView::Refresh,
            Action::Manage => ActionView::Manage,
        }
    }
}

/// The devices that were listed last, the chosen one, the selected item, and what
/// is to be said.
#[verifier::ext_equal]
pub struct HomeView {
    pub devices: Seq<InfoView>,
    pub chosen: Option<InfoView>,
    pub selected: usize,
    pub notice: Seq<char>,
    pub notice_error: bool,
}

pub open spec fn reconnects(chosen: Option<InfoView>) -> bool {
    chosen matches Some(device) && !roster::on(device)
}

pub open spec fn items(chosen: Option<InfoView>) -> Seq<Seq<char>> {
    seq![
        if reconnects(chosen) {
            "Reconnect"@
        } else {
            "Start control"@
        },
        "Choose device"@,
        "Connect another device"@,
        "Pair wireless debugging"@,
        "Refresh devices"@,
        "Manage saved devices"@,
        "Exit"@,
    ]
}

pub const ITEMS: usize = 7;

/// A device among those that can be chosen.
pub open spec fn device_label(device: InfoView) -> Seq<char> {
    roster::caption_of(device) + " / "@ + device.serial + " / "@ + device.state
}

pub open spec fn device_labels(list: Seq<InfoView>) -> Seq<Seq<char>> {
    list.map_values(|device: InfoView| device_label(device))
}

/// Whether a device is listed and can be used.
pub open spec fn still_on(list: Seq<InfoView>, serial: Seq<char>) -> bool {
    exists|i: int|
        0 <= i < list.len() && (#[trigger] list[i]).serial == serial && roster::on(list[i])
}

impl HomeView {
    pub open spec fn failed(self, error: Seq<char>) -> HomeView {
        HomeView { notice: error, notice_error: true, ..self }
    }

    /// The first item: control the chosen device, or reconnect it.
    pub open spec fn engage(self, saved: Seq<DeviceView>) -> (HomeView, ActionView) {
        match self.chosen {
            Some(device) => if roster::on(device) {
                (self, ActionView::Control(device))
            } else {
                match roster::reconnectable(device, saved) {
                    Some(entry) => (self, ActionView::Reconnect(entry)),
                    None => (
                        self.failed(
                            "Reconnect the USB cable and approve debugging, then refresh devices."@,
                        ),
                        ActionView::Stay,
                    ),
                }
            },
            None => (
                HomeView {
                    notice: "Connect or select a saved device first."@,
                    selected: 2,
                    ..self
                },
                ActionView::Stay,
            ),
        }
    }

    pub open spec fn run(self, key: Option<KeyView>, saved: Seq<DeviceView>) -> (
        HomeView,
        ActionView,
    ) {
        match menu::chosen(self.selected, ITEMS as int, key) {
            Choice::Stay(selected) => (HomeView { selected, ..self }, ActionView::Stay),
            Choice::Back => (self, ActionView::Quit),
            Choice::Picked(item) => {
                let calm = HomeView { notice_error: false, ..self };
                if item == 0 {
                    calm.engage(saved)
                } else if item == 1 {
                    (calm, ActionView::Choose)
                } else if item == 2 || item == 3 {
                    (calm, ActionView::Connect { pairing: item == 3 })
                } else if item == 4 {
                    (calm, ActionView::Refresh)
                } else if item == 5 {
                    (calm, ActionView::Manage)
                } else {
                    (calm, ActionView::Quit)
                }
            },
        }
    }

    /// A device of the list was picked.
    pub open spec fn picked(self, index: int, saved: Seq<DeviceView>) -> (HomeView, ActionView) {
        let device = self.devices[index];
        if roster::on(device) {
            (self, ActionView::Use(device))
        } else {
            match roster::reconnectable(device, saved) {
                Some(entry) => (
                    HomeView { chosen: Some(device), ..self },
                    ActionView::Reconnect(entry),
                ),
                None => (
                    HomeView { chosen: Some(device), selected: 0, ..self },
                    ActionView::Stay,
                ),
            }
        }
    }

    /// A device was chosen, with something to say of it.
    pub open spec fn settled(
        self,
        device: InfoView,
        message: Seq<char>,
        warning: Option<Seq<char>>,
    ) -> HomeView {
        HomeView {
            chosen: Some(device),
            notice: roster::notice_of(warning, message),
            selected: 0,
            ..self
        }
    }

    /// The session with the chosen device failed.
    pub open spec fn broken(self, listed: Seq<InfoView>, error: Seq<char>) -> HomeView {
        let chosen = match self.chosen {
            Some(device) => if still_on(listed, device.serial) {
                Some(device)
            } else {
                Some(InfoView { state: "offline"@, ..device })
            },
            None => None,
        };
        HomeView { chosen, ..self }.failed(error)
    }
}

#[derive(Debug)]
pub struct Home {
    pub devices: Vec<DeviceInfo>,
    pub chosen: Option<DeviceInfo>,
    pub selected: usize,
    pub notice: String,
    pub notice_error: bool,
}

impl View for Home {
    type V = HomeView;

    open spec fn view(&self) -> HomeView {
        HomeView {
            devices: adb::infos(self.devices@),
            chosen: roster::info_option(self.chosen),
            selected: self.selected,
            notice: self.notice@,
            notice_error: self.notice_error,
        }
    }
}

impl Home {
    pub open spec fn wf(self) -> bool {
        self.selected < ITEMS
    }

    /// The home screen after devices were looked for.
    pub fn new(saved: &SavedDevices, found: &Result<Vec<DeviceInfo>, String>) -> (r: Home)
        ensures
            r.wf(),
            r.selected == 0,
            match *found {
                Ok(online) => {
                    &&& r@.devices == roster::choices_of(adb::infos(online@), saved.list())
                    &&& r@.notice_error == saved.warning is Some
                    &&& r@.notice == match devices::text_option(saved.warning) {
                        Some(warning) => warning,
                        None => seq![],
                    }
                },
                Err(error) => {
                    &&& r@.devices == roster::choices_of(seq![], saved.list())
                    &&& r@.notice_error
                    &&& r@.notice == error@
                },
            },
            roster::is_preferred(r@.devices, r@.chosen),
    {
        let none: Vec<DeviceInfo> = Vec::new();
        assert(adb::infos(none@) =~= seq![]);
        match found {
            Ok(online) => {
                let list: Vec<DeviceInfo> = choices(online, saved);
                let chosen: Option<DeviceInfo> = preferred(&list);
                let notice: String = match &saved.warning {
                    Some(warning) => text::text(warning.as_str()),
                    None => String::new(),
                };
                let r = Home {
                    devices: list,
                    chosen,
                    selected: 0,
                    notice,
                    notice_error: saved.warning.is_some(),
                };
                assert(saved.warning is None ==> r@.notice =~= seq![]);
                r
            },
            Err(error) => {
                let list: Vec<DeviceInfo> = choices(&none, saved);
                let chosen: Option<DeviceInfo> = preferred(&list);
                Home {
                    devices: list,
                    chosen,
                    selected: 0,
                    notice: text::text(error.as_str()),
                    notice_error: true,
                }
            },
        }
    }

    /// The screen on a terminal of this size.
    pub fn screen(&self, width: usize, height: usize) -> (r: Screen)
        ensures
            r@ == menu::menu_screen(
                "DEVICE"@,
                self@.chosen,
                items(self@.chosen),
                self.selected as int,
                self@.notice,
                self.notice_error,
                width as int,
                height as int,
            ),
    {
        let reconnect: bool = match &self.chosen {
            Some(device) => !is_on(device),
            None => false,
        };
        let mut list: Vec<String> = Vec::new();
        list.push(
            text::text(
                if reconnect {
                    "Reconnect"
                } else {
                    "Start control"
                },
            ),
        );
        list.push(text::text("Choose device"));
        list.push(text::text("Connect another device"));
        list.push(text::text("Pair wireless debugging"));
        list.push(text::text("Refresh devices"));
        list.push(text::text("Manage saved devices"));
        list.push(text::text("Exit"));
        assert(menu::texts(list@) =~= items(self@.chosen));
        menu(
            "DEVICE",
            self.chosen.as_ref(),
            &list,
            self.selected,
            self.notice.as_str(),
            self.notice_error,
            width,
            height,
        )
    }

    /// Something failed.
    pub fn fail(&mut self, error: &str)
        ensures
            final(self)@ == old(self)@.failed(error@),
    {
        self.notice = text::text(error);
        self.notice_error = true;
    }

    fn engage(&mut self, saved: &SavedDevices) -> (r: Action)
        requires
            old(self).wf(),
        ensures
            final(self).wf(),
            (final(self)@, r@) == old(self)@.engage(saved.list()),
    {
        let (online, entry): (bool, Option<SavedDevice>) = match &self.chosen {
            Some(device) => (is_on(device), reconnect_entry(device, saved)),
            None => {
                self.notice = text::text("Connect or select a saved device first.");
                self.selected = 2;
                return Action::Stay;
            },
        };
        if online {
            return match &self.chosen {
                Some(device) => Action::Control(device.copy()),
                None => Action::Stay,
            };
        }
        match entry {
            Some(entry) => Action::Reconnect(entry),
            None => {
                self.fail("Reconnect the USB cable and approve debugging, then refresh devices.");
                Action::Stay
            },
        }
    }

    /// Lists the devices, and gives their labels, one of which can be picked.
    pub fn list(&mut self, found: &Vec<DeviceInfo>, saved: &SavedDevices) -> (r: Vec<String>)
        ensures
            ({
                let list = roster::choices_of(adb::infos(found@), saved.list());
                &&& menu::texts(r@) == device_labels(list)
                &&& final(self)@ == HomeView {
                    devices: list,
                    notice: if list.len() == 0 {
                        "No devices found. Connect or pair a device."@
                    } else {
                        old(self)@.notice
                    },
                    ..old(self)@
                }
            }),
    {
        self.devices = choices(found, saved);
        let mut labels: Vec<String> = Vec::new();
        let mut i: usize = 0;
        let ghost list = adb::infos(self.devices@);
        while i < self.devices.len()
            invariant
                i <= self.devices@.len(),
                list == adb::infos(self.devices@),
                menu::texts(labels@) =~= device_labels(list).take(i as int),
            decreases self.devices@.len() - i,
        {
            let mut label: String = caption(&self.devices[i]);
            label.append(" / ");
            label.append(self.devices[i].serial.as_str());
            label.append(" / ");
            label.append(self.devices[i].state.as_str());
            let ghost before = labels@;
            labels.push(label);
            assert(menu::texts(labels@) =~= menu::texts(before).push(label@));
            assert(label@ == device_label(list[i as int]));
            assert(device_labels(list).take(i + 1) =~= device_labels(list).take(i as int).push(
                label@,
            ));
            i = i + 1;
        }
        assert(menu::texts(labels@) =~= device_labels(list));
        if labels.len() == 0 {
            self.notice = text::text("No devices found. Connect or pair a device.");
        }
        labels
    }

    /// Takes in which device of the list was picked.
    pub fn picked(&mut self, index: usize, saved: &SavedDevices) -> (r: Action)
        requires
            old(self).wf(),
            index < old(self).devices@.len(),
        ensures
            final(self).wf(),
            (final(self)@, r@) == old(self)@.picked(index as int, saved.list()),
    {
        let device: DeviceInfo = self.devices[index].copy();
        assert(device@ == self@.devices[index as int]);
        if is_on(&device) {
            return Action::Use(device);
        }
        let entry: Option<SavedDevice> = reconnect_entry(&device, saved);
        self.chosen = Some(device);
        match entry {
            Some(entry) => Action::Reconnect(entry),
            None => {
                self.selected = 0;
                Action::Stay
            },
        }
    }

    fn settle(&mut self, device: DeviceInfo, message: &str, saved: &SavedDevices)
        ensures
            final(self).wf(),
            final(self)@ == old(self)@.settled(
                device@,
                message@,
                devices::text_option(saved.warning),
            ),
    {
        self.chosen = Some(device);
        self.notice = saved_notice(saved, message);
        self.selected = 0;
    }

    /// A device of the list, which was saved, is the chosen one.
    pub fn uses(&mut self, device: DeviceInfo, saved: &SavedDevices)
        ensures
            final(self).wf(),
            final(self)@ == old(self)@.settled(
                device@,
                "Device selected."@,
                devices::text_option(saved.warning),
            ),
    {
        self.settle(device, "Device selected.", saved);
    }

    /// A device was connected, or connecting was given up.
    pub fn joined(&mut self, device: Option<DeviceInfo>, saved: &SavedDevices)
        ensures
            final(self).wf(),
            final(self)@ == match device {
                Some(device) => old(self)@.settled(
                    device@,
                    "Connected. Select Start control when ready."@,
                    devices::text_option(saved.warning),
                ),
                None => HomeView { selected: 0, ..old(self)@ },
            },
    {
        match device {
            Some(device) => {
                self.settle(device, "Connected. Select Start control when ready.", saved);
            },
            None => {
                self.selected = 0;
            },
        }
    }

    /// A device was paired. It still needs a port to connect to.
    pub fn paired(&mut self, entry: &SavedDevice, saved: &SavedDevices)
        requires
            old(self).wf(),
        ensures
            final(self).wf(),
            final(self)@ == (HomeView {
                chosen: Some(roster::info_of(entry@)),
                notice: roster::notice_of(
                    devices::text_option(saved.warning),
                    "Paired. Enter the connection port when ready."@,
                ),
                ..old(self)@
            }),
    {
        self.chosen = Some(saved_info(entry));
        self.notice = saved_notice(saved, "Paired. Enter the connection port when ready.");
    }

    /// The session ended.
    pub fn stopped(&mut self, saved: &SavedDevices)
        ensures
            final(self)@ == (HomeView {
                notice: roster::notice_of(
                    devices::text_option(saved.warning),
                    "Input stopped. Desktop controls restored."@,
                ),
                ..old(self)@
            }),
    {
        self.notice = saved_notice(saved, "Input stopped. Desktop controls restored.");
    }

    /// The session failed. A device that is no longer listed is offline.
    pub fn session_failed(&mut self, listed: &Vec<DeviceInfo>, error: &str)
        ensures
            final(self)@ == old(self)@.broken(adb::infos(listed@), error@),
    {
        let ghost list = adb::infos(listed@);
        let mut lost: Option<DeviceInfo> = None;
        if let Some(device) = &self.chosen {
            let mut found: bool = false;
            let mut i: usize = 0;
            while i < listed.len()
                invariant
                    i <= listed@.len(),
                    list == adb::infos(listed@),
                    found == still_on(list.take(i as int), device@.serial),
                decreases listed@.len() - i,
            {
                let ghost before = list.take(i as int);
                let ghost after = list.take(i + 1);
                let here: bool = text::same(listed[i].serial.as_str(), device.serial.as_str())
                    && is_on(&listed[i]);
                proof {
                    assert(after[i as int] == list[i as int]);
                    assert(listed@[i as int]@ == list[i as int]);
                    if still_on(before, device@.serial) {
                        let k = choose|k: int|
                            0 <= k < before.len() && (#[trigger] before[k]).serial == device@.serial
                                && roster::on(before[k]);
                        assert(after[k] == before[k]);
                    }
                    if still_on(after, device@.serial) {
                        let k = choose|k: int|
                            0 <= k < after.len() && (#[trigger] after[k]).serial == device@.serial
                                && roster::on(after[k]);
                        if k < i {
                            assert(after[k] == before[k]);
                        }
                    }
                }
                found = found || here;
                i = i + 1;
            }
            assert(list.take(i as int) =~= list);
            if !found {
                let mut off: DeviceInfo = device.copy();
                off.state = text::text("offline");
                lost = Some(off);
            }
        }
        if lost.is_some() {
            self.chosen = lost;
        }
        self.fail(error);
    }

    /// Lists the devices again, and keeps the chosen one where it is still there.
    pub fn relisted(&mut self, found: &Vec<DeviceInfo>, saved: &SavedDevices)
        ensures
            final(self)@.devices == roster::choices_of(adb::infos(found@), saved.list()),
            roster::is_retained(old(self)@.chosen, final(self)@.devices, final(self)@.chosen),
            final(self).selected == old(self).selected,
            final(self).notice == old(self).notice,
            final(self).notice_error == old(self).notice_error,
    {
        self.devices = choices(found, saved);
        self.chosen = retain_choice(&self.chosen, &self.devices);
    }

    /// Lists the devices again, and says how many there are.
    pub fn refreshed(&mut self, found: &Vec<DeviceInfo>, saved: &SavedDevices)
        ensures
            final(self)@.devices == roster::choices_of(adb::infos(found@), saved.list()),
            roster::is_retained(old(self)@.chosen, final(self)@.devices, final(self)@.chosen),
            final(self).selected == old(self).selected,
            final(self)@.notice == roster::notice_of(
                devices::text_option(saved.warning),
                text::decimal(final(self)@.devices.len())
                    + " device(s) found, including saved devices."@,
            ),
            final(self).notice_error == old(self).notice_error,
    {
        self.relisted(found, saved);
        let mut message: String = decimal_text(self.devices.len() as u64);
        message.append(" device(s) found, including saved devices.");
        self.notice = saved_notice(saved, message.as_str());
    }

    /// What came of managing the saved devices.
    pub fn managed(&mut self, notice: &str)
        ensures
            final(self)@ == (HomeView { notice: notice@, ..old(self)@ }),
    {
        self.notice = text::text(notice);
    }
}

/// Takes in one key on the home screen.
pub fn run(home: &mut Home, key: &Option<Key>, saved: &SavedDevices) -> (r: Action)
    requires
        old(home).wf(),
    ensures
        final(home).wf(),
        (final(home)@, r@) == old(home)@.run(menu::key_option(*key), saved.list()),
{
    match pick(home.selected, ITEMS, key) {
        Choice::Stay(selected) => {
            home.selected = selected;
            Action::Stay
        },
        Choice::Back => Action::Quit,
        Choice::Picked(item) => {
            home.notice_error = false;
            if item == 0 {
                home.engage(saved)
            } else if item == 1 {
                Action::Choose
            } else if item == 2 || item == 3 {
                Action::Connect { pairing: item == 3 }
            } else if item == 4 {
                Action::Refresh
            } else if item == 5 {
                Action::Manage
            } else {
                Action::Quit
            }
        },
    }
}

/// Saves the host of a device that was paired at an address, and gives its entry.
/// The port and the code are for pairing alone and are not saved.
pub fn remember_paired(address: &str, saved: &mut SavedDevices) -> (r: Option<SavedDevice>)
    ensures
        final(saved).warning == old(saved).warning,
        match devices::endpoint_of(address@) {
            Some((host, port)) => {
                let list = devices::remembered(old(saved).list(), host, None, None);
                &&& final(saved).list() == list
                &&& r matches Some(entry) && entry@ == list[0] && entry@.host == host
            },
            None => r is None && final(saved).list() == old(saved).list(),
        },
{
    match Endpoint::parse(address) {
        Some(endpoint) => {
            proof {
                if devices::has_host(saved.list(), endpoint.host@) {
                    devices::lemma_first(saved.list(), endpoint.host@);
                }
            }
            let ghost was = saved.list();
            saved.remember(endpoint.host, None, None);
            assert(saved.list() == devices::remembered(was, endpoint.host@, None, None));
            assert(saved.list().len() == saved.entries@.len());
            assert(saved.entries@[0]@ == saved.list()[0]);
            Some(saved.entries[0].copy())
        },
        None => None,
    }
}

/// Control is handed to the chosen device alone, and only where it can be used. A
/// device that cannot is reconnected, where there is an address for it.
pub proof fn law_only_usable_devices_are_controlled(
    home: HomeView,
    key: Option<KeyView>,
    saved: Seq<DeviceView>,
)
    ensures
        home.run(key, saved).0.chosen == home.chosen,
        home.run(key, saved).0.devices == home.devices,
        home.run(key, saved).1 matches ActionView::Control(device) ==> {
            &&& home.chosen == Some(device)
            &&& roster::on(device)
        },
        home.run(key, saved).1 matches ActionView::Reconnect(entry) ==> {
            &&& home.chosen matches Some(device) && !roster::on(device)
                && roster::reconnectable(device, saved) == Some(entry)
        },
{
}

/// Pairing saves the host of a device and neither the port nor the code: a device
/// that was not known has no port, and one that was keeps the port to connect to.
pub proof fn law_pairing_saves_no_port(saved: Seq<DeviceView>, host: Seq<char>)
    ensures
        ({
            let list = devices::remembered(saved, host, None, None);
            &&& list[0].host == host
            &&& !devices::has_host(saved, host) ==> list[0] == (DeviceView {
                host,
                port: None,
                label: None,
                model: None,
            })
            &&& devices::has_host(saved, host) ==> list[0] == saved[devices::first(saved, host)]
        }),
{
    if devices::has_host(saved, host) {
        devices::lemma_first(saved, host);
    }
}

/// A session that failed with a device that is not listed any more leaves it to be
/// reconnected.
pub proof fn law_lost_devices_are_reconnected(
    home: HomeView,
    listed: Seq<InfoView>,
    error: Seq<char>,
)
    requires
        home.chosen matches Some(device) && !still_on(listed, device.serial),
    ensures
        reconnects(home.broken(listed, error).chosen),
        home.broken(listed, error).notice == error,
        home.broken(listed, error).notice_error,
{
    reveal_strlit("offline");
    reveal_strlit("device");
    assert("offline"@.len() == 7 && "device"@.len() == 6);
}

/// Each item of the main menu does what it says.
pub proof fn law_items_do_what_they_say(home: HomeView, saved: Seq<DeviceView>)
    requires
        home.selected < 7,
    ensures
        ({
            let says = items(home.chosen)[home.selected as int];
            let (after, does) = home.run(Some(KeyView::Enter), saved);
            &&& items(home.chosen).len() == 7
            &&& home.selected == 0 && !(home.chosen is Some) ==> says == "Start control"@ && does
                == ActionView::Stay && after.selected == 2
            &&& home.selected == 0 && home.chosen is Some && home.chosen->0.state == "device"@
                ==> says == "Start control"@ && does == ActionView::Control(home.chosen->0)
            &&& home.selected == 0 && home.chosen is Some && home.chosen->0.state != "device"@ ==> {
                &&& says == "Reconnect"@
                &&& does == ActionView::Stay && after.notice_error || (
                does matches ActionView::Reconnect(entry) && roster::reconnectable(
                    home.chosen->0,
                    saved,
                ) == Some(entry))
            }
            &&& home.selected == 1 ==> says == "Choose device"@ && does == ActionView::Choose
            &&& home.selected == 2 ==> says == "Connect another device"@ && does
                == (ActionView::Connect { pairing: false })
            &&& home.selected == 3 ==> says == "Pair wireless debugging"@ && does
                == (ActionView::Connect { pairing: true })
            &&& home.selected == 4 ==> says == "Refresh devices"@ && does == ActionView::Refresh
            &&& home.selected == 5 ==> says == "Manage saved devices"@ && does
                == ActionView::Manage
            &&& home.selected == 6 ==> says == "Exit"@ && does == ActionView::Quit
            &&& after.chosen == home.chosen
            &&& after.devices == home.devices
        }),
{
}

/// Escape leaves the program, and the other keys only move the selection.
pub proof fn law_other_keys_only_move(home: HomeView, key: KeyView, saved: Seq<DeviceView>)
    requires
        home.selected < 7,
        !(key is Enter),
    ensures
        ({
            let (after, does) = home.run(Some(key), saved);
            &&& key is Escape || key is Interrupt ==> does == ActionView::Quit && after == home
            &&& !(key is Escape) && !(key is Interrupt) ==> does == ActionView::Stay && after
                == (HomeView { selected: after.selected, ..home })
            &&& key is Down && home.selected < 6 ==> after.selected == home.selected + 1
            &&& key is Up && home.selected > 0 ==> after.selected == home.selected - 1
        }),
{
}

/// A device of the list that can be used is used when it is picked; any other is chosen,
/// and reconnected where it has a host.
pub proof fn law_picked_devices_are_used(home: HomeView, index: int, saved: Seq<DeviceView>)
    requires
        0 <= index < home.devices.len(),
    ensures
        ({
            let device = home.devices[index];
            let (after, does) = home.picked(index, saved);
            &&& device.state == "device"@ ==> does == ActionView::Use(device)
            &&& device.state != "device"@ ==> after.chosen == Some(device) && match (
                roster::reconnectable(device, saved)
            ) {
                Some(entry) => does == ActionView::Reconnect(entry),
                None => does == ActionView::Stay && after.selected == 0,
            }
            &&& after.devices == home.devices
        }),
{
}

/// A device is shown in the list with its name, its serial number and its state.
pub proof fn law_devices_are_listed_with_their_state(list: Seq<InfoView>, i: int)
    requires
        0 <= i < list.len(),
    ensures
        device_labels(list).len() == list.len(),
        device_labels(list)[i] == (match list[i].model {
            Some(model) => model,
            None => list[i].serial,
        }) + " / "@ + list[i].serial + " / "@ + list[i].state,
{
}

/// After a session that broke off the device is offline, unless it is still listed as
/// online, and the error is shown.
pub proof fn law_broken_sessions_are_told(home: HomeView, listed: Seq<InfoView>, error: Seq<char>)
    ensures
        ({
            let after = home.broken(listed, error);
            &&& after.notice == error
            &&& after.notice_error
            &&& home.chosen matches Some(device) ==> (after.chosen matches Some(now) && now.serial
                == device.serial && now.model == device.model && ((exists|i: int|
                0 <= i < listed.len() && (#[trigger] listed[i]).serial == device.serial
                    && listed[i].state == "device"@) ==> now.state == device.state) && ((forall|
                i: int,
            |
                0 <= i < listed.len() ==> (#[trigger] listed[i]).serial != device.serial
                    || listed[i].state != "device"@) ==> now.state == "offline"@))
            &&& home.chosen is None ==> after.chosen is None
        }),
{
    if let Some(device) = home.chosen {
        if exists|i: int|
            0 <= i < listed.len() && (#[trigger] listed[i]).serial == device.serial
                && listed[i].state == "device"@ {
            let i = choose|i: int|
                0 <= i < listed.len() && (#[trigger] listed[i]).serial == device.serial
                    && listed[i].state == "device"@;
            assert(roster::on(listed[i]));
            assert(still_on(listed, device.serial));
        }
    }
}

} // verus!
