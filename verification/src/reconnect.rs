//! Connecting to a saved device again: the form for its host and port, and what is
//! saved of it afterwards.
use crate::adb::{DeviceInfo, InfoView};
use crate::devices::{
    self, copy_option, host, port, DeviceView, HostError, SavedDevice, SavedDevices,
};
use crate::editor::{Editor, EditorView};
use crate::forms::Field;
use crate::frame::{self, push_line, Line, LineView, Screen, ScreenView, Style};
use crate::menu;
use crate::roster::{self, remember_device};
use crate::terminal::{Key, KeyView};
use crate::text::{self, decimal_text};
use vstd::prelude::*;
use vstd::string::*;

verus! {

/// What the form does after a key.
#[derive(Debug, PartialEq, Eq)]
pub enum ReconnectStep {
    Stay,
    Cancel,
    Connect { host: String, port: u16 },
}

#[verifier::ext_equal]
pub enum ReconnectStepView {
    Stay,
    Cancel,
    Connect { host: Seq<char>, port: u16 },
}

impl View for ReconnectStep {
    type V = ReconnectStepView;

    open spec fn view(&self) -> ReconnectStepView {
        match self {
            ReconnectStep::Stay => ReconnectStepView::Stay,
            ReconnectStep::Cancel => ReconnectStepView::Cancel,
            ReconnectStep::Connect { host, port } => ReconnectStepView::Connect {
                host: host@,
                port: *port,
            },
        }
    }
}

/// The saved device, the host and the port as they are edited, which of them is in
/// focus, and what is wrong.
#[verifier::ext_equal]
pub struct ReconnectView {
    pub entry: DeviceView,
    pub address: EditorView,
    pub number: EditorView,
    pub host_focus: bool,
    pub error: Seq<char>,
}

pub open spec fn selected_text(value: Seq<char>) -> EditorView {
    EditorView { text: value, cursor: value.len() as int, selected: value.len() > 0 }
}

pub open spec fn bad_port() -> Seq<char> {
    "Enter a connection port from 1 to 65535."@
}

pub open spec fn taken() -> Seq<char> {
    "That host already has a saved entry. Select it from the device list."@
}

impl ReconnectView {
    /// The form of a saved device, with its last port ready to be replaced.
    pub open spec fn fresh(entry: DeviceView) -> ReconnectView {
        ReconnectView {
            entry,
            address: selected_text(entry.host),
            number: selected_text(
                match entry.port {
                    Some(port) => text::decimal(port as nat),
                    None => seq![],
                },
            ),
            host_focus: false,
            error: seq![],
        }
    }

    /// Enter checks the host, moves on to the port, and connects.
    pub open spec fn enter(self, saved: Seq<DeviceView>) -> (ReconnectView, ReconnectStepView) {
        match devices::host_of(self.address.text) {
            None => (
                ReconnectView { error: Field::Host.complaint(), host_focus: true, ..self },
                ReconnectStepView::Stay,
            ),
            Some(host) => if self.host_focus {
                (ReconnectView { host_focus: false, ..self }, ReconnectStepView::Stay)
            } else {
                match devices::port_of(self.number.text) {
                    None => (ReconnectView { error: bad_port(), ..self }, ReconnectStepView::Stay),
                    Some(port) => if host != self.entry.host && devices::has_host(saved, host) {
                        (ReconnectView { error: taken(), ..self }, ReconnectStepView::Stay)
                    } else {
                        (self, ReconnectStepView::Connect { host, port: port as u16 })
                    },
                }
            },
        }
    }

    pub open spec fn key(self, key: Option<KeyView>, saved: Seq<DeviceView>) -> (
        ReconnectView,
        ReconnectStepView,
    ) {
        match key {
            Some(KeyView::Escape) => (self, ReconnectStepView::Cancel),
            Some(KeyView::Interrupt) => (self, ReconnectStepView::Cancel),
            Some(KeyView::Tab) => (
                ReconnectView { host_focus: !self.host_focus, ..self },
                ReconnectStepView::Stay,
            ),
            Some(KeyView::Up) => (
                ReconnectView { host_focus: true, ..self },
                ReconnectStepView::Stay,
            ),
            Some(KeyView::Down) => (
                ReconnectView { host_focus: false, ..self },
                ReconnectStepView::Stay,
            ),
            Some(KeyView::Enter) => self.enter(saved),
            Some(key) => (
                if self.host_focus {
                    ReconnectView { address: self.address.key(key), ..self }
                } else {
                    ReconnectView { number: self.number.key(key), ..self }
                },
                ReconnectStepView::Stay,
            ),
            None => (self, ReconnectStepView::Stay),
        }
    }

    /// After a failure the port is ready to be replaced.
    pub open spec fn failed(self, error: Seq<char>) -> ReconnectView {
        ReconnectView { error, number: selected_text(self.number.text), ..self }
    }

    pub open spec fn host_line(self, room: int) -> LineView {
        if self.host_focus {
            menu::plain_line("> IP/host: "@ + self.address.display(false, room), Style::Accent)
        } else {
            menu::plain_line("  IP/host: "@ + self.address.text, Style::Muted)
        }
    }

    pub open spec fn port_line(self, room: int) -> LineView {
        if self.host_focus {
            menu::plain_line("  Port: "@ + self.number.text, Style::Muted)
        } else {
            menu::plain_line("> Port: "@ + self.number.display(false, room), Style::Accent)
        }
    }

    /// The form on a terminal of this size.
    pub open spec fn screen(self, width: int, height: int) -> ScreenView {
        let room = frame::minus(width, 12);
        let title = menu::plain_line("Connect "@ + self.entry.name(), Style::Strong);
        let head = if height < 12 {
            seq![title, self.host_line(room), self.port_line(room)]
        } else {
            seq![
                title,
                menu::plain_line(""@, Style::Normal),
                self.host_line(room),
                self.port_line(room),
            ]
        };
        let help = if height >= 15 {
            seq![
                menu::plain_line(
                    "Type to replace [selected text]; Enter reuses the last port."@,
                    Style::Muted,
                ),
                menu::plain_line("Use the connection port, not the pairing port."@, Style::Muted),
            ]
        } else {
            seq![]
        };
        let wrong = if self.error.len() > 0 {
            seq![menu::plain_line(self.error, Style::Error)]
        } else {
            seq![]
        };
        ScreenView {
            lines: head + help + wrong,
            footer: if width < 50 {
                "Tab Field  Enter OK  Esc Back"@
            } else {
                "Tab IP/Port   Enter Connect   Esc Back"@
            },
        }
    }
}

/// The saved devices after a device was connected under `host`: the entry moves to
/// that host, and the device comes first.
pub open spec fn after_connecting(
    saved: Seq<DeviceView>,
    entry_host: Seq<char>,
    host: Seq<char>,
    device: InfoView,
) -> Result<Seq<DeviceView>, HostError> {
    if host != entry_host && devices::has_host(saved, entry_host) {
        match devices::moved(saved, entry_host, host) {
            Ok(list) => Ok(roster::remembered_with(device, list)),
            Err(error) => Err(error),
        }
    } else {
        Ok(roster::remembered_with(device, saved))
    }
}

/// A device under the label that its host was given.
pub open spec fn under_label(saved: Seq<DeviceView>, host: Seq<char>, device: InfoView) -> InfoView {
    if devices::has_host(saved, host) && saved[devices::first(saved, host)].label is Some {
        InfoView { model: saved[devices::first(saved, host)].label, ..device }
    } else {
        device
    }
}

#[derive(Debug)]
pub struct ReconnectForm {
    pub entry: SavedDevice,
    pub address: Editor,
    pub number: Editor,
    pub host_focus: bool,
    pub error: String,
}

impl View for ReconnectForm {
    type V = ReconnectView;

    open spec fn view(&self) -> ReconnectView {
        ReconnectView {
            entry: self.entry@,
            address: self.address@,
            number: self.number@,
            host_focus: self.host_focus,
            error: self.error@,
        }
    }
}

impl ReconnectForm {
    pub open spec fn wf(self) -> bool {
        self.address.wf() && self.number.wf()
    }

    pub fn new(entry: SavedDevice) -> (r: ReconnectForm)
        ensures
            r.wf(),
            r@ == ReconnectView::fresh(entry@),
    {
        let address: Editor = Editor::selected(entry.host.as_str());
        let last: String = match entry.port {
            Some(port) => decimal_text(port as u64),
            None => String::new(),
        };
        let number: Editor = Editor::selected(last.as_str());
        let r = ReconnectForm { entry, address, number, host_focus: false, error: String::new() };
        assert(r@ =~= ReconnectView::fresh(entry@));
        r
    }

    fn enter(&mut self, saved: &SavedDevices) -> (r: ReconnectStep)
        requires
            old(self).wf(),
        ensures
            final(self).wf(),
            (final(self)@, r@) == old(self)@.enter(saved.list()),
    {
        let entered: String = self.address.value();
        let host: String = match host(entered.as_str()) {
            Some(host) => host,
            None => {
                self.error = text::text(Field::Host.error());
                self.host_focus = true;
                return ReconnectStep::Stay;
            },
        };
        if self.host_focus {
            self.host_focus = false;
            return ReconnectStep::Stay;
        }
        let digits: String = self.number.value();
        let port: u16 = match port(digits.as_str()) {
            Some(port) => port,
            None => {
                self.error = text::text("Enter a connection port from 1 to 65535.");
                return ReconnectStep::Stay;
            },
        };
        if !text::same(host.as_str(), self.entry.host.as_str()) && saved.find(
            host.as_str(),
        ).is_some() {
            self.error = text::text(
                "That host already has a saved entry. Select it from the device list.",
            );
            return ReconnectStep::Stay;
        }
        ReconnectStep::Connect { host, port }
    }

    /// Takes in one key.
    pub fn key(&mut self, key: Option<Key>, saved: &SavedDevices) -> (r: ReconnectStep)
        requires
            old(self).wf(),
        ensures
            final(self).wf(),
            (final(self)@, r@) == old(self)@.key(menu::key_option(key), saved.list()),
    {
        match key {
            Some(Key::Escape) => ReconnectStep::Cancel,
            Some(Key::Interrupt) => ReconnectStep::Cancel,
            Some(Key::Tab) => {
                self.host_focus = !self.host_focus;
                ReconnectStep::Stay
            },
            Some(Key::Up) => {
                self.host_focus = true;
                ReconnectStep::Stay
            },
            Some(Key::Down) => {
                self.host_focus = false;
                ReconnectStep::Stay
            },
            Some(Key::Enter) => self.enter(saved),
            Some(key) => {
                if self.host_focus {
                    self.address.key(key);
                } else {
                    self.number.key(key);
                }
                ReconnectStep::Stay
            },
            None => ReconnectStep::Stay,
        }
    }

    /// Takes in why connecting failed.
    pub fn failed(&mut self, error: &str)
        requires
            old(self).wf(),
        ensures
            final(self).wf(),
            final(self)@ == old(self)@.failed(error@),
    {
        self.error = text::text(error);
        let digits: String = self.number.value();
        self.number = Editor::selected(digits.as_str());
    }

    /// Saves the device that was connected under `host`, and gives it back under
    /// its label. Nothing is saved where its entry cannot move to that host.
    pub fn connected(&self, host: &str, device: DeviceInfo, saved: &mut SavedDevices) -> (r: Result<
        DeviceInfo,
        HostError,
    >)
        ensures
            final(saved).warning == old(saved).warning,
            match after_connecting(old(saved).list(), self@.entry.host, host@, device@) {
                Ok(list) => {
                    &&& final(saved).list() == list
                    &&& r matches Ok(found) && found@ == under_label(list, host@, device@)
                },
                Err(error) => {
                    &&& final(saved).list() == old(saved).list()
                    &&& r == Err::<DeviceInfo, HostError>(error)
                },
            },
    {
        if !text::same(host, self.entry.host.as_str()) && saved.find(
            self.entry.host.as_str(),
        ).is_some() {
            match saved.change_host(self.entry.host.as_str(), text::text(host)) {
                Ok(_) => {},
                Err(error) => return Err(error),
            }
        }
        remember_device(saved, &device);
        let mut found: DeviceInfo = device;
        if let Some(entry) = saved.find(host) {
            if entry.label.is_some() {
                found.model = copy_option(&entry.label);
            }
        }
        Ok(found)
    }

    /// The form on a terminal of this size.
    pub fn screen(&self, width: usize, height: usize) -> (r: Screen)
        requires
            self.wf(),
        ensures
            r@ == self@.screen(width as int, height as int),
    {
        let room: usize = if width > 12 {
            width - 12
        } else {
            0
        };
        let mut lines: Vec<Line> = Vec::new();
        let mut title: String = text::text("Connect ");
        title.append(self.entry.name());
        push_line(&mut lines, title.as_str(), Style::Strong);
        if height >= 12 {
            push_line(&mut lines, "", Style::Normal);
        }
        let mut top: String = text::text(
            if self.host_focus {
                "> IP/host: "
            } else {
                "  IP/host: "
            },
        );
        let mut bottom: String = text::text(
            if self.host_focus {
                "  Port: "
            } else {
                "> Port: "
            },
        );
        if self.host_focus {
            top.append(self.address.display(false, room).as_str());
            bottom.append(self.number.value().as_str());
            push_line(&mut lines, top.as_str(), Style::Accent);
            push_line(&mut lines, bottom.as_str(), Style::Muted);
        } else {
            top.append(self.address.value().as_str());
            bottom.append(self.number.display(false, room).as_str());
            push_line(&mut lines, top.as_str(), Style::Muted);
            push_line(&mut lines, bottom.as_str(), Style::Accent);
        }
        if height >= 15 {
            push_line(
                &mut lines,
                "Type to replace [selected text]; Enter reuses the last port.",
                Style::Muted,
            );
            push_line(
                &mut lines,
                "Use the connection port, not the pairing port.",
                Style::Muted,
            );
        }
        if !self.error.as_str().is_empty() {
            push_line(&mut lines, self.error.as_str(), Style::Error);
        }
        let r = Screen {
            lines,
            footer: text::text(
                if width < 50 {
                    "Tab Field  Enter OK  Esc Back"
                } else {
                    "Tab IP/Port   Enter Connect   Esc Back"
                },
            ),
        };
        assert(r@ =~= self@.screen(width as int, height as int));
        r
    }
}

/// Enter on the form of a saved device, as it comes up, reuses its last port.
pub proof fn law_enter_reuses_the_last_port(entry: DeviceView, saved: Seq<DeviceView>)
    requires
        devices::host_of(entry.host) == Some(entry.host),
        entry.port matches Some(port) && port > 0,
    ensures
        ReconnectView::fresh(entry).key(Some(KeyView::Enter), saved).1 == (
        ReconnectStepView::Connect { host: entry.host, port: entry.port->0 }),
{
    let port = entry.port->0 as nat;
    text::lemma_decimal_shape(port);
    text::law_decimal_reads_back(port, 65535);
    let number = text::decimal(port);
    assert forall|i: int| 0 <= i < number.len() implies !text::is_space(#[trigger] number[i]) by {
        assert(text::is_digit(number[i]));
    }
    text::lemma_nothing_to_trim(number);
}

/// The form connects to canonical hosts only, never to one that another entry has.
pub proof fn law_reconnecting_takes_no_other_entry(
    form: ReconnectView,
    key: Option<KeyView>,
    saved: Seq<DeviceView>,
)
    ensures
        form.key(key, saved).1 matches ReconnectStepView::Connect { host, port } ==> {
            &&& devices::host_of(host) == Some(host)
            &&& port > 0
            &&& host == form.entry.host || !devices::has_host(saved, host)
        },
{
    if devices::host_of(form.address.text) is Some {
        devices::law_canonical_hosts_are_stable(form.address.text);
    }
}

/// Connecting a saved device under another host succeeds in saving it, and leaves
/// no host saved twice.
pub proof fn law_connecting_keeps_hosts_distinct(
    saved: Seq<DeviceView>,
    entry_host: Seq<char>,
    host: Seq<char>,
    device: InfoView,
)
    requires
        devices::distinct(saved),
        host == entry_host || !devices::has_host(saved, host),
    ensures
        after_connecting(saved, entry_host, host, device) matches Ok(list)
            && devices::distinct(list),
{
    devices::law_saved_hosts_stay_distinct(saved, entry_host, host, None, None);
    let list = if host != entry_host && devices::has_host(saved, entry_host) {
        devices::moved(saved, entry_host, host)->Ok_0
    } else {
        saved
    };
    if let Some((found, port)) = devices::endpoint_of(device.serial) {
        devices::law_saved_hosts_stay_distinct(
            list,
            found,
            host,
            Some(port as u16),
            device.model,
        );
    }
}

/// Enter in the port field connects to the host and the port that stand in the form, unless
/// another saved device has that host.
pub proof fn law_connects_to_what_stands_in_the_form(form: ReconnectView, saved: Seq<DeviceView>)
    requires
        !form.host_focus,
    ensures
        ({
            let (after, step) = form.key(Some(KeyView::Enter), saved);
            let host = devices::host_of(form.address.text);
            let port = devices::port_of(form.number.text);
            &&& step matches ReconnectStepView::Connect { host: to, port: on } ==> host == Some(to)
                && port == Some(on as nat)
            &&& (host matches Some(to) && port is Some && (to == form.entry.host || forall|i: int|
                0 <= i < saved.len() ==> #[trigger] saved[i].host != to)) <==> step is Connect
            &&& host is None ==> after.host_focus && after.error.len() > 0
            &&& host is Some && port is None ==> after.error
                == "Enter a connection port from 1 to 65535."@
            &&& after.address == form.address && after.number == form.number
        }),
{
    reveal_strlit("Enter an IP address or hostname without a port.");
    if let Some(to) = devices::host_of(form.address.text) {
        if devices::has_host(saved, to) {
            let i = choose|i: int| 0 <= i < saved.len() && #[trigger] saved[i].host == to;
            assert(saved[i].host == to);
        }
    }
}

/// Nothing but Enter connects, and only Escape and an interrupt give up.
pub proof fn law_only_enter_connects(
    form: ReconnectView,
    key: Option<KeyView>,
    saved: Seq<DeviceView>,
)
    ensures
        form.key(key, saved).1 is Connect ==> key == Some(KeyView::Enter) && !form.host_focus,
        form.key(key, saved).1 is Cancel <==> key == Some(KeyView::Escape) || key == Some(
            KeyView::Interrupt,
        ),
        form.key(key, saved).0.entry == form.entry,
{
}

/// Up and Down go to the field above and below, Tab to the other one.
pub proof fn law_fields_are_reached_by_their_keys(form: ReconnectView, saved: Seq<DeviceView>)
    ensures
        form.key(Some(KeyView::Up), saved).0.host_focus,
        !form.key(Some(KeyView::Down), saved).0.host_focus,
        form.key(Some(KeyView::Tab), saved).0.host_focus != form.host_focus,
        form.key(Some(KeyView::Tab), saved).0.address == form.address,
        form.key(Some(KeyView::Tab), saved).0.number == form.number,
        form.key(Some(KeyView::Up), saved).0.address == form.address,
        form.key(Some(KeyView::Up), saved).0.number == form.number,
        form.key(Some(KeyView::Down), saved).0.address == form.address,
        form.key(Some(KeyView::Down), saved).0.number == form.number,
        form.host_focus && devices::host_of(form.address.text) is Some ==> !form.key(
            Some(KeyView::Enter),
            saved,
        ).0.host_focus,
{
}

/// What is typed goes into the field that has the focus, and leaves the other one alone.
pub proof fn law_typing_goes_to_the_focus(form: ReconnectView, c: char, saved: Seq<DeviceView>)
    ensures
        ({
            let (after, step) = form.key(Some(KeyView::Char(c)), saved);
            &&& step == ReconnectStepView::Stay
            &&& after.host_focus == form.host_focus
            &&& form.host_focus ==> after.number == form.number && after.address
                == form.address.key(KeyView::Char(c))
            &&& !form.host_focus ==> after.address == form.address && after.number
                == form.number.key(KeyView::Char(c))
        }),
{
}

/// A connection that failed leaves its message, keeps what was typed and marks the port to
/// be replaced.
pub proof fn law_failures_keep_what_was_typed(form: ReconnectView, error: Seq<char>)
    ensures
        ({
            let after = form.failed(error);
            &&& after.error == error
            &&& after.address == form.address
            &&& after.number.text == form.number.text
            &&& form.number.text.len() > 0 ==> after.number.selected
            &&& after.entry == form.entry
            &&& after.host_focus == form.host_focus
        }),
{
}

/// The device that answered under a new host takes the entry's place: no entry has the old
/// host any more, and the new one is saved.
pub proof fn law_connected_entries_take_their_new_host(
    saved: Seq<DeviceView>,
    old_host: Seq<char>,
    host: Seq<char>,
    device: InfoView,
    i: int,
)
    requires
        devices::distinct(saved),
        devices::is_found(saved, old_host, i),
        host != old_host,
        forall|j: int| 0 <= j < saved.len() ==> #[trigger] saved[j].host != host,
    ensures
        ({
            let kept = saved.update(i, DeviceView { host, ..saved[i] });
            after_connecting(saved, old_host, host, device) == Ok::<Seq<DeviceView>, HostError>(
                roster::remembered_with(device, kept),
            ) && !devices::has_host(kept, old_host)
        }),
{
    let kept = saved.update(i, DeviceView { host, ..saved[i] });
    assert(saved[i].host == old_host);
    assert(devices::has_host(saved, old_host));
    devices::law_changes_touch_one_field(saved, old_host, host, i);
    let list = devices::moved(saved, old_host, host)->Ok_0;
    assert(list =~= kept) by {
        assert forall|j: int| 0 <= j < list.len() implies list[j] == kept[j] by {
            if j != i {
                assert(list[j] == saved[j]);
            }
        }
    }
    if devices::has_host(kept, old_host) {
        let j = choose|j: int| 0 <= j < kept.len() && #[trigger] kept[j].host == old_host;
        if j < i {
            assert(saved[j].host != saved[i].host);
        } else if i < j {
            assert(saved[i].host != saved[j].host);
        }
    }
}

/// The form shows what stands in its fields, and marks the one with the focus.
pub proof fn law_form_shows_its_fields(form: ReconnectView, width: int, height: int)
    ensures
        ({
            let screen = form.screen(width, height);
            let at: int = if height < 12 {
                1
            } else {
                2
            };
            &&& screen.lines.len() > at + 1
            &&& screen.lines[0].text == "Connect "@ + form.entry.name()
            &&& form.host_focus ==> exists|room: int|
                screen.lines[at].text == "> IP/host: "@ + #[trigger] form.address.display(
                    false,
                    room,
                )
            &&& !form.host_focus ==> exists|room: int|
                screen.lines[at + 1].text == "> Port: "@ + #[trigger] form.number.display(
                    false,
                    room,
                )
            &&& form.host_focus ==> screen.lines[at + 1].text == "  Port: "@ + form.number.text
            &&& !form.host_focus ==> screen.lines[at].text == "  IP/host: "@ + form.address.text
            &&& screen.lines[at].style == (if form.host_focus {
                Style::Accent
            } else {
                Style::Muted
            })
            &&& screen.lines[at + 1].style == (if form.host_focus {
                Style::Muted
            } else {
                Style::Accent
            })
            &&& form.error.len() > 0 ==> screen.lines.last().text == form.error
                && screen.lines.last().style == Style::Error
        }),
{
}

/// The form opens with the host and the port of the entry, in the port field, each marked so
/// that typing replaces it.
pub proof fn law_form_opens_with_the_last_address(entry: DeviceView)
    ensures
        ({
            let form = ReconnectView::fresh(entry);
            &&& !form.host_focus
            &&& form.error.len() == 0
            &&& form.address.text == entry.host
            &&& form.address.cursor == entry.host.len()
            &&& form.address.selected <==> entry.host.len() > 0
            &&& entry.port is None ==> form.number.text.len() == 0 && form.number.cursor == 0
                && !form.number.selected
            &&& entry.port matches Some(port) ==> form.number.text == text::decimal(port as nat)
                && form.number.selected && form.number.cursor == form.number.text.len()
        }),
{
    if let Some(port) = entry.port {
        text::lemma_decimal_shape(port as nat);
    }
}

/// The keys are told at length where there are fifty columns for them.
pub proof fn law_footer_fits_the_width(form: ReconnectView, width: int, height: int)
    ensures
        width >= 50 ==> form.screen(width, height).footer
            == "Tab IP/Port   Enter Connect   Esc Back"@,
        width < 50 ==> form.screen(width, height).footer == "Tab Field  Enter OK  Esc Back"@,
{
}

} // verus!
