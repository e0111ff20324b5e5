//! Forms: one line of text that must be valid, and the steps of connecting and
//! pairing.
use crate::devices::{self, host, Endpoint};
use crate::editor::{self, Editor, EditorView};
use crate::frame::{self, push_line, Line, Screen, ScreenView, Style};
use crate::menu;
use crate::terminal::{Key, KeyView};
use crate::text::{self, chars_of, text_of, trimmed_chars};
use vstd::prelude::*;
use vstd::string::*;
use vstd::utf8;

verus! {

/// The longest name that can be given, in bytes.
pub const MAX_LABEL: usize = 80;

/// Whether a value is an address with a port.
pub fn address_valid(value: &str) -> (r: bool)
    ensures
        r == devices::endpoint_of(value@) is Some,
{
    Endpoint::parse(value).is_some()
}

/// What a form asks for.
#[derive(Clone, Copy, Debug, PartialEq, Eq, Structural)]
pub enum Field {
    Address,
    PairingCode,
    Name,
    Host,
}

impl Field {
    pub open spec fn accepts(self, value: Seq<char>) -> bool {
        match self {
            Field::Address => devices::endpoint_of(value) is Some,
            Field::PairingCode => value.len() == 6 && text::all_digits(value),
            Field::Name => value.len() > 0 && utf8::encode_utf8(value).len() <= MAX_LABEL,
            Field::Host => devices::host_of(value) is Some,
        }
    }

    pub open spec fn complaint(self) -> Seq<char> {
        match self {
            Field::Address => "Enter an address and port, for example 192.168.1.2:5555."@,
            Field::PairingCode => "Enter the 6-digit pairing code."@,
            Field::Name => "Enter a name of 1 to 80 characters."@,
            Field::Host => "Enter an IP address or hostname without a port."@,
        }
    }

    pub fn valid(self, value: &str) -> (r: bool)
        ensures
            r == self.accepts(value@),
    {
        match self {
            Field::Address => address_valid(value),
            Field::PairingCode => {
                let code: Vec<char> = chars_of(value);
                code.len() == 6 && digits(code.as_slice())
            },
            Field::Name => !value.is_empty() && value.as_bytes().len() <= MAX_LABEL,
            Field::Host => host(value).is_some(),
        }
    }

    pub fn error(self) -> (r: &'static str)
        ensures
            r@ == self.complaint(),
    {
        match self {
            Field::Address => "Enter an address and port, for example 192.168.1.2:5555.",
            Field::PairingCode => "Enter the 6-digit pairing code.",
            Field::Name => "Enter a name of 1 to 80 characters.",
            Field::Host => "Enter an IP address or hostname without a port.",
        }
    }
}

fn digits(s: &[char]) -> (r: bool)
    ensures
        r == text::all_digits(s@),
{
    let mut i: usize = 0;
    while i < s.len()
        invariant
            i <= s@.len(),
            forall|j: int| 0 <= j < i ==> text::is_digit(#[trigger] s@[j]),
        decreases s@.len() - i,
    {
        if s[i] < '0' || s[i] > '9' {
            assert(!text::is_digit(s@[i as int]));
            return false;
        }
        i = i + 1;
    }
    true
}

/// What a form says: its title, the label of its field, and some help.
#[verifier::ext_equal]
pub struct WordingView {
    pub title: Seq<char>,
    pub label: Seq<char>,
    pub help: Seq<char>,
}

#[derive(Debug)]
pub struct Wording {
    pub title: &'static str,
    pub label: &'static str,
    pub help: &'static str,
}

impl View for Wording {
    type V = WordingView;

    open spec fn view(&self) -> WordingView {
        WordingView { title: self.title@, label: self.label@, help: self.help@ }
    }
}

/// A form: what it asks for, what was entered, and what is wrong with it.
#[verifier::ext_equal]
pub struct FormView {
    pub field: Field,
    pub editor: EditorView,
    pub validation: Seq<char>,
}

/// What a key does to a form.
#[derive(Debug, PartialEq, Eq)]
pub enum FormStep {
    Stay,
    Back,
    Done(String),
}

#[verifier::ext_equal]
pub enum FormStepView {
    Stay,
    Back,
    Done(Seq<char>),
}

impl View for FormStep {
    type V = FormStepView;

    open spec fn view(&self) -> FormStepView {
        match self {
            FormStep::Stay => FormStepView::Stay,
            FormStep::Back => FormStepView::Back,
            FormStep::Done(value) => FormStepView::Done(value@),
        }
    }
}

impl FormView {
    /// Enter takes the value where it is valid; other keys edit it.
    pub open spec fn key(self, key: Option<KeyView>) -> (FormView, FormStepView) {
        let value = text::trimmed(self.editor.text);
        match key {
            Some(KeyView::Escape) => (self, FormStepView::Back),
            Some(KeyView::Interrupt) => (self, FormStepView::Back),
            Some(KeyView::Enter) => if self.field.accepts(value) {
                (self, FormStepView::Done(value))
            } else {
                (FormView { validation: self.field.complaint(), ..self }, FormStepView::Stay)
            },
            Some(key) => (FormView { editor: self.editor.key(key), ..self }, FormStepView::Stay),
            None => (self, FormStepView::Stay),
        }
    }

    /// A form on a terminal of this size.
    pub open spec fn screen(self, wording: WordingView, width: int, height: int) -> ScreenView {
        let entered = menu::plain_line(
            self.editor.display(self.field == Field::PairingCode, frame::minus(width, 6)),
            Style::Accent,
        );
        let title = menu::plain_line(wording.title, Style::Strong);
        let head = if height < 12 {
            seq![title, entered]
        } else {
            seq![
                title,
                menu::plain_line(""@, Style::Normal),
                menu::plain_line(wording.label, Style::Muted),
                entered,
            ]
        };
        let help = if height >= 15 {
            seq![menu::plain_line(wording.help, Style::Muted), menu::plain_line(""@, Style::Normal)]
        } else {
            seq![]
        };
        let wrong = if self.validation.len() > 0 {
            seq![menu::plain_line(self.validation, Style::Error)]
        } else {
            seq![]
        };
        ScreenView {
            lines: head + help + wrong,
            footer: if width < 50 {
                "Enter OK   Esc Back"@
            } else {
                "Enter Continue   Esc Back   Left/Right Edit"@
            },
        }
    }
}

#[derive(Debug)]
pub struct Form {
    pub field: Field,
    pub editor: Editor,
    pub validation: String,
}

impl View for Form {
    type V = FormView;

    open spec fn view(&self) -> FormView {
        FormView { field: self.field, editor: self.editor@, validation: self.validation@ }
    }
}

impl Form {
    pub open spec fn wf(self) -> bool {
        self.editor.wf()
    }

    /// A form with something entered already, all of it selected.
    pub fn new(field: Field, value: &str) -> (r: Form)
        ensures
            r.wf(),
            r@ == (FormView {
                field,
                editor: EditorView {
                    text: value@,
                    cursor: value@.len() as int,
                    selected: value@.len() > 0,
                },
                validation: seq![],
            }),
    {
        let r = Form { field, editor: Editor::selected(value), validation: String::new() };
        assert(r@.validation =~= seq![]);
        r
    }

    /// Takes in one key.
    pub fn key(&mut self, key: Option<Key>) -> (r: FormStep)
        requires
            old(self).wf(),
        ensures
            final(self).wf(),
            (final(self)@, r@) == old(self)@.key(menu::key_option(key)),
    {
        match key {
            Some(Key::Escape) => FormStep::Back,
            Some(Key::Interrupt) => FormStep::Back,
            Some(Key::Enter) => {
                let entered: String = self.editor.value();
                let value: String = text_of(trimmed_chars(entered.as_str()).as_slice());
                if self.field.valid(value.as_str()) {
                    FormStep::Done(value)
                } else {
                    self.validation = text::text(self.field.error());
                    FormStep::Stay
                }
            },
            Some(key) => {
                self.editor.key(key);
                FormStep::Stay
            },
            None => FormStep::Stay,
        }
    }

    /// The form on a terminal of this size.
    pub fn screen(&self, wording: &Wording, width: usize, height: usize) -> (r: Screen)
        requires
            self.wf(),
        ensures
            r@ == self@.screen(wording@, width as int, height as int),
    {
        let masked: bool = match self.field {
            Field::PairingCode => true,
            _ => false,
        };
        let room: usize = if width > 6 {
            width - 6
        } else {
            0
        };
        let entered: String = self.editor.display(masked, room);
        let mut lines: Vec<Line> = Vec::new();
        push_line(&mut lines, wording.title, Style::Strong);
        if height >= 12 {
            push_line(&mut lines, "", Style::Normal);
            push_line(&mut lines, wording.label, Style::Muted);
        }
        push_line(&mut lines, entered.as_str(), Style::Accent);
        if height >= 15 {
            push_line(&mut lines, wording.help, Style::Muted);
            push_line(&mut lines, "", Style::Normal);
        }
        if !self.validation.as_str().is_empty() {
            push_line(&mut lines, self.validation.as_str(), Style::Error);
        }
        let r = Screen {
            lines,
            footer: text::text(
                if width < 50 {
                    "Enter OK   Esc Back"
                } else {
                    "Enter Continue   Esc Back   Left/Right Edit"
                },
            ),
        };
        assert(r@ =~= self@.screen(wording@, width as int, height as int));
        r
    }
}

/// What the connection form does after a key.
#[derive(Debug, PartialEq, Eq)]
pub enum ConnectStep {
    Stay,
    Cancel,
    Connect(String),
    Pair { address: String, code: String },
}

#[verifier::ext_equal]
pub enum ConnectStepView {
    Stay,
    Cancel,
    Connect(Seq<char>),
    Pair { address: Seq<char>, code: Seq<char> },
}

impl View for ConnectStep {
    type V = ConnectStepView;

    open spec fn view(&self) -> ConnectStepView {
        match self {
            ConnectStep::Stay => ConnectStepView::Stay,
            ConnectStep::Cancel => ConnectStepView::Cancel,
            ConnectStep::Connect(address) => ConnectStepView::Connect(address@),
            ConnectStep::Pair { address, code } => ConnectStepView::Pair {
                address: address@,
                code: code@,
            },
        }
    }
}

/// The form that connects or pairs a device: its address, then the pairing code.
/// `target` is the address while the code is asked for, and `failure` what went
/// wrong last.
#[verifier::ext_equal]
pub struct ConnectView {
    pub pairing: bool,
    pub address: FormView,
    pub code: FormView,
    pub target: Option<Seq<char>>,
    pub failure: Seq<char>,
}

/// The canonical form of an address that is valid.
pub open spec fn canonical_address(value: Seq<char>) -> Seq<char> {
    match devices::endpoint_of(value) {
        Some((host, port)) => devices::address_of(host, port),
        None => value,
    }
}

impl ConnectView {
    pub open spec fn fresh(pairing: bool) -> ConnectView {
        let empty = EditorView { text: seq![], cursor: 0, selected: false };
        ConnectView {
            pairing,
            address: FormView { field: Field::Address, editor: empty, validation: seq![] },
            code: FormView { field: Field::PairingCode, editor: empty, validation: seq![] },
            target: None,
            failure: seq![],
        }
    }

    pub open spec fn key(self, key: Option<KeyView>) -> (ConnectView, ConnectStepView) {
        match self.target {
            None => {
                let (address, step) = self.address.key(key);
                match step {
                    FormStepView::Stay => (
                        ConnectView { address, ..self },
                        ConnectStepView::Stay,
                    ),
                    FormStepView::Back => (self, ConnectStepView::Cancel),
                    FormStepView::Done(value) => {
                        let target = canonical_address(value);
                        if self.pairing {
                            (
                                ConnectView {
                                    target: Some(target),
                                    code: FormView { validation: seq![], ..self.code },
                                    ..self
                                },
                                ConnectStepView::Stay,
                            )
                        } else {
                            (self, ConnectStepView::Connect(target))
                        }
                    },
                }
            },
            Some(target) => {
                let (code, step) = self.code.key(key);
                match step {
                    FormStepView::Stay => (ConnectView { code, ..self }, ConnectStepView::Stay),
                    // The address is asked for again, as it was entered.
                    FormStepView::Back => (
                        ConnectView {
                            target: None,
                            address: FormView { validation: self.failure, ..self.address },
                            ..self
                        },
                        ConnectStepView::Stay,
                    ),
                    FormStepView::Done(pin) => (
                        self,
                        ConnectStepView::Pair { address: target, code: pin },
                    ),
                }
            },
        }
    }

    /// The form after a failure: everything that was entered is kept.
    pub open spec fn failed(self, error: Seq<char>) -> ConnectView {
        ConnectView {
            target: None,
            failure: error,
            address: FormView { validation: error, ..self.address },
            ..self
        }
    }

    pub open spec fn wording(self) -> WordingView {
        if self.target is Some {
            WordingView {
                title: "Pair wireless debugging"@,
                label: "Pairing code"@,
                help: "Enter the code displayed on your phone."@,
            }
        } else if self.pairing {
            WordingView {
                title: "Pair wireless debugging"@,
                label: "Address"@,
                help: "Use the pairing address shown on your phone."@,
            }
        } else {
            WordingView {
                title: "Connect a device"@,
                label: "Address"@,
                help: "Use the connection port, not the pairing port."@,
            }
        }
    }

    pub open spec fn screen(self, width: int, height: int) -> ScreenView {
        if self.target is Some {
            self.code.screen(self.wording(), width, height)
        } else {
            self.address.screen(self.wording(), width, height)
        }
    }
}

#[derive(Debug)]
pub struct ConnectForm {
    pub pairing: bool,
    pub address: Form,
    pub code: Form,
    pub target: Option<String>,
    pub failure: String,
}

impl View for ConnectForm {
    type V = ConnectView;

    open spec fn view(&self) -> ConnectView {
        ConnectView {
            pairing: self.pairing,
            address: self.address@,
            code: self.code@,
            target: devices::text_option(self.target),
            failure: self.failure@,
        }
    }
}

impl ConnectForm {
    pub open spec fn wf(self) -> bool {
        self.address.wf() && self.code.wf() && self.address.field == Field::Address
    }

    pub fn new(pairing: bool) -> (r: ConnectForm)
        ensures
            r.wf(),
            r@ == ConnectView::fresh(pairing),
    {
        let r = ConnectForm {
            pairing,
            address: Form::new(Field::Address, ""),
            code: Form::new(Field::PairingCode, ""),
            target: None,
            failure: String::new(),
        };
        proof {
            reveal_strlit("");
            assert(""@ =~= seq![]);
            assert(r@ =~= ConnectView::fresh(pairing));
        }
        r
    }

    /// Takes in one key.
    pub fn key(&mut self, key: Option<Key>) -> (r: ConnectStep)
        requires
            old(self).wf(),
        ensures
            final(self).wf(),
            (final(self)@, r@) == old(self)@.key(menu::key_option(key)),
    {
        let ghost was = self@;
        match &self.target {
            None => match self.address.key(key) {
                FormStep::Stay => ConnectStep::Stay,
                FormStep::Back => ConnectStep::Cancel,
                FormStep::Done(value) => {
                    let target: String = match Endpoint::parse(value.as_str()) {
                        Some(endpoint) => endpoint.address(),
                        None => value,
                    };
                    if self.pairing {
                        self.target = Some(target);
                        self.code.validation = String::new();
                        assert(self.code@.validation =~= seq![]);
                        ConnectStep::Stay
                    } else {
                        ConnectStep::Connect(target)
                    }
                },
            },
            Some(target) => match self.code.key(key) {
                FormStep::Stay => ConnectStep::Stay,
                FormStep::Back => {
                    self.target = None;
                    self.address.validation = text::text(self.failure.as_str());
                    ConnectStep::Stay
                },
                FormStep::Done(code) => ConnectStep::Pair {
                    address: text::text(target.as_str()),
                    code,
                },
            },
        }
    }

    /// Takes in why connecting or pairing failed.
    pub fn failed(&mut self, error: &str)
        requires
            old(self).wf(),
        ensures
            final(self).wf(),
            final(self)@ == old(self)@.failed(error@),
    {
        self.target = None;
        self.failure = text::text(error);
        self.address.validation = text::text(error);
    }

    /// The form on a terminal of this size.
    pub fn screen(&self, width: usize, height: usize) -> (r: Screen)
        requires
            self.wf(),
        ensures
            r@ == self@.screen(width as int, height as int),
    {
        if self.target.is_some() {
            let wording = Wording {
                title: "Pair wireless debugging",
                label: "Pairing code",
                help: "Enter the code displayed on your phone.",
            };
            assert(wording@ == self@.wording());
            return self.code.screen(&wording, width, height);
        }
        let wording = if self.pairing {
            Wording {
                title: "Pair wireless debugging",
                label: "Address",
                help: "Use the pairing address shown on your phone.",
            }
        } else {
            Wording {
                title: "Connect a device",
                label: "Address",
                help: "Use the connection port, not the pairing port.",
            }
        };
        assert(wording@ == self@.wording());
        self.address.screen(&wording, width, height)
    }
}

/// Every address that is to be connected or paired is canonical, and every pairing
/// code has six digits.
pub proof fn law_only_valid_values_are_sent(form: ConnectView, key: Option<KeyView>)
    requires
        form.address.field == Field::Address,
        form.code.field == Field::PairingCode,
        form.target matches Some(target) ==> devices::endpoint_of(target) is Some,
    ensures
        match form.key(key).1 {
            ConnectStepView::Connect(address) => devices::endpoint_of(address) is Some,
            ConnectStepView::Pair { address, code } => devices::endpoint_of(address) is Some
                && code.len() == 6 && text::all_digits(code),
            _ => true,
        },
        form.key(key).0.target matches Some(target) ==> devices::endpoint_of(target) is Some,
{
    let value = text::trimmed(form.address.editor.text);
    devices::law_parsed_endpoints_read_back(value);
}

/// A failure loses nothing that was entered.
pub proof fn law_failures_keep_what_was_entered(form: ConnectView, error: Seq<char>)
    ensures
        form.failed(error).address.editor == form.address.editor,
        form.failed(error).code.editor == form.code.editor,
        form.failed(error).address.validation == error,
{
}

/// A pairing code is six digits, and a name is one to eighty bytes long.
pub proof fn law_values_have_their_form(value: Seq<char>)
    ensures
        Field::PairingCode.accepts(value) <==> value.len() == 6 && forall|i: int|
            0 <= i < 6 ==> '0' <= #[trigger] value[i] <= '9',
        Field::Name.accepts(value) <==> value.len() > 0 && utf8::encode_utf8(value).len() <= 80,
        Field::Host.accepts(value) <==> devices::host_of(value) is Some,
        Field::Address.accepts(value) <==> devices::endpoint_of(value) is Some,
{
    if Field::PairingCode.accepts(value) {
        assert forall|i: int| 0 <= i < 6 implies '0' <= #[trigger] value[i] <= '9' by {
            assert(text::is_digit(value[i]));
        }
    }
    if value.len() == 6 && forall|i: int| 0 <= i < 6 ==> '0' <= #[trigger] value[i] <= '9' {
        assert forall|i: int| 0 <= i < value.len() implies text::is_digit(#[trigger] value[i]) by {
            assert('0' <= value[i] <= '9');
        }
    }
}

/// Enter gives what was entered, without spaces around it, where it is valid; otherwise
/// the form stays, with what was entered and a complaint. Escape leaves the form, and
/// every other key goes to the editor.
pub proof fn law_forms_give_what_was_entered(form: FormView, key: KeyView)
    ensures
        ({
            let value = text::trimmed(form.editor.text);
            let (after, step) = form.key(Some(key));
            &&& key is Enter && form.field.accepts(value) ==> step == FormStepView::Done(value)
                && after == form
            &&& key is Enter && !form.field.accepts(value) ==> step == FormStepView::Stay
                && after.editor == form.editor && after.validation.len() > 0
            &&& key is Escape || key is Interrupt ==> step == FormStepView::Back && after == form
            &&& !(key is Enter) && !(key is Escape) && !(key is Interrupt) ==> step
                == FormStepView::Stay && after.editor == form.editor.key(key) && after.validation
                == form.validation
        }),
        form.key(None) == (form, FormStepView::Stay),
{
    reveal_strlit("Enter an address and port, for example 192.168.1.2:5555.");
    reveal_strlit("Enter the 6-digit pairing code.");
    reveal_strlit("Enter a name of 1 to 80 characters.");
    reveal_strlit("Enter an IP address or hostname without a port.");
}

/// Pairing asks for an address and then for a code, and then pairs with exactly the two:
/// the address in its canonical form, and the code.
pub proof fn law_pairing_uses_address_and_code(form: ConnectView, code: EditorView)
    requires
        form.pairing,
        form.target is None,
        form.address.field == Field::Address,
        form.code.field == Field::PairingCode,
        devices::endpoint_of(text::trimmed(form.address.editor.text)) is Some,
        text::trimmed(code.text).len() == 6,
        forall|i: int| 0 <= i < 6 ==> '0' <= #[trigger] text::trimmed(code.text)[i] <= '9',
    ensures
        ({
            let (host, port) = devices::endpoint_of(text::trimmed(form.address.editor.text))->0;
            let (asking, first) = form.key(Some(KeyView::Enter));
            let entered = ConnectView {
                code: FormView { editor: code, ..asking.code },
                ..asking
            };
            let (_, second) = entered.key(Some(KeyView::Enter));
            &&& first == ConnectStepView::Stay
            &&& asking.target is Some
            &&& second == ConnectStepView::Pair {
                address: devices::address_of(host, port),
                code: text::trimmed(code.text),
            }
        }),
{
    law_values_have_their_form(text::trimmed(code.text));
}

/// Connecting asks for an address only, and connects to it in its canonical form.
pub proof fn law_connecting_uses_the_address(form: ConnectView)
    requires
        !form.pairing,
        form.target is None,
        form.address.field == Field::Address,
        devices::endpoint_of(text::trimmed(form.address.editor.text)) is Some,
    ensures
        ({
            let (host, port) = devices::endpoint_of(text::trimmed(form.address.editor.text))->0;
            form.key(Some(KeyView::Enter)).1 == ConnectStepView::Connect(
                devices::address_of(host, port),
            )
        }),
{
}

/// Escape leaves the form from the address, and goes back to the address from the code,
/// with what was entered there.
pub proof fn law_escape_goes_one_step_back(form: ConnectView)
    ensures
        form.target is None ==> form.key(Some(KeyView::Escape)).1 == ConnectStepView::Cancel,
        form.target is Some ==> {
            let (after, step) = form.key(Some(KeyView::Escape));
            &&& step == ConnectStepView::Stay
            &&& after.target is None
            &&& after.address.editor == form.address.editor
        },
{
}

/// A code is never shown, and every other value is.
pub proof fn law_only_codes_are_masked(a: FormView, b: FormView, wording: WordingView, width: int, height: int)
    requires
        a.field == b.field,
        a.validation == b.validation,
        a.editor.text.len() == b.editor.text.len(),
        a.editor.cursor == b.editor.cursor,
        a.editor.selected == b.editor.selected,
    ensures
        a.field == Field::PairingCode ==> a.screen(wording, width, height) == b.screen(
            wording,
            width,
            height,
        ),
        ({
            let entered = a.screen(wording, width, height).lines[if height < 12 {
                1
            } else {
                3
            }];
            a.field != Field::PairingCode && width >= 6 ==> entered.text == a.editor.display(
                false,
                width - 6,
            )
        }),
{
    editor::law_masked_display_hides_the_text(a.editor, b.editor, frame::minus(width, 6));
}

/// A form for a connection opens empty: nothing is entered, nothing is chosen, and nothing
/// has failed.
pub proof fn law_forms_open_empty(pairing: bool)
    ensures
        ({
            let form = ConnectView::fresh(pairing);
            &&& form.pairing == pairing
            &&& form.target is None
            &&& form.failure.len() == 0
            &&& form.address.field == Field::Address && form.code.field == Field::PairingCode
            &&& form.address.editor.text.len() == 0 && form.address.editor.cursor == 0
                && !form.address.editor.selected
            &&& form.code.editor.text.len() == 0 && form.code.editor.cursor == 0
                && !form.code.editor.selected
            &&& form.address.validation.len() == 0 && form.code.validation.len() == 0
        }),
{
}

/// A form shows its title first, what was entered below it, and what is wrong with that last;
/// the keys are told at length where there are fifty columns for them.
pub proof fn law_forms_show_what_is_wrong(
    form: FormView,
    wording: WordingView,
    width: int,
    height: int,
)
    ensures
        ({
            let screen = form.screen(wording, width, height);
            &&& screen.lines[0].text == wording.title
            &&& height >= 12 ==> screen.lines[2].text == wording.label
            &&& height >= 15 ==> screen.lines[4].text == wording.help
            &&& form.validation.len() > 0 ==> screen.lines.last().text == form.validation
                && screen.lines.last().style == Style::Error
            &&& screen.lines[if height < 12 {
                1
            } else {
                3
            }].style == Style::Accent
            &&& width >= 50 ==> screen.footer == "Enter Continue   Esc Back   Left/Right Edit"@
            &&& width < 50 ==> screen.footer == "Enter OK   Esc Back"@
        }),
{
}

} // verus!
