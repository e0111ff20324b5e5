//! Wireless destinations: hosts, ports, and the devices that were saved. Pairing
//! credentials remain with ADB.
use crate::ip::{self, canonical_text, parse_ipv6, show_ipv6};
use crate::text::{self, chars_of, decimal_text, split, text_of, trimmed_chars};
use vstd::prelude::*;
use vstd::string::*;

verus! {

/// The longest host name.
pub const MAX_HOST: usize = 253;

pub const MAX_LABEL: usize = 63;

/// The longest name of a device, in bytes.
pub const MAX_NAME: usize = 256;

pub open spec fn is_label_char(c: char) -> bool {
    'a' <= c <= 'z' || 'A' <= c <= 'Z' || '0' <= c <= '9' || c == '-'
}

/// A part of a host name: letters, digits and inner hyphens.
pub open spec fn is_label(s: Seq<char>) -> bool {
    &&& 1 <= s.len() <= MAX_LABEL
    &&& s[0] != '-'
    &&& s.last() != '-'
    &&& forall|i: int| 0 <= i < s.len() ==> is_label_char(#[trigger] s[i])
}

/// A host name without its final dot.
pub open spec fn without_dot(s: Seq<char>) -> Seq<char> {
    if s.len() > 0 && s.last() == '.' {
        s.drop_last()
    } else {
        s
    }
}

pub open spec fn is_name(s: Seq<char>) -> bool {
    let labels = text::pieces(s, '.');
    forall|i: int| 0 <= i < labels.len() ==> is_label(#[trigger] labels[i])
}

/// The canonical form of a host: an address in its own canonical form, with or
/// without brackets for IPv6, or a name in lower case.
pub open spec fn host_of(value: Seq<char>) -> Option<Seq<char>> {
    let v = text::trimmed(value);
    if v.len() > 0 && v[0] == '[' {
        if v.len() >= 2 && v.last() == ']' && ip::ipv6(v.subrange(1, v.len() - 1)) is Some {
            Some(ip::show6(ip::ipv6(v.subrange(1, v.len() - 1))->0))
        } else {
            None
        }
    } else if ip::canonical(v) is Some {
        ip::canonical(v)
    } else if 0 < v.len() <= MAX_HOST && is_name(without_dot(v)) {
        Some(text::lowered(without_dot(v)))
    } else {
        None
    }
}

/// The port that a number in digits stands for; zero is none.
pub open spec fn port_of(value: Seq<char>) -> Option<nat> {
    match text::parsed(text::trimmed(value), 65535) {
        Some(port) if port > 0 => Some(port),
        _ => None,
    }
}

fn label_char(c: char) -> (r: bool)
    ensures
        r == is_label_char(c),
{
    ('a' <= c && c <= 'z') || ('A' <= c && c <= 'Z') || ('0' <= c && c <= '9') || c == '-'
}

fn label(s: &[char]) -> (r: bool)
    ensures
        r == is_label(s@),
{
    let len: usize = s.len();
    if len == 0 || len > MAX_LABEL || s[0] == '-' || s[len - 1] == '-' {
        return false;
    }
    let mut i: usize = 0;
    while i < len
        invariant
            i <= len,
            len == s@.len(),
            forall|j: int| 0 <= j < i ==> is_label_char(#[trigger] s@[j]),
        decreases len - i,
    {
        if !label_char(s[i]) {
            assert(!is_label_char(s@[i as int]));
            return false;
        }
        i = i + 1;
    }
    true
}

fn name(s: &[char]) -> (r: bool)
    ensures
        r == is_name(s@),
{
    let labels: Vec<Vec<char>> = split(s, '.');
    let ghost pieces = text::pieces(s@, '.');
    let mut i: usize = 0;
    while i < labels.len()
        invariant
            i <= labels@.len(),
            pieces == text::each(labels@),
            pieces == text::pieces(s@, '.'),
            forall|j: int| 0 <= j < i ==> is_label(#[trigger] pieces[j]),
        decreases labels@.len() - i,
    {
        assert(pieces[i as int] == labels@[i as int]@);
        if !label(labels[i].as_slice()) {
            assert(!is_label(pieces[i as int]));
            return false;
        }
        i = i + 1;
    }
    true
}

fn host_chars(v: &[char]) -> (r: Option<String>)
    requires
        text::trimmed(v@) == v@,
    ensures
        match r {
            Some(s) => host_of(v@) == Some(s@),
            None => host_of(v@) is None,
        },
{
    let len: usize = v.len();
    if len > 0 && v[0] == '[' {
        if len < 2 || v[len - 1] != ']' {
            return None;
        }
        let inner: &[char] = vstd::slice::slice_subrange(v, 1, len - 1);
        return match parse_ipv6(inner) {
            Some(numbers) => Some(show_ipv6(&numbers)),
            None => None,
        };
    }
    if let Some(address) = canonical_text(v) {
        return Some(address);
    }
    if len == 0 || len > MAX_HOST {
        return None;
    }
    let bare: &[char] = if v[len - 1] == '.' {
        vstd::slice::slice_subrange(v, 0, len - 1)
    } else {
        v
    };
    assert(bare@ =~= without_dot(v@));
    if name(bare) {
        Some(text_of(text::to_lower(bare).as_slice()))
    } else {
        None
    }
}

/// The canonical form of a host, if `value` is one.
pub fn host(value: &str) -> (r: Option<String>)
    ensures
        match r {
            Some(s) => host_of(value@) == Some(s@),
            None => host_of(value@) is None,
        },
{
    let v: Vec<char> = trimmed_chars(value);
    proof {
        lemma_trimmed_twice(value@);
    }
    host_chars(v.as_slice())
}

/// The port that `value` stands for.
pub fn port(value: &str) -> (r: Option<u16>)
    ensures
        match r {
            Some(port) => port_of(value@) == Some(port as nat) && port > 0,
            None => port_of(value@) is None,
        },
{
    let v: Vec<char> = trimmed_chars(value);
    match text::parse(v.as_slice(), 65535) {
        Some(n) => if n > 0 {
            Some(n as u16)
        } else {
            None
        },
        None => None,
    }
}

proof fn lemma_trimmed_start(s: Seq<char>)
    ensures
        text::trimmed_start(s).len() > 0 ==> !text::is_space(text::trimmed_start(s)[0]),
    decreases s.len(),
{
    if s.len() > 0 && text::is_space(s[0]) {
        lemma_trimmed_start(s.drop_first());
    }
}

proof fn lemma_trimmed_end(s: Seq<char>)
    ensures
        text::trimmed_end(s).len() > 0 ==> !text::is_space(text::trimmed_end(s).last())
            && text::trimmed_end(s)[0] == s[0],
        text::trimmed_end(s).len() <= s.len(),
    decreases s.len(),
{
    if s.len() > 0 && text::is_space(s.last()) {
        lemma_trimmed_end(s.drop_last());
    }
}

/// What is trimmed has nothing left to trim.
pub proof fn lemma_trimmed_twice(s: Seq<char>)
    ensures
        text::trimmed(text::trimmed(s)) == text::trimmed(s),
        text::trimmed(s).len() > 0 ==> !text::is_space(text::trimmed(s)[0]) && !text::is_space(
            text::trimmed(s).last(),
        ),
{
    lemma_trimmed_start(s);
    lemma_trimmed_end(text::trimmed_start(s));
    let t = text::trimmed(s);
    if t.len() > 0 {
        assert(text::trimmed_start(t) == t);
        assert(text::trimmed_end(t) == t);
    }
}

/// A host and the port to connect to.
#[derive(Clone, Debug, PartialEq, Eq)]
pub struct Endpoint {
    pub host: String,
    pub port: u16,
}

/// Where the last colon stands.
pub open spec fn last_colon(s: Seq<char>) -> Option<int>
    decreases s.len(),
{
    if s.len() == 0 {
        None
    } else if s.last() == ':' {
        Some(s.len() - 1)
    } else {
        last_colon(s.drop_last())
    }
}

pub open spec fn bracketed(s: Seq<char>) -> bool {
    s.len() > 0 && s[0] == '[' && s.last() == ']'
}

/// The host and port of an address. IPv6 needs brackets here.
pub open spec fn endpoint_of(value: Seq<char>) -> Option<(Seq<char>, nat)> {
    let v = text::trimmed(value);
    match last_colon(v) {
        None => None,
        Some(at) => {
            let address = v.take(at);
            if address.contains(':') && !bracketed(address) {
                None
            } else {
                match (host_of(address), port_of(v.skip(at + 1))) {
                    (Some(host), Some(port)) => Some((host, port)),
                    _ => None,
                }
            }
        },
    }
}

/// A host and port as an address.
pub open spec fn address_of(host: Seq<char>, port: nat) -> Seq<char> {
    if host.contains(':') {
        "["@ + host + "]:"@ + text::decimal(port)
    } else {
        host + ":"@ + text::decimal(port)
    }
}

pub fn find_last_colon(s: &[char]) -> (r: Option<usize>)
    ensures
        match r {
            Some(i) => last_colon(s@) == Some(i as int) && i < s@.len(),
            None => last_colon(s@) is None,
        },
{
    let mut i: usize = s.len();
    assert(s@.take(i as int) =~= s@);
    while i > 0
        invariant
            i <= s@.len(),
            last_colon(s@) == last_colon(s@.take(i as int)),
        decreases i,
    {
        proof {
            assert(s@.take(i as int).drop_last() =~= s@.take(i - 1));
        }
        if s[i - 1] == ':' {
            return Some(i - 1);
        }
        i = i - 1;
    }
    None
}

impl Endpoint {
    /// The endpoint that an address names.
    pub fn parse(value: &str) -> (r: Option<Endpoint>)
        ensures
            match r {
                Some(e) => endpoint_of(value@) == Some((e.host@, e.port as nat)) && e.port > 0,
                None => endpoint_of(value@) is None,
            },
    {
        let v: Vec<char> = trimmed_chars(value);
        let len: usize = v.len();
        let at: usize = match find_last_colon(v.as_slice()) {
            Some(at) => at,
            None => return None,
        };
        let address: &[char] = vstd::slice::slice_subrange(v.as_slice(), 0, at);
        let number: &[char] = vstd::slice::slice_subrange(v.as_slice(), at + 1, len);
        assert(address@ =~= v@.take(at as int));
        assert(number@ =~= v@.skip(at + 1));
        if text::has(address, ':') {
            let brackets: bool = at > 0 && address[0] == '[' && address[at - 1] == ']';
            if !brackets {
                return None;
            }
        }
        let host: String = match host(text_of(address).as_str()) {
            Some(host) => host,
            None => return None,
        };
        match port(text_of(number).as_str()) {
            Some(port) => Some(Endpoint { host, port }),
            None => None,
        }
    }

    /// The address of an endpoint.
    pub fn address(&self) -> (r: String)
        ensures
            r@ == address_of(self.host@, self.port as nat),
    {
        let number: String = decimal_text(self.port as u64);
        let mut out: String = String::new();
        if text::has(chars_of(self.host.as_str()).as_slice(), ':') {
            out.append("[");
            out.append(self.host.as_str());
            out.append("]:");
        } else {
            out.append(self.host.as_str());
            out.append(":");
        }
        out.append(number.as_str());
        assert(out@ =~= address_of(self.host@, self.port as nat));
        out
    }
}

/// A device that was saved.
#[derive(Clone, Debug, PartialEq, Eq)]
pub struct SavedDevice {
    pub host: String,
    pub port: Option<u16>,
    pub label: Option<String>,
    pub model: Option<String>,
}

#[verifier::ext_equal]
pub struct DeviceView {
    pub host: Seq<char>,
    pub port: Option<u16>,
    pub label: Option<Seq<char>>,
    pub model: Option<Seq<char>>,
}

pub open spec fn text_option(s: Option<String>) -> Option<Seq<char>> {
    match s {
        Some(s) => Some(s@),
        None => None,
    }
}

impl View for SavedDevice {
    type V = DeviceView;

    open spec fn view(&self) -> DeviceView {
        DeviceView {
            host: self.host@,
            port: self.port,
            label: text_option(self.label),
            model: text_option(self.model),
        }
    }
}

impl DeviceView {
    /// The label, else the model, else the host.
    pub open spec fn name(self) -> Seq<char> {
        match (self.label, self.model) {
            (Some(label), _) => label,
            (None, Some(model)) => model,
            (None, None) => self.host,
        }
    }

    pub open spec fn address(self) -> Option<Seq<char>> {
        match self.port {
            Some(port) => Some(address_of(self.host, port as nat)),
            None => None,
        }
    }
}

impl SavedDevice {
    /// What the device is called.
    pub fn name(&self) -> (r: &str)
        ensures
            r@ == self@.name(),
    {
        match &self.label {
            Some(label) => label.as_str(),
            None => match &self.model {
                Some(model) => model.as_str(),
                None => self.host.as_str(),
            },
        }
    }

    /// Where the device was last connected.
    pub fn address(&self) -> (r: Option<String>)
        ensures
            match r {
                Some(address) => self@.address() == Some(address@),
                None => self@.address() is None,
            },
    {
        match self.port {
            Some(port) => Some(
                Endpoint { host: text::text(self.host.as_str()), port }.address(),
            ),
            None => None,
        }
    }

    /// The same device again.
    pub fn copy(&self) -> (r: SavedDevice)
        ensures
            r@ == self@,
    {
        SavedDevice {
            host: text::text(self.host.as_str()),
            port: self.port,
            label: copy_option(&self.label),
            model: copy_option(&self.model),
        }
    }
}

pub fn copy_option(s: &Option<String>) -> (r: Option<String>)
    ensures
        text_option(r) == text_option(*s),
{
    match s {
        Some(s) => Some(text::text(s.as_str())),
        None => None,
    }
}

pub open spec fn views(entries: Seq<SavedDevice>) -> Seq<DeviceView> {
    entries.map_values(|entry: SavedDevice| entry@)
}

/// Whether a host is among the devices.
pub open spec fn has_host(entries: Seq<DeviceView>, host: Seq<char>) -> bool {
    exists|i: int| 0 <= i < entries.len() && #[trigger] entries[i].host == host
}

/// The first device with a host.
pub open spec fn is_first(entries: Seq<DeviceView>, host: Seq<char>, i: int) -> bool {
    &&& 0 <= i < entries.len()
    &&& entries[i].host == host
    &&& forall|j: int| 0 <= j < i ==> #[trigger] entries[j].host != host
}

pub open spec fn first(entries: Seq<DeviceView>, host: Seq<char>) -> int {
    choose|i: int| is_first(entries, host, i)
}

/// No host is saved twice.
pub open spec fn distinct(entries: Seq<DeviceView>) -> bool {
    forall|i: int, j: int|
        0 <= i < j < entries.len() ==> #[trigger] entries[i].host != #[trigger] entries[j].host
}

/// A device in front of all others, with a new port and model where they are
/// given. What was known of it stays.
pub open spec fn remembered(
    entries: Seq<DeviceView>,
    host: Seq<char>,
    port: Option<u16>,
    model: Option<Seq<char>>,
) -> Seq<DeviceView> {
    let known = if has_host(entries, host) {
        entries[first(entries, host)]
    } else {
        DeviceView { host, port: None, label: None, model: None }
    };
    let others = if has_host(entries, host) {
        entries.remove(first(entries, host))
    } else {
        entries
    };
    others.insert(
        0,
        DeviceView {
            port: if port is Some {
                port
            } else {
                known.port
            },
            model: if model is Some {
                model
            } else {
                known.model
            },
            ..known
        },
    )
}

pub open spec fn renamed(entries: Seq<DeviceView>, host: Seq<char>, label: Seq<char>) -> Seq<
    DeviceView,
> {
    if has_host(entries, host) {
        let i = first(entries, host);
        entries.update(i, DeviceView { label: Some(label), ..entries[i] })
    } else {
        entries
    }
}

/// Why a host cannot be changed.
#[derive(Clone, Copy, Debug, PartialEq, Eq, Structural)]
pub enum HostError {
    /// Another device has that host.
    Taken,
    /// No device has the old host.
    Missing,
}

pub open spec fn moved(entries: Seq<DeviceView>, old_host: Seq<char>, new_host: Seq<char>) -> Result<
    Seq<DeviceView>,
    HostError,
> {
    if old_host != new_host && has_host(entries, new_host) {
        Err(HostError::Taken)
    } else if !has_host(entries, old_host) {
        Err(HostError::Missing)
    } else {
        let i = first(entries, old_host);
        Ok(entries.update(i, DeviceView { host: new_host, ..entries[i] }))
    }
}

pub open spec fn hosted_elsewhere(host: Seq<char>) -> spec_fn(DeviceView) -> bool {
    |entry: DeviceView| entry.host != host
}

pub open spec fn removed(entries: Seq<DeviceView>, host: Seq<char>) -> Seq<DeviceView> {
    entries.filter(hosted_elsewhere(host))
}

/// The devices that were saved, the latest first.
#[derive(Debug)]
pub struct SavedDevices {
    pub entries: Vec<SavedDevice>,
    pub warning: Option<String>,
}

impl SavedDevices {
    pub open spec fn list(self) -> Seq<DeviceView> {
        views(self.entries@)
    }

    pub fn new() -> (r: SavedDevices)
        ensures
            r.list() == Seq::<DeviceView>::empty(),
            r.warning is None,
    {
        let r = SavedDevices { entries: Vec::new(), warning: None };
        assert(r.list() =~= Seq::<DeviceView>::empty());
        r
    }

    pub fn position(&self, address: &str) -> (r: Option<usize>)
        ensures
            r is Some == has_host(self.list(), address@),
            r matches Some(i) ==> is_first(self.list(), address@, i as int) && i == first(
                self.list(),
                address@,
            ),
    {
        let mut i: usize = 0;
        let ghost list = self.list();
        while i < self.entries.len()
            invariant
                i <= self.entries@.len(),
                list == self.list(),
                forall|j: int| 0 <= j < i ==> #[trigger] list[j].host != address@,
            decreases self.entries@.len() - i,
        {
            if text::same(self.entries[i].host.as_str(), address) {
                proof {
                    assert(list[i as int].host == address@);
                    assert(is_first(list, address@, i as int));
                    let other = first(list, address@);
                    assert(is_first(list, address@, other));
                    assert(other == i) by {
                        if other < i {
                            assert(list[other].host != address@);
                        }
                        if other > i {
                            assert(list[i as int].host != address@);
                        }
                    }
                }
                return Some(i);
            }
            assert(list[i as int].host != address@);
            i = i + 1;
        }
        None
    }

    /// The device with a host.
    pub fn find(&self, address: &str) -> (r: Option<&SavedDevice>)
        ensures
            match r {
                Some(entry) => has_host(self.list(), address@) && entry@ == self.list()[first(
                    self.list(),
                    address@,
                )],
                None => !has_host(self.list(), address@),
            },
    {
        match self.position(address) {
            Some(i) => Some(&self.entries[i]),
            None => None,
        }
    }

    /// Puts a device in front, with what is new of it.
    pub fn remember(&mut self, address: String, port: Option<u16>, model: Option<String>)
        ensures
            final(self).list() == remembered(
                old(self).list(),
                address@,
                port,
                text_option(model),
            ),
            final(self).warning == old(self).warning,
    {
        let ghost was = self.list();
        let ghost host = address@;
        let ghost new_model = text_option(model);
        let mut entry: SavedDevice = match self.position(address.as_str()) {
            Some(i) => {
                let entry: SavedDevice = self.entries.remove(i);
                assert(self.list() =~= was.remove(i as int));
                entry
            },
            None => SavedDevice { host: address, port: None, label: None, model: None },
        };
        let ghost others = self.list();
        if port.is_some() {
            entry.port = port;
        }
        if model.is_some() {
            entry.model = model;
        }
        self.entries.insert(0, entry);
        proof {
            assert(self.list() =~= others.insert(0, entry@));
            assert(self.list() =~= remembered(was, host, port, new_model));
        }
    }

    /// Gives a device a label.
    pub fn rename(&mut self, address: &str, label: String)
        ensures
            final(self).list() == renamed(old(self).list(), address@, label@),
            final(self).warning == old(self).warning,
    {
        let ghost was = self.list();
        if let Some(i) = self.position(address) {
            self.entries[i].label = Some(label);
            assert(self.list() =~= was.update(
                i as int,
                DeviceView { label: Some(label@), ..was[i as int] },
            ));
        }
    }

    /// Gives a device another host.
    pub fn change_host(&mut self, old_host: &str, new_host: String) -> (r: Result<(), HostError>)
        ensures
            match moved(old(self).list(), old_host@, new_host@) {
                Ok(list) => r == Ok::<(), HostError>(()) && final(self).list() == list,
                Err(error) => r == Err::<(), HostError>(error) && final(self).list() == old(
                    self,
                ).list(),
            },
            final(self).warning == old(self).warning,
    {
        let ghost was = self.list();
        if !text::same(old_host, new_host.as_str()) && self.position(new_host.as_str()).is_some() {
            return Err(HostError::Taken);
        }
        match self.position(old_host) {
            Some(i) => {
                self.entries[i].host = new_host;
                assert(self.list() =~= was.update(
                    i as int,
                    DeviceView { host: new_host@, ..was[i as int] },
                ));
                Ok(())
            },
            None => Err(HostError::Missing),
        }
    }

    /// Forgets the devices with a host.
    pub fn remove(&mut self, address: &str)
        ensures
            final(self).list() == removed(old(self).list(), address@),
            final(self).warning == old(self).warning,
    {
        let ghost was = self.list();
        let ghost keep = hosted_elsewhere(address@);
        let mut rest: Vec<SavedDevice> = Vec::new();
        let mut i: usize = 0;
        proof {
            reveal(Seq::filter);
            assert(views(rest@) =~= was.take(0).filter(keep));
        }
        while i < self.entries.len()
            invariant
                i <= self.entries@.len(),
                was == self.list(),
                keep == hosted_elsewhere(address@),
                views(rest@) == was.take(i as int).filter(keep),
            decreases self.entries@.len() - i,
        {
            let ghost kept = views(rest@);
            proof {
                reveal(Seq::filter);
                assert(was.take(i + 1).drop_last() =~= was.take(i as int));
                assert(was[i as int] == self.entries@[i as int]@);
            }
            if !text::same(self.entries[i].host.as_str(), address) {
                let entry: SavedDevice = self.entries[i].copy();
                rest.push(entry);
                assert(views(rest@) =~= kept.push(entry@));
            }
            i = i + 1;
        }
        assert(was.take(i as int) =~= was);
        self.entries = rest;
    }
}

/// The characters of canonical hosts.
pub open spec fn is_host_char(c: char) -> bool {
    is_label_char(c) || c == '.' || c == ':'
}

pub open spec fn plain_host(s: Seq<char>) -> bool {
    &&& s.len() > 0
    &&& forall|i: int| 0 <= i < s.len() ==> is_host_char(#[trigger] s[i])
}

proof fn lemma_plain_host_trimmed(s: Seq<char>)
    requires
        plain_host(s),
    ensures
        text::trimmed(s) == s,
        s[0] != '[',
{
    assert forall|i: int| 0 <= i < s.len() implies !text::is_space(#[trigger] s[i]) by {
        assert(is_host_char(s[i]));
    }
    text::lemma_nothing_to_trim(s);
    assert(is_host_char(s[0]));
}

proof fn lemma_address_host(s: Seq<char>)
    requires
        s.len() > 0,
        forall|i: int| 0 <= i < s.len() ==> ip::is_address_char(#[trigger] s[i]),
    ensures
        plain_host(s),
{
    assert forall|i: int| 0 <= i < s.len() implies is_host_char(#[trigger] s[i]) by {
        assert(ip::is_address_char(s[i]));
    }
}

/// The pieces of a name in lower case are its pieces in lower case.
proof fn lemma_lowered_pieces(s: Seq<char>)
    ensures
        text::pieces(text::lowered(s), '.') == text::pieces(s, '.').map_values(
            |piece: Seq<char>| text::lowered(piece),
        ),
        text::pieces(s, '.').len() > 0,
    decreases s.len(),
{
    let low = text::lowered(s);
    let f = |piece: Seq<char>| text::lowered(piece);
    let fields = text::pieces(s, '.');
    if s.len() == 0 {
        assert(low =~= s);
        assert(text::lowered(seq![]) =~= seq![]);
        assert(fields.map_values(f) =~= fields);
    } else {
        let before = text::pieces(s.drop_last(), '.');
        lemma_lowered_pieces(s.drop_last());
        assert(low.drop_last() =~= text::lowered(s.drop_last()));
        assert(low.last() == text::lower(s.last()));
        assert((text::lower(s.last()) == '.') == (s.last() == '.'));
        if s.last() == '.' {
            assert(text::lowered(seq![]) =~= seq![]);
            assert(fields.map_values(f) =~= before.map_values(f).push(seq![]));
        } else {
            assert(text::lowered(before.last().push(s.last())) =~= text::lowered(
                before.last(),
            ).push(text::lower(s.last())));
            assert(fields.map_values(f) =~= before.map_values(f).drop_last().push(
                before.map_values(f).last().push(low.last()),
            ));
        }
    }
}

proof fn lemma_lowered_name(s: Seq<char>)
    requires
        is_name(s),
    ensures
        is_name(text::lowered(s)),
        text::lowered(text::lowered(s)) == text::lowered(s),
        text::lowered(s).len() == s.len(),
{
    let low = text::lowered(s);
    let fields = text::pieces(s, '.');
    lemma_lowered_pieces(s);
    let lows = text::pieces(low, '.');
    assert forall|i: int| 0 <= i < lows.len() implies is_label(#[trigger] lows[i]) by {
        assert(is_label(fields[i]));
        assert(lows[i] == text::lowered(fields[i]));
        assert forall|j: int| 0 <= j < lows[i].len() implies is_label_char(
            #[trigger] lows[i][j],
        ) by {
            assert(is_label_char(fields[i][j]));
        }
    }
    assert(text::lowered(low) =~= low);
}

/// A name is not empty, is made of label characters and dots, and does not end
/// with a dot.
proof fn lemma_name_chars(s: Seq<char>)
    requires
        is_name(s),
    ensures
        s.len() > 0,
        s.last() != '.',
        forall|i: int| 0 <= i < s.len() ==> is_label_char(#[trigger] s[i]) || s[i] == '.',
{
    let fields = text::pieces(s, '.');
    lemma_lowered_pieces(s);
    lemma_piece_chars(s);
    assert(is_label(fields[fields.len() - 1]));
}

proof fn lemma_piece_chars(s: Seq<char>)
    ensures
        text::pieces(s, '.').len() > 0,
        text::pieces(s, '.').last().len() <= s.len(),
        (s.len() > 0 && s.last() == '.') ==> text::pieces(s, '.').last().len() == 0,
        (forall|k: int|
            0 <= k < text::pieces(s, '.').len() ==> forall|j: int|
                0 <= j < (#[trigger] text::pieces(s, '.')[k]).len() ==> is_label_char(
                    text::pieces(s, '.')[k][j],
                )) ==> forall|i: int|
            0 <= i < s.len() ==> is_label_char(#[trigger] s[i]) || s[i] == '.',
    decreases s.len(),
{
    let fields = text::pieces(s, '.');
    if s.len() > 0 {
        let before = text::pieces(s.drop_last(), '.');
        lemma_piece_chars(s.drop_last());
        if forall|k: int|
            0 <= k < fields.len() ==> forall|j: int|
                0 <= j < (#[trigger] fields[k]).len() ==> is_label_char(fields[k][j]) {
            assert forall|k: int| 0 <= k < before.len() implies forall|j: int|
                0 <= j < (#[trigger] before[k]).len() ==> is_label_char(before[k][j]) by {
                if s.last() == '.' || k < before.len() - 1 {
                    assert(fields[k] == before[k]);
                } else {
                    assert forall|j: int| 0 <= j < before[k].len() implies is_label_char(
                        before[k][j],
                    ) by {
                        assert(fields[k][j] == before[k][j]);
                    }
                }
            }
            assert forall|i: int| 0 <= i < s.len() implies is_label_char(#[trigger] s[i]) || s[i]
                == '.' by {
                if i < s.len() - 1 {
                    assert(s[i] == s.drop_last()[i]);
                } else if s.last() != '.' {
                    let k = fields.len() - 1;
                    assert(fields[k][fields[k].len() - 1] == s.last());
                }
            }
        }
    }
}

proof fn lemma_shown_host(s: Seq<char>, n: nat)
    requires
        ip::is_shown(s, n),
    ensures
        forall|i: int|
            0 <= i < s.len() ==> {
                let c = #[trigger] s[i];
                !text::is_space(c) && c != '[' && c != ']' && !('A' <= c <= 'Z')
            },
{
    assert forall|i: int| 0 <= i < s.len() implies {
        let c = #[trigger] s[i];
        !text::is_space(c) && c != '[' && c != ']' && !('A' <= c <= 'Z')
    } by {
        assert(ip::is_shown_char(s[i]));
    }
}

/// The canonical form of a host is its own canonical form. It is ASCII text that is
/// neither empty nor too long, holds no spaces, brackets or upper-case letters, and
/// does not end with a dot.
pub proof fn law_canonical_hosts_are_stable(value: Seq<char>)
    requires
        host_of(value) is Some,
    ensures
        host_of(host_of(value)->0) == host_of(value),
        plain_host(host_of(value)->0),
        0 < host_of(value)->0.len() <= MAX_HOST,
        forall|i: int|
            0 <= i < host_of(value)->0.len() ==> {
                let c = #[trigger] host_of(value)->0[i];
                !text::is_space(c) && c != '[' && c != ']' && !('A' <= c <= 'Z')
            },
        host_of(value)->0.last() != '.',
{
    let v = text::trimmed(value);
    let h = host_of(value)->0;
    if v.len() > 0 && v[0] == '[' {
        let inner = v.subrange(1, v.len() - 1);
        ip::lemma_ipv6_numbers(inner);
        ip::law_ipv6_reads_back(ip::ipv6(inner)->0);
        ip::law_canonical_addresses_are_short(h);
        lemma_address_host(h);
        lemma_plain_host_trimmed(h);
        lemma_shown_host(h, 42);
    } else if ip::canonical(v) is Some {
        ip::law_canonical_addresses_are_stable(v);
        ip::law_canonical_addresses_are_short(v);
        lemma_address_host(h);
        lemma_plain_host_trimmed(h);
        lemma_shown_host(h, 42);
    } else {
        let bare = without_dot(v);
        lemma_lowered_name(bare);
        lemma_name_chars(h);
        assert forall|i: int| 0 <= i < h.len() implies is_host_char(#[trigger] h[i]) by {
            assert(is_label_char(h[i]) || h[i] == '.');
        }
        lemma_plain_host_trimmed(h);
        if ip::canonical(h) is Some {
            assert(!h.contains(':')) by {
                if h.contains(':') {
                    let i = choose|i: int| 0 <= i < h.len() && h[i] == ':';
                    assert(is_label_char(h[i]) || h[i] == '.');
                }
            }
            ip::lemma_no_colon_no_ipv6(h);
            ip::law_ipv4_text_is_canonical(h);
        }
        assert forall|i: int| 0 <= i < h.len() implies {
            let c = #[trigger] h[i];
            !text::is_space(c) && c != '[' && c != ']' && !('A' <= c <= 'Z')
        } by {
            assert(is_host_char(h[i]));
            assert(h[i] == text::lower(bare[i]));
        }
    }
}

pub proof fn lemma_last_colon(x: Seq<char>, y: Seq<char>)
    requires
        !y.contains(':'),
    ensures
        last_colon(x + seq![':'] + y) == Some(x.len() as int),
    decreases y.len(),
{
    let s = x + seq![':'] + y;
    if y.len() == 0 {
        assert(s.last() == ':');
    } else {
        assert(y[y.len() - 1] == y.last());
        assert(s.last() == y.last());
        assert(s.drop_last() =~= x + seq![':'] + y.drop_last());
        assert(!y.drop_last().contains(':')) by {
            if y.drop_last().contains(':') {
                let i = choose|i: int| 0 <= i < y.drop_last().len() && y.drop_last()[i] == ':';
                assert(y[i] == ':');
            }
        }
        lemma_last_colon(x, y.drop_last());
    }
}

/// A host in canonical form and a port read back from their address, whether the
/// host needs brackets or not.
pub proof fn law_endpoints_read_back(host: Seq<char>, port: nat)
    requires
        host_of(host) == Some(host),
        1 <= port <= 65535,
    ensures
        endpoint_of(address_of(host, port)) == Some((host, port)),
{
    law_canonical_hosts_are_stable(host);
    lemma_plain_host_trimmed(host);
    let number = text::decimal(port);
    text::lemma_decimal_shape(port);
    assert forall|i: int| 0 <= i < number.len() implies !text::is_space(#[trigger] number[i])
        && number[i] != ':' by {
        assert(text::is_digit(number[i]));
    }
    text::lemma_nothing_to_trim(number);
    text::law_decimal_reads_back(port, 65535);
    let s = address_of(host, port);
    reveal_strlit(":");
    reveal_strlit("[");
    reveal_strlit("]:");
    if host.contains(':') {
        let x = seq!['['] + host + seq![']'];
        assert(s =~= x + seq![':'] + number);
        lemma_last_colon(x, number);
        assert forall|i: int| 0 <= i < s.len() implies !text::is_space(#[trigger] s[i]) by {
            if 0 < i <= host.len() {
                assert(s[i] == host[i - 1]);
                assert(is_host_char(host[i - 1]));
            } else if i > host.len() + 2 {
                assert(s[i] == number[i - host.len() - 3]);
            }
        }
        text::lemma_nothing_to_trim(s);
        assert(s.take(x.len() as int) =~= x);
        assert(s.skip(x.len() as int + 1) =~= number);
        assert forall|i: int| 0 <= i < x.len() implies !text::is_space(#[trigger] x[i]) by {
            assert(x[i] == s[i]);
        }
        text::lemma_nothing_to_trim(x);
        assert(x.subrange(1, x.len() - 1) =~= host);
        assert(ip::ipv6(host) is Some && ip::show6(ip::ipv6(host)->0) == host) by {
            if ip::canonical(host) is Some {
                ip::lemma_colon_is_ipv6(host);
            } else {
                let bare = without_dot(host);
                lemma_lowered_name(bare);
                lemma_name_chars(host);
                let i = choose|i: int| 0 <= i < host.len() && host[i] == ':';
                assert(is_label_char(host[i]) || host[i] == '.');
            }
        }
    } else {
        assert(s =~= host + seq![':'] + number);
        lemma_last_colon(host, number);
        assert forall|i: int| 0 <= i < s.len() implies !text::is_space(#[trigger] s[i]) by {
            if i < host.len() {
                assert(s[i] == host[i]);
                assert(is_host_char(host[i]));
            } else if i > host.len() {
                assert(s[i] == number[i - host.len() - 1]);
            }
        }
        text::lemma_nothing_to_trim(s);
        assert(s.take(host.len() as int) =~= host);
        assert(s.skip(host.len() as int + 1) =~= number);
    }
}

/// An endpoint that was parsed reads back from its address.
pub proof fn law_parsed_endpoints_read_back(value: Seq<char>)
    ensures
        match endpoint_of(value) {
            Some((host, port)) => endpoint_of(address_of(host, port)) == Some((host, port)),
            None => true,
        },
{
    if let Some((host, port)) = endpoint_of(value) {
        let v = text::trimmed(value);
        let at = last_colon(v)->0;
        law_canonical_hosts_are_stable(v.take(at));
        law_endpoints_read_back(host, port);
    }
}

pub proof fn lemma_first(entries: Seq<DeviceView>, host: Seq<char>)
    requires
        has_host(entries, host),
    ensures
        is_first(entries, host, first(entries, host)),
    decreases entries.len(),
{
    let i = choose|i: int| 0 <= i < entries.len() && #[trigger] entries[i].host == host;
    lemma_first_below(entries, host, i);
}

proof fn lemma_first_below(entries: Seq<DeviceView>, host: Seq<char>, i: int)
    requires
        0 <= i < entries.len(),
        entries[i].host == host,
    ensures
        exists|k: int| is_first(entries, host, k),
    decreases i,
{
    if exists|j: int| 0 <= j < i && #[trigger] entries[j].host == host {
        let j = choose|j: int| 0 <= j < i && #[trigger] entries[j].host == host;
        lemma_first_below(entries, host, j);
    } else {
        assert(is_first(entries, host, i));
    }
}

/// Whatever is done to the saved devices, no host is saved twice.
pub proof fn law_saved_hosts_stay_distinct(
    entries: Seq<DeviceView>,
    host: Seq<char>,
    other: Seq<char>,
    port: Option<u16>,
    model: Option<Seq<char>>,
)
    requires
        distinct(entries),
    ensures
        distinct(remembered(entries, host, port, model)),
        distinct(renamed(entries, host, other)),
        moved(entries, host, other) matches Ok(list) ==> distinct(list),
        distinct(removed(entries, host)),
{
    if has_host(entries, host) {
        lemma_first(entries, host);
    }
    let front = remembered(entries, host, port, model);
    assert forall|i: int, j: int| 0 <= i < j < front.len() implies #[trigger] front[i].host
        != #[trigger] front[j].host by {
        if has_host(entries, host) {
            let at = first(entries, host);
            let b = if j - 1 < at {
                j - 1
            } else {
                j
            };
            if i == 0 {
                assert(entries[at].host != entries[b].host);
            } else {
                let a = if i - 1 < at {
                    i - 1
                } else {
                    i
                };
                assert(entries[a].host != entries[b].host);
            }
        } else if i == 0 {
            assert(entries[j - 1].host != host);
        } else {
            assert(entries[i - 1].host != entries[j - 1].host);
        }
    }
    let named = renamed(entries, host, other);
    assert forall|i: int, j: int| 0 <= i < j < named.len() implies #[trigger] named[i].host
        != #[trigger] named[j].host by {
        assert(entries[i].host != entries[j].host);
    }
    if let Ok(list) = moved(entries, host, other) {
        assert forall|i: int, j: int| 0 <= i < j < list.len() implies #[trigger] list[i].host
            != #[trigger] list[j].host by {
            assert(entries[i].host != entries[j].host);
            if host != other {
                assert(entries[i].host != other);
                assert(entries[j].host != other);
            }
        }
    }
    lemma_filter_distinct(entries, host);
}

proof fn lemma_filter_distinct(entries: Seq<DeviceView>, host: Seq<char>)
    requires
        distinct(entries),
    ensures
        distinct(removed(entries, host)),
        forall|i: int|
            0 <= i < removed(entries, host).len() ==> has_host(
                entries,
                (#[trigger] removed(entries, host)[i]).host,
            ) && removed(entries, host)[i].host != host,
    decreases entries.len(),
{
    reveal(Seq::filter);
    if entries.len() > 0 {
        let before = entries.drop_last();
        assert forall|i: int, j: int| 0 <= i < j < before.len() implies #[trigger] before[i].host
            != #[trigger] before[j].host by {
            assert(entries[i].host != entries[j].host);
        }
        lemma_filter_distinct(before, host);
        let kept = removed(before, host);
        let all = removed(entries, host);
        assert forall|i: int| 0 <= i < all.len() implies has_host(
            entries,
            (#[trigger] all[i]).host,
        ) && all[i].host != host by {
            if i < kept.len() {
                assert(all[i] == kept[i]);
                let k = choose|k: int| 0 <= k < before.len() && #[trigger] before[k].host
                    == kept[i].host;
                assert(entries[k].host == kept[i].host);
            } else {
                assert(entries[entries.len() - 1].host == all[i].host);
            }
        }
        assert forall|i: int, j: int| 0 <= i < j < all.len() implies #[trigger] all[i].host
            != #[trigger] all[j].host by {
            assert(all[i] == kept[i]);
            if j < kept.len() {
                assert(all[j] == kept[j]);
            } else {
                let k = choose|k: int| 0 <= k < before.len() && #[trigger] before[k].host
                    == kept[i].host;
                assert(entries[k].host != entries[entries.len() - 1].host);
            }
        }
    }
}

/// A device that is remembered comes first. Pairing, which gives no port, keeps
/// the port to connect to, and a name that was given stays.
pub proof fn law_remembering_keeps_what_is_known(
    entries: Seq<DeviceView>,
    host: Seq<char>,
    port: Option<u16>,
    model: Option<Seq<char>>,
)
    requires
        distinct(entries),
    ensures
        ({
            let list = remembered(entries, host, port, model);
            &&& list.len() > 0
            &&& list[0].host == host
            &&& port is Some ==> list[0].port == port
            &&& forall|i: int|
                0 <= i < entries.len() && (#[trigger] entries[i]).host == host ==> {
                    &&& list.len() == entries.len()
                    &&& list[0].label == entries[i].label
                    &&& port is None ==> list[0].port == entries[i].port
                    &&& model is None ==> list[0].model == entries[i].model
                }
        }),
{
    if has_host(entries, host) {
        lemma_first(entries, host);
        let at = first(entries, host);
        assert forall|i: int| 0 <= i < entries.len() && (#[trigger] entries[i]).host
            == host implies i == at by {
            if i < at {
                assert(entries[i].host != entries[at].host);
            } else if i > at {
                assert(entries[at].host != entries[i].host);
            }
        }
    }
}

/// A device that was removed is not found, and every other one stays.
pub proof fn law_removed_devices_are_gone(
    entries: Seq<DeviceView>,
    host: Seq<char>,
    other: Seq<char>,
)
    requires
        distinct(entries),
        other != host,
    ensures
        !has_host(removed(entries, host), host),
        has_host(removed(entries, host), other) == has_host(entries, other),
{
    lemma_filter_distinct(entries, host);
    let all = removed(entries, host);
    if has_host(entries, other) {
        let i = choose|i: int| 0 <= i < entries.len() && #[trigger] entries[i].host == other;
        entries.lemma_filter_contains(hosted_elsewhere(host), i);
        assert(all.contains(entries[i]));
        let k = choose|k: int| 0 <= k < all.len() && all[k] == entries[i];
        assert(all[k].host == other);
    }
    if has_host(all, other) {
        let k = choose|k: int| 0 <= k < all.len() && #[trigger] all[k].host == other;
        assert(has_host(entries, all[k].host));
    }
}

/// What is done to one device leaves every other one as it was.
pub proof fn law_other_devices_stay(
    entries: Seq<DeviceView>,
    host: Seq<char>,
    other: Seq<char>,
    port: Option<u16>,
    model: Option<Seq<char>>,
    i: int,
)
    requires
        0 <= i < entries.len(),
        entries[i].host != host,
    ensures
        remembered(entries, host, port, model).contains(entries[i]),
        renamed(entries, host, other).contains(entries[i]),
        moved(entries, host, other) matches Ok(list) ==> list.contains(entries[i]),
        removed(entries, host).contains(entries[i]),
{
    let front = remembered(entries, host, port, model);
    entries.lemma_filter_contains(hosted_elsewhere(host), i);
    if has_host(entries, host) {
        lemma_first(entries, host);
        let at = first(entries, host);
        assert(front[if i < at {
            i + 1
        } else {
            i
        }] == entries[i]);
        assert(renamed(entries, host, other)[i] == entries[i]);
        if let Ok(list) = moved(entries, host, other) {
            assert(list[i] == entries[i]);
        }
    } else {
        assert(front[i + 1] == entries[i]);
    }
}

/// A port is a number from 1 to 65535, and no other number is one.
pub proof fn law_ports_are_numbers_in_range(n: nat)
    ensures
        1 <= n <= 65535 ==> port_of(text::decimal(n)) == Some(n),
        n == 0 || n > 65535 ==> port_of(text::decimal(n)) is None,
{
    let s = text::decimal(n);
    text::lemma_decimal_shape(n);
    assert forall|i: int| 0 <= i < s.len() implies !text::is_space(#[trigger] s[i]) by {
        assert(text::is_digit(s[i]));
    }
    text::lemma_nothing_to_trim(s);
}

/// A name keeps its characters, capitals made small, but for one dot at its end.
pub proof fn law_names_are_made_small(value: Seq<char>)
    requires
        ip::canonical(text::trimmed(value)) is None,
        text::trimmed(value).len() > 0,
        text::trimmed(value)[0] != '[',
    ensures
        host_of(value) matches Some(host) ==> {
            let v = text::trimmed(value);
            &&& host.len() == (if v.last() == '.' {
                v.len() - 1
            } else {
                v.len() as int
            })
            &&& forall|i: int|
                0 <= i < host.len() ==> #[trigger] host[i] as u32 == (if 65 <= v[i] as u32
                    && v[i] as u32 <= 90 {
                    v[i] as u32 + 32
                } else {
                    v[i] as u32 as int
                })
        },
{
    if let Some(host) = host_of(value) {
        let v = text::trimmed(value);
        let bare = without_dot(v);
        assert(host == text::lowered(bare));
        assert forall|i: int| 0 <= i < host.len() implies #[trigger] host[i] as u32 == (if 65
            <= v[i] as u32 && v[i] as u32 <= 90 {
            v[i] as u32 + 32
        } else {
            v[i] as u32 as int
        }) by {
            assert(bare[i] == v[i]);
            assert(host[i] == text::lower(bare[i]));
        }
    }
}

/// Addresses keep their numbers: an IPv4 address is its own host, and an IPv6 address stands
/// for the same eight numbers, with brackets or without.
pub proof fn law_addresses_are_hosts(a: u8, b: u8, c: u8, d: u8, n: Seq<nat>)
    requires
        n.len() == 8,
        ip::are_groups(n),
    ensures
        ({
            let four = text::decimal(a as nat) + seq!['.'] + text::decimal(b as nat) + seq!['.']
                + text::decimal(c as nat) + seq!['.'] + text::decimal(d as nat);
            host_of(four) == Some(four)
        }),
        host_of(ip::show6(n)) == Some(ip::show6(n)),
        host_of(seq!['['] + ip::show6(n) + seq![']']) == Some(ip::show6(n)),
{
    let o = seq![a as nat, b as nat, c as nat, d as nat];
    let four = ip::show4(o);
    ip::law_ipv4_reads_back(o);
    ip::law_canonical_addresses_are_stable(four);
    lemma_address_host(four);
    let six = ip::show6(n);
    ip::law_ipv6_reads_back(n);
    ip::law_canonical_addresses_are_stable(six);
    lemma_address_host(six);
    let boxed = seq!['['] + six + seq![']'];
    assert forall|i: int| 0 <= i < boxed.len() implies !text::is_space(#[trigger] boxed[i]) by {
        if 0 < i < boxed.len() - 1 {
            assert(boxed[i] == six[i - 1]);
            assert(ip::is_address_char(six[i - 1]));
        }
    }
    text::lemma_nothing_to_trim(boxed);
    assert(boxed.subrange(1, boxed.len() - 1) =~= six);
}

/// Whether the device at `i` is the first with its host.
pub open spec fn is_found(entries: Seq<DeviceView>, host: Seq<char>, i: int) -> bool {
    &&& 0 <= i < entries.len()
    &&& entries[i].host == host
    &&& forall|j: int| 0 <= j < i ==> #[trigger] entries[j].host != host
}

/// Renaming changes the label alone, and moving the host alone, of one device, which keeps
/// its place.
pub proof fn law_changes_touch_one_field(
    entries: Seq<DeviceView>,
    host: Seq<char>,
    other: Seq<char>,
    i: int,
)
    requires
        is_found(entries, host, i),
    ensures
        ({
            let after = renamed(entries, host, other);
            &&& after.len() == entries.len()
            &&& after[i].label == Some(other)
            &&& after[i].host == entries[i].host
            &&& after[i].port == entries[i].port
            &&& after[i].model == entries[i].model
            &&& forall|j: int| 0 <= j < entries.len() && j != i ==> #[trigger] after[j] == entries[j]
        }),
        (forall|j: int| 0 <= j < entries.len() && j != i ==> #[trigger] entries[j].host != other)
            ==> moved(entries, host, other) is Ok,
        moved(entries, host, other) matches Ok(after) ==> {
            &&& after.len() == entries.len()
            &&& after[i].host == other
            &&& after[i].label == entries[i].label
            &&& after[i].port == entries[i].port
            &&& after[i].model == entries[i].model
            &&& forall|j: int| 0 <= j < entries.len() && j != i ==> #[trigger] after[j] == entries[j]
        },
{
    lemma_first(entries, host);
    let at = first(entries, host);
    assert(is_first(entries, host, at));
    if at < i {
        assert(entries[at].host != host);
    } else if i < at {
        assert(entries[i].host != host);
    }
}

/// No device is moved to a host that another has, nor is one changed that is not saved.
pub proof fn law_taken_hosts_are_refused(
    entries: Seq<DeviceView>,
    host: Seq<char>,
    other: Seq<char>,
)
    ensures
        forall|i: int|
            0 <= i < entries.len() && #[trigger] entries[i].host == other && other != host
                ==> moved(entries, host, other) is Err,
        (forall|i: int| 0 <= i < entries.len() ==> #[trigger] entries[i].host != host) ==> moved(
            entries,
            host,
            other,
        ) is Err && renamed(entries, host, other) == entries,
{
    assert forall|i: int|
        0 <= i < entries.len() && #[trigger] entries[i].host == other && other
            != host implies moved(entries, host, other) is Err by {
        assert(has_host(entries, other));
    }
}

/// A device that is remembered stands first, under its host, with the port and the model
/// that are given or else known, and keeps its label.
pub proof fn law_remembered_devices_stand_first(
    entries: Seq<DeviceView>,
    host: Seq<char>,
    port: Option<u16>,
    model: Option<Seq<char>>,
    i: int,
)
    ensures
        ({
            let after = remembered(entries, host, port, model);
            &&& after.len() > 0 && after[0].host == host
            &&& port is Some ==> after[0].port == port
            &&& model is Some ==> after[0].model == model
            &&& is_found(entries, host, i) ==> {
                &&& after.len() == entries.len()
                &&& after[0].label == entries[i].label
                &&& port is None ==> after[0].port == entries[i].port
                &&& model is None ==> after[0].model == entries[i].model
            }
            &&& (forall|j: int| 0 <= j < entries.len() ==> #[trigger] entries[j].host != host) ==> {
                &&& after.len() == entries.len() + 1
                &&& after[0].label is None
                &&& after[0].port == port
                &&& after[0].model == model
            }
        }),
{
    if is_found(entries, host, i) {
        assert(has_host(entries, host));
        lemma_first(entries, host);
        let at = first(entries, host);
        if at < i {
            assert(entries[at].host != host);
        } else if i < at {
            assert(entries[i].host != host);
        }
    } else if has_host(entries, host) {
        lemma_first(entries, host);
    }
}

/// A device goes by the label it was given, else by its model, else by its host.
pub proof fn law_devices_go_by_their_label(device: DeviceView)
    ensures
        device.label is Some ==> Some(device.name()) == device.label,
        device.label is None && device.model is Some ==> Some(device.name()) == device.model,
        device.label is None && device.model is None ==> device.name() == device.host,
        device.port is None <==> device.address() is None,
{
}

/// An address is the host, a colon and the port in digits; a host with colons of its own
/// stands in brackets.
pub proof fn law_addresses_end_with_the_port(host: Seq<char>, port: nat)
    ensures
        ({
            let s = address_of(host, port);
            let n = text::decimal(port).len();
            let at = s.len() - n;
            &&& at > 0 && s[at - 1] == ':' && s.skip(at) == text::decimal(port)
            &&& !host.contains(':') ==> s.take(at - 1) == host
            &&& host.contains(':') ==> s[0] == '[' && s[at - 2] == ']' && s.subrange(1, at - 2)
                == host
        }),
{
    reveal_strlit(":");
    reveal_strlit("[");
    reveal_strlit("]:");
    let s = address_of(host, port);
    let at = s.len() - text::decimal(port).len();
    assert(s.skip(at) =~= text::decimal(port));
    if host.contains(':') {
        assert(s.subrange(1, at - 2) =~= host);
    } else {
        assert(s.take(at - 1) =~= host);
    }
}

} // verus!
