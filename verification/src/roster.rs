//! The devices that can be chosen: those that ADB lists, and those that were
//! saved.
use crate::adb::{self, DeviceInfo, InfoView};
use crate::devices::{self, copy_option, DeviceView, Endpoint, SavedDevice, SavedDevices};
use crate::text;
use vstd::prelude::*;
use vstd::string::*;

verus! {

/// The state of a device that ADB can use.
pub open spec fn on(device: InfoView) -> bool {
    device.state == "device"@
}

/// The state of a device that is only saved.
pub open spec fn kept(device: InfoView) -> bool {
    device.state == "saved"@
}

/// What a device is called.
pub open spec fn caption_of(device: InfoView) -> Seq<char> {
    match device.model {
        Some(model) => model,
        None => device.serial,
    }
}

pub fn caption(device: &DeviceInfo) -> (r: String)
    ensures
        r@ == caption_of(device@),
{
    match &device.model {
        Some(model) => text::text(model.as_str()),
        None => text::text(device.serial.as_str()),
    }
}

pub fn is_on(device: &DeviceInfo) -> (r: bool)
    ensures
        r == on(device@),
{
    text::same(device.state.as_str(), "device")
}

fn is_kept(device: &DeviceInfo) -> (r: bool)
    ensures
        r == kept(device@),
{
    text::same(device.state.as_str(), "saved")
}

/// A saved device among those that can be chosen.
pub open spec fn info_of(saved: DeviceView) -> InfoView {
    InfoView {
        serial: match saved.address() {
            Some(address) => address,
            None => saved.host,
        },
        state: "saved"@,
        model: Some(saved.name()),
    }
}

pub fn saved_info(saved: &SavedDevice) -> (r: DeviceInfo)
    ensures
        r@ == info_of(saved@),
{
    DeviceInfo {
        serial: match saved.address() {
            Some(address) => address,
            None => text::text(saved.host.as_str()),
        },
        state: text::text("saved"),
        model: Some(text::text(saved.name())),
    }
}

/// The host of a device. A saved device without a port is named by its host.
pub open spec fn host_of(device: InfoView) -> Option<Seq<char>> {
    match devices::endpoint_of(device.serial) {
        Some((host, port)) => Some(host),
        None => if kept(device) {
            Some(device.serial)
        } else {
            None
        },
    }
}

pub fn device_host(device: &DeviceInfo) -> (r: Option<String>)
    ensures
        devices::text_option(r) == host_of(device@),
{
    match Endpoint::parse(device.serial.as_str()) {
        Some(endpoint) => Some(endpoint.host),
        None => if is_kept(device) {
            Some(text::text(device.serial.as_str()))
        } else {
            None
        },
    }
}

/// The saved device that a device is.
pub open spec fn saved_as(device: InfoView, saved: Seq<DeviceView>) -> Option<DeviceView> {
    match host_of(device) {
        Some(host) if devices::has_host(saved, host) => Some(saved[devices::first(saved, host)]),
        _ => None,
    }
}

fn find_saved<'a>(device: &DeviceInfo, saved: &'a SavedDevices) -> (r: Option<&'a SavedDevice>)
    ensures
        match r {
            Some(entry) => saved_as(device@, saved.list()) == Some(entry@),
            None => saved_as(device@, saved.list()) is None,
        },
{
    match device_host(device) {
        Some(host) => saved.find(host.as_str()),
        None => None,
    }
}

/// Whether a listed device is shown: one that can be used, or one that was not
/// saved.
pub open spec fn shown(device: InfoView, saved: Seq<DeviceView>) -> bool {
    on(device) || saved_as(device, saved) is None
}

/// A device under the name that it was given.
pub open spec fn labelled(device: InfoView, saved: Seq<DeviceView>) -> InfoView {
    match saved_as(device, saved) {
        Some(entry) if entry.label is Some => InfoView { model: entry.label, ..device },
        _ => device,
    }
}

/// The listed devices that are shown, under their names.
pub open spec fn listed(online: Seq<InfoView>, saved: Seq<DeviceView>) -> Seq<InfoView>
    decreases online.len(),
{
    if online.len() == 0 {
        seq![]
    } else if shown(online.last(), saved) {
        listed(online.drop_last(), saved).push(labelled(online.last(), saved))
    } else {
        listed(online.drop_last(), saved)
    }
}

/// Whether a saved device is among the listed ones and can be used.
pub open spec fn present(list: Seq<InfoView>, host: Seq<char>) -> bool {
    exists|i: int|
        0 <= i < list.len() && on(#[trigger] list[i]) && host_of(list[i]) == Some(host)
}

/// The saved devices that are not present.
pub open spec fn absent(list: Seq<InfoView>, saved: Seq<DeviceView>) -> Seq<InfoView>
    decreases saved.len(),
{
    if saved.len() == 0 {
        seq![]
    } else if present(list, saved.last().host) {
        absent(list, saved.drop_last())
    } else {
        absent(list, saved.drop_last()).push(info_of(saved.last()))
    }
}

/// How recently a device was used: its place among the saved ones.
pub open spec fn recency(device: InfoView, saved: Seq<DeviceView>) -> int {
    match host_of(device) {
        Some(host) if devices::has_host(saved, host) => devices::first(saved, host),
        _ => usize::MAX as int,
    }
}

/// Devices that can be used come first, then those used more recently.
pub open spec fn no_later(a: InfoView, b: InfoView, saved: Seq<DeviceView>) -> bool {
    (on(a) && !on(b)) || (on(a) == on(b) && recency(a, saved) <= recency(b, saved))
}

/// Where a device goes into a list in order: behind all that come no later.
pub open spec fn slot(list: Seq<InfoView>, device: InfoView, saved: Seq<DeviceView>) -> int
    decreases list.len(),
{
    if list.len() == 0 || no_later(list.last(), device, saved) {
        list.len() as int
    } else {
        slot(list.drop_last(), device, saved)
    }
}

/// A list in order, devices that are alike in the order that they had.
pub open spec fn ordered(list: Seq<InfoView>, saved: Seq<DeviceView>) -> Seq<InfoView>
    decreases list.len(),
{
    if list.len() == 0 {
        seq![]
    } else {
        let before = ordered(list.drop_last(), saved);
        before.insert(slot(before, list.last(), saved), list.last())
    }
}

/// The devices that can be chosen.
pub open spec fn choices_of(online: Seq<InfoView>, saved: Seq<DeviceView>) -> Seq<InfoView> {
    let list = listed(online, saved);
    ordered(list + absent(list, saved), saved)
}

fn label(device: &DeviceInfo, saved: &SavedDevices) -> (r: DeviceInfo)
    ensures
        r@ == labelled(device@, saved.list()),
{
    let mut out: DeviceInfo = device.copy();
    if let Some(entry) = find_saved(device, saved) {
        if entry.label.is_some() {
            out.model = copy_option(&entry.label);
        }
    }
    out
}

fn is_present(list: &Vec<DeviceInfo>, host: &str) -> (r: bool)
    ensures
        r == present(adb::infos(list@), host@),
{
    let ghost all = adb::infos(list@);
    let mut i: usize = 0;
    while i < list.len()
        invariant
            i <= list@.len(),
            all == adb::infos(list@),
            forall|j: int|
                0 <= j < i ==> !(on(#[trigger] all[j]) && host_of(all[j]) == Some(host@)),
        decreases list@.len() - i,
    {
        assert(all[i as int] == list@[i as int]@);
        if is_on(&list[i]) {
            if let Some(found) = device_host(&list[i]) {
                if text::same(found.as_str(), host) {
                    return true;
                }
            }
        }
        i = i + 1;
    }
    false
}

fn place_of(device: &DeviceInfo, saved: &SavedDevices) -> (r: usize)
    ensures
        r == recency(device@, saved.list()),
{
    match device_host(device) {
        Some(host) => match saved.position(host.as_str()) {
            Some(i) => i,
            None => usize::MAX,
        },
        None => usize::MAX,
    }
}

fn comes_no_later(a: &DeviceInfo, b: &DeviceInfo, saved: &SavedDevices) -> (r: bool)
    ensures
        r == no_later(a@, b@, saved.list()),
{
    let (first, second): (bool, bool) = (is_on(a), is_on(b));
    (first && !second) || (first == second && place_of(a, saved) <= place_of(b, saved))
}

proof fn lemma_slot(list: Seq<InfoView>, device: InfoView, saved: Seq<DeviceView>)
    ensures
        0 <= slot(list, device, saved) <= list.len(),
    decreases list.len(),
{
    if list.len() > 0 && !no_later(list.last(), device, saved) {
        lemma_slot(list.drop_last(), device, saved);
    }
}

fn place(list: &mut Vec<DeviceInfo>, device: DeviceInfo, saved: &SavedDevices)
    ensures
        adb::infos(final(list)@) == adb::infos(old(list)@).insert(
            slot(adb::infos(old(list)@), device@, saved.list()),
            device@,
        ),
{
    let ghost all = adb::infos(list@);
    let mut at: usize = list.len();
    assert(all.take(at as int) =~= all);
    while at > 0 && !comes_no_later(&list[at - 1], &device, saved)
        invariant
            at <= list@.len(),
            all == adb::infos(list@),
            slot(all, device@, saved.list()) == slot(all.take(at as int), device@, saved.list()),
        decreases at,
    {
        proof {
            assert(all.take(at as int).drop_last() =~= all.take(at - 1));
            assert(all.take(at as int).last() == list@[at - 1]@);
        }
        at = at - 1;
    }
    proof {
        if at > 0 {
            assert(all.take(at as int).last() == list@[at - 1]@);
        }
        assert(slot(all, device@, saved.list()) == at);
    }
    list.insert(at, device);
    assert(adb::infos(list@) =~= all.insert(at as int, device@));
}

/// The devices that can be chosen, from those that ADB lists and those that were
/// saved.
pub fn choices(online: &Vec<DeviceInfo>, saved: &SavedDevices) -> (r: Vec<DeviceInfo>)
    ensures
        adb::infos(r@) == choices_of(adb::infos(online@), saved.list()),
{
    let ghost all = adb::infos(online@);
    let ghost list = saved.list();
    let mut result: Vec<DeviceInfo> = Vec::new();
    let mut i: usize = 0;
    assert(adb::infos(result@) =~= listed(all.take(0), list));
    while i < online.len()
        invariant
            i <= online@.len(),
            all == adb::infos(online@),
            list == saved.list(),
            adb::infos(result@) == listed(all.take(i as int), list),
        decreases online@.len() - i,
    {
        let ghost so_far = adb::infos(result@);
        proof {
            assert(all.take(i + 1).drop_last() =~= all.take(i as int));
            assert(all.take(i + 1).last() == online@[i as int]@);
        }
        if is_on(&online[i]) || find_saved(&online[i], saved).is_none() {
            let named: DeviceInfo = label(&online[i], saved);
            result.push(named);
            assert(adb::infos(result@) =~= so_far.push(named@));
        }
        i = i + 1;
    }
    assert(all.take(i as int) =~= all);
    let ghost shown_list = adb::infos(result@);
    let mut extra: Vec<DeviceInfo> = Vec::new();
    let mut j: usize = 0;
    assert(adb::infos(extra@) =~= absent(shown_list, list.take(0)));
    while j < saved.entries.len()
        invariant
            j <= saved.entries@.len(),
            list == saved.list(),
            shown_list == adb::infos(result@),
            adb::infos(extra@) == absent(shown_list, list.take(j as int)),
        decreases saved.entries@.len() - j,
    {
        let ghost so_far = adb::infos(extra@);
        proof {
            assert(list.take(j + 1).drop_last() =~= list.take(j as int));
            assert(list.take(j + 1).last() == saved.entries@[j as int]@);
        }
        if !is_present(&result, saved.entries[j].host.as_str()) {
            let info: DeviceInfo = saved_info(&saved.entries[j]);
            extra.push(info);
            assert(adb::infos(extra@) =~= so_far.push(info@));
        }
        j = j + 1;
    }
    assert(list.take(j as int) =~= list);
    let ghost both = shown_list + adb::infos(extra@);
    let mut sorted: Vec<DeviceInfo> = Vec::new();
    let mut k: usize = 0;
    assert(adb::infos(sorted@) =~= ordered(both.take(0), list));
    while k < result.len()
        invariant
            k <= result@.len(),
            list == saved.list(),
            shown_list == adb::infos(result@),
            both == shown_list + adb::infos(extra@),
            adb::infos(sorted@) == ordered(both.take(k as int), list),
        decreases result@.len() - k,
    {
        proof {
            assert(both.take(k + 1).drop_last() =~= both.take(k as int));
            assert(both.take(k + 1).last() == result@[k as int]@);
        }
        let device: DeviceInfo = result[k].copy();
        place(&mut sorted, device, saved);
        k = k + 1;
    }
    let mut m: usize = 0;
    while m < extra.len()
        invariant
            m <= extra@.len(),
            list == saved.list(),
            shown_list == adb::infos(result@),
            both == shown_list + adb::infos(extra@),
            adb::infos(sorted@) == ordered(both.take(result@.len() + m), list),
        decreases extra@.len() - m,
    {
        proof {
            let n = result@.len() + m;
            assert(both.take(n + 1).drop_last() =~= both.take(n));
            assert(both.take(n + 1).last() == extra@[m as int]@);
        }
        let device: DeviceInfo = extra[m].copy();
        place(&mut sorted, device, saved);
        m = m + 1;
    }
    assert(both.take(result@.len() + m) =~= both);
    sorted
}

/// The saved devices after a device was used.
pub open spec fn remembered_with(device: InfoView, saved: Seq<DeviceView>) -> Seq<DeviceView> {
    match devices::endpoint_of(device.serial) {
        Some((host, port)) => devices::remembered(saved, host, Some(port as u16), device.model),
        None => saved,
    }
}

/// Saves a device that was used, where it has an address.
pub fn remember_device(saved: &mut SavedDevices, device: &DeviceInfo)
    ensures
        final(saved).list() == remembered_with(device@, old(saved).list()),
        final(saved).warning == old(saved).warning,
{
    if let Some(endpoint) = Endpoint::parse(device.serial.as_str()) {
        saved.remember(endpoint.host, Some(endpoint.port), copy_option(&device.model));
    }
}

/// A device that was connected, as it is listed. One that is not listed by its
/// serial can be used all the same.
pub open spec fn is_connection(list: Seq<InfoView>, serial: Seq<char>, r: InfoView) -> bool {
    let same_serial = |d: InfoView| d.serial == serial;
    if any_where(list, same_serial) {
        exists|i: int| #[trigger] is_first_where(list, same_serial, i) && r == list[i]
    } else {
        r == InfoView { serial, state: "device"@, model: None }
    }
}

pub fn connection_info(list: &Vec<DeviceInfo>, serial: &str) -> (r: DeviceInfo)
    ensures
        is_connection(adb::infos(list@), serial@, r@),
{
    let ghost all = adb::infos(list@);
    let ghost same_serial = |d: InfoView| d.serial == serial@;
    let mut i: usize = 0;
    while i < list.len()
        invariant
            i <= list@.len(),
            all == adb::infos(list@),
            same_serial == (|d: InfoView| d.serial == serial@),
            forall|j: int| 0 <= j < i ==> !same_serial(#[trigger] all[j]),
        decreases list@.len() - i,
    {
        assert(all[i as int] == list@[i as int]@);
        if text::same(list[i].serial.as_str(), serial) {
            assert(same_serial(all[i as int]));
            assert(is_first_where(all, same_serial, i as int));
            return list[i].copy();
        }
        i = i + 1;
    }
    DeviceInfo { serial: text::text(serial), state: text::text("device"), model: None }
}

pub open spec fn notice_of(warning: Option<Seq<char>>, message: Seq<char>) -> Seq<char> {
    match warning {
        Some(warning) => message + " "@ + warning,
        None => message,
    }
}

/// A message, and behind it what is wrong with the saved devices.
pub fn saved_notice(saved: &SavedDevices, message: &str) -> (r: String)
    ensures
        r@ == notice_of(devices::text_option(saved.warning), message@),
{
    let mut out: String = text::text(message);
    if let Some(warning) = &saved.warning {
        out.append(" ");
        out.append(warning.as_str());
    }
    out
}

/// What is known of a device that is to be connected again.
pub open spec fn reconnectable(device: InfoView, saved: Seq<DeviceView>) -> Option<DeviceView> {
    match saved_as(device, saved) {
        Some(entry) => Some(entry),
        None => match devices::endpoint_of(device.serial) {
            Some((host, port)) => Some(
                DeviceView { host, port: Some(port as u16), label: None, model: device.model },
            ),
            None => None,
        },
    }
}

pub fn reconnect_entry(device: &DeviceInfo, saved: &SavedDevices) -> (r: Option<SavedDevice>)
    ensures
        match r {
            Some(entry) => reconnectable(device@, saved.list()) == Some(entry@),
            None => reconnectable(device@, saved.list()) is None,
        },
{
    if let Some(entry) = find_saved(device, saved) {
        return Some(entry.copy());
    }
    match Endpoint::parse(device.serial.as_str()) {
        Some(endpoint) => Some(
            SavedDevice {
                host: endpoint.host,
                port: Some(endpoint.port),
                label: None,
                model: copy_option(&device.model),
            },
        ),
        None => None,
    }
}

pub open spec fn is_first_where(
    list: Seq<InfoView>,
    wanted: spec_fn(InfoView) -> bool,
    i: int,
) -> bool {
    &&& 0 <= i < list.len()
    &&& wanted(list[i])
    &&& forall|j: int| 0 <= j < i ==> !wanted(#[trigger] list[j])
}

pub open spec fn any_where(list: Seq<InfoView>, wanted: spec_fn(InfoView) -> bool) -> bool {
    exists|i: int| 0 <= i < list.len() && wanted(#[trigger] list[i])
}

/// The first device that can be used, else the first saved one, else the first.
pub open spec fn is_preferred(list: Seq<InfoView>, r: Option<InfoView>) -> bool {
    let usable = |d: InfoView| on(d);
    let saved = |d: InfoView| kept(d);
    if any_where(list, usable) {
        exists|i: int| #[trigger] is_first_where(list, usable, i) && r == Some(list[i])
    } else if any_where(list, saved) {
        exists|i: int| #[trigger] is_first_where(list, saved, i) && r == Some(list[i])
    } else if list.len() > 0 {
        r == Some(list[0])
    } else {
        r is None
    }
}

pub open spec fn info_option(r: Option<DeviceInfo>) -> Option<InfoView> {
    match r {
        Some(device) => Some(device@),
        None => None,
    }
}

pub fn preferred(list: &Vec<DeviceInfo>) -> (r: Option<DeviceInfo>)
    ensures
        is_preferred(adb::infos(list@), info_option(r)),
{
    let ghost all = adb::infos(list@);
    let ghost usable = |d: InfoView| on(d);
    let ghost saved = |d: InfoView| kept(d);
    let mut i: usize = 0;
    while i < list.len()
        invariant
            i <= list@.len(),
            all == adb::infos(list@),
            usable == (|d: InfoView| on(d)),
            forall|j: int| 0 <= j < i ==> !usable(#[trigger] all[j]),
        decreases list@.len() - i,
    {
        assert(all[i as int] == list@[i as int]@);
        if is_on(&list[i]) {
            assert(usable(all[i as int]));
            assert(is_first_where(all, usable, i as int));
            return Some(list[i].copy());
        }
        i = i + 1;
    }
    let mut j: usize = 0;
    while j < list.len()
        invariant
            j <= list@.len(),
            all == adb::infos(list@),
            saved == (|d: InfoView| kept(d)),
            usable == (|d: InfoView| on(d)),
            !any_where(all, usable),
            forall|k: int| 0 <= k < j ==> !saved(#[trigger] all[k]),
        decreases list@.len() - j,
    {
        assert(all[j as int] == list@[j as int]@);
        if is_kept(&list[j]) {
            assert(saved(all[j as int]));
            assert(is_first_where(all, saved, j as int));
            return Some(list[j].copy());
        }
        j = j + 1;
    }
    if list.len() > 0 {
        Some(list[0].copy())
    } else {
        None
    }
}

/// The device that was chosen, in a new list: the same serial, else the same host,
/// else the preferred one.
pub open spec fn is_retained(
    previous: Option<InfoView>,
    list: Seq<InfoView>,
    r: Option<InfoView>,
) -> bool {
    match previous {
        None => is_preferred(list, r),
        Some(old_device) => {
            let same_serial = |d: InfoView| d.serial == old_device.serial;
            let same_host = |d: InfoView|
                host_of(old_device) is Some && host_of(d) == host_of(old_device);
            if any_where(list, same_serial) {
                exists|i: int| #[trigger] is_first_where(list, same_serial, i) && r == Some(list[i])
            } else if any_where(list, same_host) {
                exists|i: int| #[trigger] is_first_where(list, same_host, i) && r == Some(list[i])
            } else {
                is_preferred(list, r)
            }
        },
    }
}

pub fn retain_choice(previous: &Option<DeviceInfo>, list: &Vec<DeviceInfo>) -> (r: Option<
    DeviceInfo,
>)
    ensures
        is_retained(info_option(*previous), adb::infos(list@), info_option(r)),
{
    let before: &DeviceInfo = match previous {
        Some(before) => before,
        None => return preferred(list),
    };
    let ghost was = before@;
    let ghost all = adb::infos(list@);
    let ghost same_serial = |d: InfoView| d.serial == was.serial;
    let ghost same_host = |d: InfoView| host_of(was) is Some && host_of(d) == host_of(was);
    let mut i: usize = 0;
    while i < list.len()
        invariant
            i <= list@.len(),
            was == before@,
            *previous == Some(*before),
            all == adb::infos(list@),
            same_serial == (|d: InfoView| d.serial == was.serial),
            forall|j: int| 0 <= j < i ==> !same_serial(#[trigger] all[j]),
        decreases list@.len() - i,
    {
        assert(all[i as int] == list@[i as int]@);
        if text::same(list[i].serial.as_str(), before.serial.as_str()) {
            assert(same_serial(all[i as int]));
            assert(is_first_where(all, same_serial, i as int));
            return Some(list[i].copy());
        }
        i = i + 1;
    }
    if let Some(host) = device_host(before) {
        let mut j: usize = 0;
        while j < list.len()
            invariant
                j <= list@.len(),
                was == before@,
                *previous == Some(*before),
                host_of(was) == Some(host@),
                all == adb::infos(list@),
                same_serial == (|d: InfoView| d.serial == was.serial),
                !any_where(all, same_serial),
                same_host == (|d: InfoView| host_of(was) is Some && host_of(d) == host_of(was)),
                forall|k: int| 0 <= k < j ==> !same_host(#[trigger] all[k]),
            decreases list@.len() - j,
        {
            assert(all[j as int] == list@[j as int]@);
            if let Some(found) = device_host(&list[j]) {
                if text::same(found.as_str(), host.as_str()) {
                    assert(same_host(all[j as int]));
                    assert(is_first_where(all, same_host, j as int));
                    return Some(list[j].copy());
                }
            }
            j = j + 1;
        }
        assert(!any_where(all, same_host));
    }
    preferred(list)
}

pub open spec fn in_order(list: Seq<InfoView>, saved: Seq<DeviceView>) -> bool {
    forall|i: int, j: int|
        0 <= i < j < list.len() ==> no_later(#[trigger] list[i], #[trigger] list[j], saved)
}

proof fn lemma_slot_splits(list: Seq<InfoView>, device: InfoView, saved: Seq<DeviceView>)
    requires
        in_order(list, saved),
    ensures
        ({
            let at = slot(list, device, saved);
            &&& 0 <= at <= list.len()
            &&& forall|i: int| 0 <= i < at ==> no_later(#[trigger] list[i], device, saved)
            &&& forall|i: int| at <= i < list.len() ==> no_later(device, #[trigger] list[i], saved)
        }),
    decreases list.len(),
{
    if list.len() > 0 {
        if no_later(list.last(), device, saved) {
            assert forall|i: int| 0 <= i < list.len() implies no_later(
                #[trigger] list[i],
                device,
                saved,
            ) by {
                if i < list.len() - 1 {
                    assert(no_later(list[i], list[list.len() - 1], saved));
                }
            }
        } else {
            let before = list.drop_last();
            assert forall|i: int, j: int| 0 <= i < j < before.len() implies no_later(
                #[trigger] before[i],
                #[trigger] before[j],
                saved,
            ) by {
                assert(no_later(list[i], list[j], saved));
            }
            lemma_slot_splits(before, device, saved);
            let at = slot(before, device, saved);
            assert forall|i: int| 0 <= i < at implies no_later(#[trigger] list[i], device, saved) by {
                assert(before[i] == list[i]);
            }
            assert forall|i: int| at <= i < list.len() implies no_later(
                device,
                #[trigger] list[i],
                saved,
            ) by {
                if i < list.len() - 1 {
                    assert(before[i] == list[i]);
                }
            }
        }
    }
}

/// Devices that can be used come first, and among those that can, as among those
/// that cannot, the ones used more recently. Ordering neither adds nor drops any.
pub proof fn law_choices_are_in_order(list: Seq<InfoView>, saved: Seq<DeviceView>)
    ensures
        in_order(ordered(list, saved), saved),
        ordered(list, saved).to_multiset() == list.to_multiset(),
    decreases list.len(),
{
    if list.len() > 0 {
        let before = ordered(list.drop_last(), saved);
        let device = list.last();
        law_choices_are_in_order(list.drop_last(), saved);
        lemma_slot_splits(before, device, saved);
        let at = slot(before, device, saved);
        let after = before.insert(at, device);
        assert forall|i: int, j: int| 0 <= i < j < after.len() implies no_later(
            #[trigger] after[i],
            #[trigger] after[j],
            saved,
        ) by {
            if j < at {
                assert(no_later(before[i], before[j], saved));
            } else if j == at {
                assert(no_later(before[i], device, saved));
            } else if i < at {
                assert(no_later(before[i], before[j - 1], saved));
            } else if i == at {
                assert(no_later(device, before[j - 1], saved));
            } else {
                assert(no_later(before[i - 1], before[j - 1], saved));
            }
        }
        vstd::seq_lib::to_multiset_insert(before, at, device);
        list.drop_last().to_multiset_ensures();
        assert(list.drop_last().push(device) =~= list);
    } else {
        assert(list =~= seq![]);
    }
}

/// Every saved device can be chosen: it is listed and can be used, or it is offered
/// as a saved one.
pub proof fn law_saved_devices_are_offered(online: Seq<InfoView>, saved: Seq<DeviceView>, i: int)
    requires
        0 <= i < saved.len(),
    ensures
        present(listed(online, saved), saved[i].host) || choices_of(online, saved).contains(
            info_of(saved[i]),
        ),
{
    let list = listed(online, saved);
    if !present(list, saved[i].host) {
        lemma_absent(list, saved, i);
        let extra = absent(list, saved);
        let both = list + extra;
        let k = choose|k: int| 0 <= k < extra.len() && extra[k] == info_of(saved[i]);
        assert(both[list.len() + k] == info_of(saved[i]));
        law_choices_are_in_order(both, saved);
        both.to_multiset_ensures();
        ordered(both, saved).to_multiset_ensures();
        assert(both.to_multiset().count(info_of(saved[i])) > 0);
    }
}

proof fn lemma_absent(list: Seq<InfoView>, saved: Seq<DeviceView>, i: int)
    requires
        0 <= i < saved.len(),
        !present(list, saved[i].host),
    ensures
        absent(list, saved).contains(info_of(saved[i])),
    decreases saved.len(),
{
    let extra = absent(list, saved);
    if i == saved.len() - 1 {
        assert(extra[extra.len() - 1] == info_of(saved[i]));
    } else {
        lemma_absent(list, saved.drop_last(), i);
        let before = absent(list, saved.drop_last());
        let k = choose|k: int| 0 <= k < before.len() && before[k] == info_of(saved[i]);
        assert(extra[k] == info_of(saved[i]));
    }
}

/// Every device that ADB can use can be chosen, under the name that it was given.
pub proof fn law_usable_devices_are_offered(online: Seq<InfoView>, saved: Seq<DeviceView>, i: int)
    requires
        0 <= i < online.len(),
        on(online[i]),
    ensures
        choices_of(online, saved).contains(labelled(online[i], saved)),
{
    let list = listed(online, saved);
    let device = labelled(online[i], saved);
    lemma_listed(online, saved, i);
    let both = list + absent(list, saved);
    let k = choose|k: int| 0 <= k < list.len() && list[k] == device;
    assert(both[k] == device);
    law_choices_are_in_order(both, saved);
    both.to_multiset_ensures();
    ordered(both, saved).to_multiset_ensures();
    assert(both.to_multiset().count(device) > 0);
}

proof fn lemma_listed(online: Seq<InfoView>, saved: Seq<DeviceView>, i: int)
    requires
        0 <= i < online.len(),
        on(online[i]),
    ensures
        listed(online, saved).contains(labelled(online[i], saved)),
    decreases online.len(),
{
    let list = listed(online, saved);
    if i == online.len() - 1 {
        assert(list[list.len() - 1] == labelled(online[i], saved));
    } else {
        lemma_listed(online.drop_last(), saved, i);
        let before = listed(online.drop_last(), saved);
        let k = choose|k: int| 0 <= k < before.len() && before[k] == labelled(online[i], saved);
        assert(list[k] == labelled(online[i], saved));
    }
}

/// Whether a device in a list of choices is one that ADB lists, under the name that was
/// given to it if there is one, or one of the saved devices.
pub open spec fn comes_from(device: InfoView, online: Seq<InfoView>, saved: Seq<DeviceView>) -> bool {
    ||| exists|i: int|
        0 <= i < online.len() && (#[trigger] online[i]).serial == device.serial && online[i].state
            == device.state && (device.model == online[i].model || exists|k: int|
            0 <= k < saved.len() && (#[trigger] saved[k]).label == device.model)
    ||| exists|k: int| 0 <= k < saved.len() && info_of(#[trigger] saved[k]) == device
}

proof fn lemma_listed_from(online: Seq<InfoView>, saved: Seq<DeviceView>, j: int)
    requires
        0 <= j < listed(online, saved).len(),
    ensures
        comes_from(listed(online, saved)[j], online, saved),
    decreases online.len(),
{
    let list = listed(online, saved);
    let before = listed(online.drop_last(), saved);
    if j < before.len() {
        lemma_listed_from(online.drop_last(), saved, j);
        let device = before[j];
        assert(list[j] == device);
        if exists|i: int|
            0 <= i < online.drop_last().len() && (#[trigger] online.drop_last()[i]).serial
                == device.serial && online.drop_last()[i].state == device.state && (device.model
                == online.drop_last()[i].model || exists|k: int|
                0 <= k < saved.len() && (#[trigger] saved[k]).label == device.model) {
            let i = choose|i: int|
                0 <= i < online.drop_last().len() && (#[trigger] online.drop_last()[i]).serial
                    == device.serial && online.drop_last()[i].state == device.state && (device.model
                    == online.drop_last()[i].model || exists|k: int|
                    0 <= k < saved.len() && (#[trigger] saved[k]).label == device.model);
            assert(online[i] == online.drop_last()[i]);
        }
    } else {
        let n = online.len() - 1;
        let device = labelled(online[n], saved);
        assert(list[j] == device);
        assert(online[n].serial == device.serial);
        if device.model != online[n].model {
            let host = host_of(online[n])->0;
            devices::lemma_first(saved, host);
            assert(saved[devices::first(saved, host)].label == device.model);
        }
    }
}

proof fn lemma_absent_from(list: Seq<InfoView>, saved: Seq<DeviceView>, j: int)
    requires
        0 <= j < absent(list, saved).len(),
    ensures
        exists|k: int|
            0 <= k < saved.len() && info_of(#[trigger] saved[k]) == absent(list, saved)[j],
    decreases saved.len(),
{
    let before = absent(list, saved.drop_last());
    if j < before.len() {
        lemma_absent_from(list, saved.drop_last(), j);
        let k = choose|k: int|
            0 <= k < saved.drop_last().len() && info_of(#[trigger] saved.drop_last()[k])
                == before[j];
        assert(saved[k] == saved.drop_last()[k]);
        assert(absent(list, saved)[j] == before[j]);
    } else {
        assert(info_of(saved[saved.len() - 1]) == absent(list, saved)[j]);
    }
}

/// Nothing is offered but what ADB lists and what is saved.
pub proof fn law_choices_are_real(online: Seq<InfoView>, saved: Seq<DeviceView>, j: int)
    requires
        0 <= j < choices_of(online, saved).len(),
    ensures
        comes_from(choices_of(online, saved)[j], online, saved),
{
    let list = listed(online, saved);
    let extra = absent(list, saved);
    let both = list + extra;
    let device = choices_of(online, saved)[j];
    law_choices_are_in_order(both, saved);
    both.to_multiset_ensures();
    ordered(both, saved).to_multiset_ensures();
    assert(ordered(both, saved).contains(device));
    assert(both.to_multiset().count(device) > 0);
    assert(both.contains(device));
    let m = choose|m: int| 0 <= m < both.len() && both[m] == device;
    if m < list.len() {
        lemma_listed_from(online, saved, m);
    } else {
        lemma_absent_from(list, saved, m - list.len());
        assert(extra[m - list.len()] == device);
    }
}

/// A saved device is offered under its name, at its address with the last port, or at its
/// host where no port is known.
pub proof fn law_saved_devices_show_their_address(entry: DeviceView)
    ensures
        info_of(entry).state == "saved"@,
        info_of(entry).model == Some(
            match (entry.label, entry.model) {
                (Some(label), _) => label,
                (None, Some(model)) => model,
                (None, None) => entry.host,
            },
        ),
        entry.port matches Some(port) ==> info_of(entry).serial == devices::address_of(
            entry.host,
            port as nat,
        ),
        entry.port is None ==> info_of(entry).serial == entry.host,
{
}

/// Of two choices, the one that can be used comes first; of two alike, the one that was
/// used more recently, which is the one that is saved further up.
pub proof fn law_usable_and_recent_devices_come_first(
    online: Seq<InfoView>,
    saved: Seq<DeviceView>,
    i: int,
    j: int,
)
    requires
        0 <= i < j < choices_of(online, saved).len(),
    ensures
        ({
            let (a, b) = (choices_of(online, saved)[i], choices_of(online, saved)[j]);
            &&& b.state == "device"@ ==> a.state == "device"@
            &&& (a.state == "device"@) == (b.state == "device"@) ==> recency(a, saved) <= recency(
                b,
                saved,
            )
        }),
{
    let list = listed(online, saved);
    law_choices_are_in_order(list + absent(list, saved), saved);
}

/// A device that was connected is shown as the list has it, by its serial; one that is not
/// listed is taken for usable, without a model.
pub proof fn law_connected_devices_are_shown_as_listed(
    list: Seq<InfoView>,
    serial: Seq<char>,
    r: InfoView,
    i: int,
)
    requires
        is_connection(list, serial, r),
    ensures
        r.serial == serial,
        0 <= i < list.len() && list[i].serial == serial && (forall|j: int|
            0 <= j < i ==> #[trigger] list[j].serial != serial) ==> r == list[i],
        (forall|j: int| 0 <= j < list.len() ==> #[trigger] list[j].serial != serial) ==> r.state
            == "device"@ && r.model is None,
{
    let same_serial = |d: InfoView| d.serial == serial;
    if any_where(list, same_serial) {
        let k = choose|k: int| #[trigger] is_first_where(list, same_serial, k) && r == list[k];
        assert(same_serial(list[k]));
        if 0 <= i < list.len() && list[i].serial == serial && (forall|j: int|
            0 <= j < i ==> #[trigger] list[j].serial != serial) {
            assert(same_serial(list[i]));
            if k < i {
                assert(list[k].serial != serial);
            }
        }
    } else if 0 <= i < list.len() && list[i].serial == serial {
        assert(same_serial(list[i]));
    }
}

/// Without a device of before the first usable one is chosen, if there is one; only an empty
/// list leaves nothing to choose.
pub proof fn law_usable_devices_are_preferred(list: Seq<InfoView>, r: Option<InfoView>, i: int)
    requires
        is_preferred(list, r),
    ensures
        r is None <==> list.len() == 0,
        0 <= i < list.len() && list[i].state == "device"@ ==> (r matches Some(device)
            && device.state == "device"@),
        0 <= i < list.len() && list[i].state == "device"@ && (forall|j: int|
            0 <= j < i ==> #[trigger] list[j].state != "device"@) ==> r == Some(list[i]),
{
    let usable = |d: InfoView| on(d);
    let saved = |d: InfoView| kept(d);
    if 0 <= i < list.len() && list[i].state == "device"@ {
        assert(usable(list[i]));
        assert(any_where(list, usable));
    }
    if any_where(list, usable) {
        let k = choose|k: int| #[trigger] is_first_where(list, usable, k) && r == Some(list[k]);
        assert(usable(list[k]));
        if 0 <= i < list.len() && list[i].state == "device"@ && (forall|j: int|
            0 <= j < i ==> #[trigger] list[j].state != "device"@) {
            if k < i {
                assert(list[k].state != "device"@);
            }
        }
    }
}

/// A device that was chosen before stays chosen while it is listed, by its serial.
pub proof fn law_choices_are_kept_by_serial(
    previous: InfoView,
    list: Seq<InfoView>,
    r: Option<InfoView>,
    i: int,
)
    requires
        is_retained(Some(previous), list, r),
        0 <= i < list.len(),
        list[i].serial == previous.serial,
    ensures
        r matches Some(device) && device.serial == previous.serial && list.contains(device),
{
    let same_serial = |d: InfoView| d.serial == previous.serial;
    assert(same_serial(list[i]));
    assert(any_where(list, same_serial));
    let k = choose|k: int| #[trigger] is_first_where(list, same_serial, k) && r == Some(list[k]);
    assert(same_serial(list[k]));
}

/// A device with an address is saved first, under its host, with its port; one on a cable
/// changes nothing.
pub proof fn law_used_devices_are_saved_first(device: InfoView, saved: Seq<DeviceView>)
    ensures
        devices::endpoint_of(device.serial) is None ==> remembered_with(device, saved) == saved,
        devices::endpoint_of(device.serial) matches Some((host, port)) ==> {
            let after = remembered_with(device, saved);
            &&& after.len() > 0 && after[0].host == host
            &&& after[0].port == Some(port as u16)
            &&& device.model is Some ==> after[0].model == device.model
        },
{
    if let Some((host, port)) = devices::endpoint_of(device.serial) {
        devices::law_remembered_devices_stand_first(
            saved,
            host,
            Some(port as u16),
            device.model,
            -1,
        );
    }
}

/// What is wrong with the saved devices stands behind every message, and the message itself
/// comes first.
pub proof fn law_warnings_follow_the_message(warning: Seq<char>, message: Seq<char>)
    ensures
        notice_of(None, message) == message,
        notice_of(Some(warning), message).take(message.len() as int) == message,
        notice_of(Some(warning), message).skip(message.len() as int + 1) == warning,
{
    reveal_strlit(" ");
    assert(notice_of(Some(warning), message).take(message.len() as int) =~= message);
    assert(notice_of(Some(warning), message).skip(message.len() as int + 1) =~= warning);
}

/// A device that is listed under another port of its host stays chosen too.
pub proof fn law_choices_are_kept_by_host(
    previous: InfoView,
    list: Seq<InfoView>,
    r: Option<InfoView>,
    host: Seq<char>,
    i: int,
)
    requires
        is_retained(Some(previous), list, r),
        host_of(previous) == Some(host),
        0 <= i < list.len(),
        host_of(list[i]) == Some(host),
    ensures
        r matches Some(device) && host_of(device) == Some(host) || (r matches Some(device)
            && device.serial == previous.serial),
{
    let same_serial = |d: InfoView| d.serial == previous.serial;
    let same_host = |d: InfoView| host_of(previous) is Some && host_of(d) == host_of(previous);
    assert(same_host(list[i]));
    if any_where(list, same_serial) {
        let k = choose|k: int|
            #[trigger] is_first_where(list, same_serial, k) && r == Some(list[k]);
        assert(same_serial(list[k]));
    } else {
        assert(any_where(list, same_host));
        let k = choose|k: int| #[trigger] is_first_where(list, same_host, k) && r == Some(list[k]);
        assert(same_host(list[k]));
    }
}

} // verus!
