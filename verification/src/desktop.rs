//! The desktop's side of a session: which input is captured, and what is sent to
//! the device.
use crate::bins::{self, Binning, MotionBin, MotionBins};
use crate::hid::{self, keyboard_report};
use crate::keys;
use crate::num;
use crate::packet::Packet;
use crate::pointer::{self, summarize, Event, Motion, Step, Summary, BTN_0, SYN_DROPPED};
use vstd::prelude::*;

verus! {

pub const KEY_SEMICOLON: u16 = 39;

pub const KEY_LEFTCTRL: u16 = 29;

pub const KEY_RIGHTCTRL: u16 = 97;

pub const KEY_LEFTSHIFT: u16 = 42;

pub const KEY_RIGHTSHIFT: u16 = 54;

pub const KEY_LEFTALT: u16 = 56;

pub const KEY_RIGHTALT: u16 = 100;

pub const KEY_LEFTMETA: u16 = 125;

pub const KEY_RIGHTMETA: u16 = 126;

/// The longest wait for input, in milliseconds.
pub const POLL_MS: i32 = 25;

/// Where input goes. Arming and releasing wait until every key is up.
#[derive(Clone, Copy, Debug, PartialEq, Eq, Structural)]
pub enum Mode {
    Local,
    Arming,
    Remote,
    Releasing,
}

/// Why input is on the desktop again.
#[derive(Clone, Copy, Debug, PartialEq, Eq, Structural)]
pub enum Notice {
    SourceDisconnected,
    EventsLost,
    NotCapturable,
}

/// What the desktop is to do after an event.
#[derive(Debug, PartialEq, Eq)]
pub enum Reaction {
    Nothing,
    /// Release the input devices, and everything on the phone.
    Abandon(Notice),
    /// Release everything on the phone.
    ReleaseRemote,
    /// Try to capture every input device, then activate.
    Capture,
    /// Release the input devices.
    ReleaseLocal,
    /// Send this keyboard report.
    Keyboard([u8; 8]),
    /// Pointer motion, which may complete a report.
    Pointer(Step),
}

/// What a pointer report sends, in order.
#[derive(Clone, Copy, Debug, PartialEq, Eq, Structural)]
pub enum Sent {
    Bin { source_id: u32, bin: MotionBin },
    Mouse { buttons: u8, dx: i32, dy: i32, wheel: i32, source_id: u32, source_time_us: u64 },
}

/// An input device.
#[verifier::ext_equal]
pub struct SourceView {
    pub id: u32,
    pub keyboard: bool,
    pub pointer: bool,
    pub grabbed: bool,
    pub held: Seq<u16>,
    pub motion: Motion,
    pub bins: Binning,
}

/// The input devices, the next device's number, the mode, and the buttons as they
/// were last sent.
#[verifier::ext_equal]
pub struct DesktopView {
    pub sources: Seq<SourceView>,
    pub next_source_id: u32,
    pub mode: Mode,
    pub last_buttons: u8,
}

/// Whether the keys are Control and semicolon, without another modifier.
pub open spec fn is_chord(keys: Seq<u16>) -> bool {
    &&& keys.contains(KEY_SEMICOLON)
    &&& keys.contains(KEY_LEFTCTRL) || keys.contains(KEY_RIGHTCTRL)
    &&& !keys.contains(KEY_LEFTSHIFT)
    &&& !keys.contains(KEY_RIGHTSHIFT)
    &&& !keys.contains(KEY_LEFTALT)
    &&& !keys.contains(KEY_RIGHTALT)
    &&& !keys.contains(KEY_LEFTMETA)
    &&& !keys.contains(KEY_RIGHTMETA)
}

/// Whether the keys that are held switch the input.
pub fn chord(keys: &[u16]) -> (r: bool)
    ensures
        r == is_chord(keys@),
{
    hid::holds(keys, KEY_SEMICOLON) && (hid::holds(keys, KEY_LEFTCTRL) || hid::holds(
        keys,
        KEY_RIGHTCTRL,
    )) && !hid::holds(keys, KEY_LEFTSHIFT) && !hid::holds(keys, KEY_RIGHTSHIFT) && !hid::holds(
        keys,
        KEY_LEFTALT,
    ) && !hid::holds(keys, KEY_RIGHTALT) && !hid::holds(keys, KEY_LEFTMETA) && !hid::holds(
        keys,
        KEY_RIGHTMETA,
    )
}

/// Every key that is held on any device.
pub open spec fn all_held(sources: Seq<SourceView>) -> Seq<u16>
    decreases sources.len(),
{
    if sources.len() == 0 {
        seq![]
    } else {
        all_held(sources.drop_last()) + sources.last().held
    }
}

/// The usages of keys that have one.
pub open spec fn usages_of(held: Seq<u16>) -> Seq<u16>
    decreases held.len(),
{
    if held.len() == 0 {
        seq![]
    } else {
        match keys::usage_of(held.last()) {
            Some(usage) => usages_of(held.drop_last()).push(usage),
            None => usages_of(held.drop_last()),
        }
    }
}

/// The usages of the keys that are held on captured devices.
pub open spec fn remote_usages(sources: Seq<SourceView>) -> Seq<u16>
    decreases sources.len(),
{
    if sources.len() == 0 {
        seq![]
    } else if sources.last().grabbed {
        remote_usages(sources.drop_last()) + usages_of(sources.last().held)
    } else {
        remote_usages(sources.drop_last())
    }
}

/// The buttons that are down on any captured device.
pub open spec fn remote_buttons(sources: Seq<SourceView>) -> u8
    decreases sources.len(),
{
    if sources.len() == 0 {
        0
    } else if sources.last().grabbed {
        remote_buttons(sources.drop_last()) | sources.last().motion.buttons
    } else {
        remote_buttons(sources.drop_last())
    }
}

pub open spec fn other_than(code: u16) -> spec_fn(u16) -> bool {
    |k: u16| k != code
}

/// The keys that are held after one of them changed.
pub open spec fn held_after(held: Seq<u16>, code: u16, down: bool) -> Seq<u16> {
    if down {
        if held.contains(code) {
            held
        } else {
            held.push(code)
        }
    } else {
        held.filter(other_than(code))
    }
}

impl SourceView {
    /// An input device that was let go.
    pub open spec fn released(self) -> SourceView {
        SourceView {
            grabbed: false,
            held: seq![],
            motion: Motion::fresh(self.motion.range_x, self.motion.range_y),
            bins: Binning::empty(self.bins.sequence),
            ..self
        }
    }

    /// Milliseconds until a bin of a captured device is due.
    pub open spec fn wait(self, now_us: u64) -> Option<int> {
        match self.bins.pending {
            Some(pending) if self.grabbed => Some(wait_ms(pending.due_us, now_us)),
            _ => None,
        }
    }

    /// The bin that a captured device gives up.
    pub open spec fn drained(self, now_us: u64, force: bool) -> (SourceView, Option<MotionBin>) {
        if self.grabbed {
            let (bins, bin) = if force {
                self.bins.finish(now_us)
            } else {
                self.bins.take_due(now_us)
            };
            (SourceView { bins, ..self }, bin)
        } else {
            (self, None)
        }
    }
}

/// The bins that captured devices give up, in the order of the devices.
pub open spec fn ready_bins(sources: Seq<SourceView>, now_us: u64, force: bool) -> Seq<
    (u32, MotionBin),
>
    decreases sources.len(),
{
    if sources.len() == 0 {
        seq![]
    } else {
        let before = ready_bins(sources.drop_last(), now_us, force);
        match sources.last().drained(now_us, force).1 {
            Some(bin) => before.push((sources.last().id, bin)),
            None => before,
        }
    }
}

/// Earlier motion first, and the lower number first at one time.
pub open spec fn before(a: (u32, MotionBin), b: (u32, MotionBin)) -> bool {
    a.1.source_time_us < b.1.source_time_us || (a.1.source_time_us == b.1.source_time_us && a.0
        <= b.0)
}

pub open spec fn in_order(s: Seq<(u32, MotionBin)>) -> bool {
    forall|i: int, j: int| 0 <= i < j < s.len() ==> before(#[trigger] s[i], #[trigger] s[j])
}

/// `out` holds the bins that are ready, in order.
pub open spec fn is_flush(
    sources: Seq<SourceView>,
    now_us: u64,
    force: bool,
    out: Seq<(u32, MotionBin)>,
) -> bool {
    &&& out.to_multiset() == ready_bins(sources, now_us, force).to_multiset()
    &&& in_order(out)
}

impl DesktopView {
    pub open spec fn empty() -> DesktopView {
        DesktopView { sources: seq![], next_source_id: 1, mode: Mode::Local, last_buttons: 0 }
    }

    pub open spec fn distinct(self) -> bool {
        forall|i: int, j: int|
            0 <= i < j < self.sources.len() ==> #[trigger] self.sources[i].id
                != #[trigger] self.sources[j].id
    }

    pub open spec fn knows(self, id: u32) -> bool {
        exists|i: int| 0 <= i < self.sources.len() && #[trigger] self.sources[i].id == id
    }

    pub open spec fn place(self, id: u32) -> int {
        choose|i: int| 0 <= i < self.sources.len() && #[trigger] self.sources[i].id == id
    }

    pub open spec fn with(self, id: u32, source: SourceView) -> DesktopView {
        DesktopView { sources: self.sources.update(self.place(id), source), ..self }
    }

    pub open spec fn chord(self) -> bool {
        is_chord(all_held(self.sources))
    }

    pub open spec fn all_up(self) -> bool {
        forall|i: int| 0 <= i < self.sources.len() ==> (#[trigger] self.sources[i]).held.len() == 0
    }

    /// Everything on the desktop again.
    pub open spec fn release_local(self) -> DesktopView {
        DesktopView {
            sources: Seq::new(self.sources.len(), |i: int| self.sources[i].released()),
            mode: Mode::Local,
            last_buttons: 0,
            ..self
        }
    }

    /// The desktop with one more device, and what the device is known by.
    pub open spec fn joined(self, keyboard: bool, pointer: bool, range_x: i64, range_y: i64) -> (
        DesktopView,
        Option<u32>,
    ) {
        if self.next_source_id == u32::MAX {
            (self, None)
        } else {
            let source = SourceView {
                id: self.next_source_id,
                keyboard,
                pointer,
                grabbed: false,
                held: seq![],
                motion: Motion::fresh(range_x, range_y),
                bins: Binning::empty(0),
            };
            (
                DesktopView {
                    next_source_id: (self.next_source_id + 1) as u32,
                    sources: self.sources.push(source),
                    ..self
                },
                Some(self.next_source_id),
            )
        }
    }

    /// The desktop after the listed devices were captured, and whether that was enough.
    pub open spec fn activated(self, captured: Seq<u32>) -> (DesktopView, bool) {
        let grabbed = with_captured(self, captured);
        if grabbed.captures(true) && grabbed.captures(false) {
            (DesktopView { mode: Mode::Remote, last_buttons: 0, ..grabbed }, true)
        } else {
            (grabbed.release_local(), false)
        }
    }

    /// The desktop without a device.
    pub open spec fn disconnected(self, id: u32) -> DesktopView {
        let released = self.release_local();
        DesktopView { sources: released.sources.remove(self.place(id)), ..released }
    }

    pub open spec fn captures(self, keyboard: bool) -> bool {
        exists|i: int|
            0 <= i < self.sources.len() && (#[trigger] self.sources[i]).grabbed && (if keyboard {
                self.sources[i].keyboard
            } else {
                self.sources[i].pointer
            })
    }

    pub open spec fn offers(self, keyboard: bool) -> bool {
        exists|i: int|
            0 <= i < self.sources.len() && (if keyboard {
                (#[trigger] self.sources[i]).keyboard
            } else {
                self.sources[i].pointer
            })
    }

    /// A key went down or up on a device: what follows from it.
    pub open spec fn key(self, id: u32, code: u16, value: i32, after: DesktopView, r: Reaction) -> bool {
        let source = self.sources[self.place(id)];
        let pressed = self.with(
            id,
            SourceView { held: held_after(source.held, code, value != 0), ..source },
        );
        let switched = value == 1 && code == KEY_SEMICOLON && pressed.chord();
        if switched && self.mode == Mode::Local {
            after == (DesktopView { mode: Mode::Arming, ..pressed }) && r == Reaction::Nothing
        } else if switched && self.mode == Mode::Remote {
            after == (DesktopView { mode: Mode::Releasing, ..pressed }) && r
                == Reaction::ReleaseRemote
        } else if pressed.all_up() && self.mode == Mode::Arming {
            after == pressed && r == Reaction::Capture
        } else if pressed.all_up() && self.mode == Mode::Releasing {
            after == pressed.release_local() && r == Reaction::ReleaseLocal
        } else if self.mode == Mode::Remote {
            &&& after == pressed
            &&& r matches Reaction::Keyboard(report) && hid::is_keyboard_report(
                remote_usages(pressed.sources),
                report@,
            )
        } else {
            after == pressed && r == Reaction::Nothing
        }
    }

    /// An event of a device: what follows from it.
    pub open spec fn event(self, id: u32, event: Event, after: DesktopView, r: Reaction) -> bool {
        let source = self.sources[self.place(id)];
        match event.summary() {
            Summary::Synchronization { code } if code == SYN_DROPPED => after
                == self.release_local() && r == Reaction::Abandon(Notice::EventsLost),
            Summary::Key { code, value } if code < BTN_0 && value != 2 => self.key(
                id,
                code,
                value,
                after,
                r,
            ),
            _ => if self.mode == Mode::Remote && source.grabbed && source.pointer {
                let (motion, step) = source.motion.spec_update(event);
                after == self.with(id, SourceView { motion, ..source }) && r == Reaction::Pointer(
                    step,
                )
            } else {
                after == self && r == Reaction::Nothing
            },
        }
    }

    /// The devices after the bins that are ready were taken from them.
    pub open spec fn drained(self, now_us: u64, force: bool) -> DesktopView {
        if self.mode == Mode::Remote {
            DesktopView {
                sources: Seq::new(
                    self.sources.len(),
                    |i: int| self.sources[i].drained(now_us, force).0,
                ),
                ..self
            }
        } else {
            self
        }
    }

    pub open spec fn flushes(
        self,
        now_us: u64,
        force: bool,
        after: DesktopView,
        out: Seq<(u32, MotionBin)>,
    ) -> bool {
        &&& after == self.drained(now_us, force)
        &&& if self.mode == Mode::Remote {
            is_flush(self.sources, now_us, force, out)
        } else {
            out.len() == 0
        }
    }

    /// A complete pointer report of a device: what is sent. Buttons and the
    /// wheel go at once, after all motion before them; motion goes into bins.
    pub open spec fn report(
        self,
        id: u32,
        x: i32,
        y: i32,
        wheel: i32,
        time_us: u64,
        now_us: u64,
        after: DesktopView,
        sent: Seq<Sent>,
    ) -> bool {
        let buttons = remote_buttons(self.sources);
        let source = self.sources[self.place(id)];
        if buttons != self.last_buttons || wheel != 0 {
            let drained = self.drained(now_us, true);
            let held = drained.sources[drained.place(id)];
            &&& after == (DesktopView {
                last_buttons: buttons,
                ..drained.with(
                    id,
                    SourceView {
                        bins: Binning { last_time_us: Some(time_us), ..held.bins },
                        ..held
                    },
                )
            })
            &&& sent.len() > 0
            &&& sent.last() == (Sent::Mouse {
                buttons,
                dx: x,
                dy: y,
                wheel,
                source_id: id,
                source_time_us: time_us,
            })
            &&& exists|out: Seq<(u32, MotionBin)>|
                {
                    &&& #[trigger] self.flushes(now_us, true, drained, out)
                    &&& sent.drop_last() == as_sent(out)
                }
        } else if x != 0 || y != 0 {
            let (bins, bin) = source.bins.accept(x, y, time_us, now_us);
            &&& after == self.with(id, SourceView { bins, ..source })
            &&& sent == (match bin {
                Some(bin) => seq![Sent::Bin { source_id: id, bin }],
                None => seq![],
            })
        } else {
            after == self && sent.len() == 0
        }
    }

    /// The wait until a bin of a captured device is due, in milliseconds.
    pub open spec fn is_timeout(self, now_us: u64, ms: i32) -> bool {
        &&& 0 <= ms <= POLL_MS
        &&& self.mode != Mode::Remote ==> ms == POLL_MS
        &&& self.mode == Mode::Remote ==> {
            &&& forall|i: int|
                0 <= i < self.sources.len() ==> ((#[trigger] self.sources[i]).wait(now_us)
                    matches Some(wait) ==> ms <= wait)
            &&& ms < POLL_MS ==> exists|i: int|
                0 <= i < self.sources.len() && (#[trigger] self.sources[i]).wait(now_us) == Some(
                    ms as int,
                )
        }
    }
}

/// Milliseconds until `due_us`, rounded up.
pub open spec fn wait_ms(due_us: u64, now_us: u64) -> int {
    (num::larger(due_us - now_us, 0) + 999) / 1000
}

pub open spec fn as_sent(out: Seq<(u32, MotionBin)>) -> Seq<Sent> {
    out.map_values(|b: (u32, MotionBin)| Sent::Bin { source_id: b.0, bin: b.1 })
}

/// An input device.
#[derive(Debug)]
pub struct Source {
    pub id: u32,
    pub keyboard: bool,
    pub pointer: bool,
    pub grabbed: bool,
    pub held: Vec<u16>,
    pub motion: Motion,
    pub bins: MotionBins,
}

impl View for Source {
    type V = SourceView;

    open spec fn view(&self) -> SourceView {
        SourceView {
            id: self.id,
            keyboard: self.keyboard,
            pointer: self.pointer,
            grabbed: self.grabbed,
            held: self.held@,
            motion: self.motion,
            bins: self.bins@,
        }
    }
}

impl Source {
    pub open spec fn wf(self) -> bool {
        self.bins.wf()
    }

    fn release(&mut self)
        requires
            old(self).wf(),
        ensures
            final(self).wf(),
            final(self)@ == old(self)@.released(),
    {
        self.grabbed = false;
        self.held = Vec::new();
        self.motion.reset();
        self.bins.reset();
        assert(self@ =~= old(self)@.released());
    }

    fn set_key(&mut self, code: u16, down: bool)
        requires
            old(self).wf(),
        ensures
            final(self).wf(),
            final(self)@ == (SourceView {
                held: held_after(old(self)@.held, code, down),
                ..old(self)@
            }),
    {
        if down {
            if !hid::holds(self.held.as_slice(), code) {
                self.held.push(code);
            }
        } else {
            let ghost kept = other_than(code);
            let mut rest: Vec<u16> = Vec::new();
            let mut i: usize = 0;
            assert(self.held@.take(0).filter(kept) =~= rest@) by {
                reveal(Seq::filter);
            }
            while i < self.held.len()
                invariant
                    i <= self.held@.len(),
                    kept == other_than(code),
                    rest@ == self.held@.take(i as int).filter(kept),
                decreases self.held@.len() - i,
            {
                let k: u16 = self.held[i];
                proof {
                    reveal(Seq::filter);
                    assert(self.held@.take(i + 1).drop_last() =~= self.held@.take(i as int));
                }
                if k != code {
                    rest.push(k);
                }
                i = i + 1;
            }
            assert(self.held@.take(i as int) =~= self.held@);
            self.held = rest;
        }
    }
}

/// The input devices and where their input goes.
#[derive(Debug)]
pub struct Desktop {
    pub sources: Vec<Source>,
    pub next_source_id: u32,
    pub mode: Mode,
    pub last_buttons: u8,
}

impl View for Desktop {
    type V = DesktopView;

    open spec fn view(&self) -> DesktopView {
        DesktopView {
            sources: self.sources@.map_values(|s: Source| s@),
            next_source_id: self.next_source_id,
            mode: self.mode,
            last_buttons: self.last_buttons,
        }
    }
}

fn comes_before(a: (u32, MotionBin), b: (u32, MotionBin)) -> (r: bool)
    ensures
        r == before(a, b),
{
    a.1.source_time_us < b.1.source_time_us || (a.1.source_time_us == b.1.source_time_us && a.0
        <= b.0)
}

fn insert_in_order(out: &mut Vec<(u32, MotionBin)>, item: (u32, MotionBin))
    requires
        in_order(old(out)@),
    ensures
        in_order(final(out)@),
        final(out)@.to_multiset() == old(out)@.to_multiset().insert(item),
{
    let mut at: usize = 0;
    while at < out.len() && comes_before(out[at], item)
        invariant
            at <= out@.len(),
            in_order(out@),
            forall|j: int| 0 <= j < at ==> before(#[trigger] out@[j], item),
        decreases out@.len() - at,
    {
        at = at + 1;
    }
    let ghost held = out@;
    out.insert(at, item);
    proof {
        vstd::seq_lib::to_multiset_insert(held, at as int, item);
        assert forall|i: int, j: int| 0 <= i < j < out@.len() implies before(
            #[trigger] out@[i],
            #[trigger] out@[j],
        ) by {
            if j < at {
                assert(before(held[i], held[j]));
            } else if i < at && j > at {
                assert(before(held[i], held[j - 1]));
            } else if i == at {
                if j - 1 > at {
                    assert(before(held[at as int], held[j - 1]));
                }
            } else if i > at {
                assert(before(held[i - 1], held[j - 1]));
            }
        }
    }
}

impl Desktop {
    pub open spec fn wf(self) -> bool {
        &&& self@.distinct()
        &&& forall|i: int| 0 <= i < self.sources@.len() ==> (#[trigger] self.sources@[i]).wf()
        &&& forall|i: int|
            0 <= i < self.sources@.len() ==> (#[trigger] self.sources@[i]).id
                < self.next_source_id
    }

    pub fn new() -> (r: Desktop)
        ensures
            r.wf(),
            r@ == DesktopView::empty(),
    {
        let r = Desktop {
            sources: Vec::new(),
            next_source_id: 1,
            mode: Mode::Local,
            last_buttons: 0,
        };
        assert(r@ =~= DesktopView::empty());
        r
    }

    fn find(&self, id: u32) -> (r: usize)
        requires
            self.wf(),
            self@.knows(id),
        ensures
            r < self.sources@.len(),
            r == self@.place(id),
            self.sources@[r as int].id == id,
    {
        let ghost at = self@.place(id);
        assert(self.sources@[at].id == id);
        let mut i: usize = 0;
        while i < self.sources.len()
            invariant
                self.wf(),
                at == self@.place(id),
                0 <= at < self.sources@.len(),
                self.sources@[at].id == id,
                i <= at,
            decreases self.sources@.len() - i,
        {
            if self.sources[i].id == id {
                proof {
                    assert(self@.sources[i as int].id == id);
                    assert(self@.sources[at].id == id);
                }
                return i;
            }
            i = i + 1;
        }
        proof {
            assert(false);
        }
        0
    }

    /// Adds an input device, and gives its number. None where all numbers are
    /// used up.
    pub fn add_source(&mut self, keyboard: bool, pointer: bool, range_x: i64, range_y: i64) -> (r:
        Option<u32>)
        requires
            old(self).wf(),
        ensures
            final(self).wf(),
            (final(self)@, r) == old(self)@.joined(keyboard, pointer, range_x, range_y),
            old(self)@.next_source_id == u32::MAX ==> r is None && final(self)@ == old(self)@,
            old(self)@.next_source_id < u32::MAX ==> {
                let id = old(self)@.next_source_id;
                &&& r == Some(id)
                &&& final(self)@ == (DesktopView {
                    next_source_id: (id + 1) as u32,
                    sources: old(self)@.sources.push(
                        SourceView {
                            id,
                            keyboard,
                            pointer,
                            grabbed: false,
                            held: seq![],
                            motion: Motion::fresh(range_x, range_y),
                            bins: Binning::empty(0),
                        },
                    ),
                    ..old(self)@
                })
            },
    {
        let ghost was = self@;
        let id: u32 = self.next_source_id;
        match id.checked_add(1) {
            None => None,
            Some(next) => {
                self.next_source_id = next;
                let source = Source {
                    id,
                    keyboard,
                    pointer,
                    grabbed: false,
                    held: Vec::new(),
                    motion: Motion::new(range_x, range_y),
                    bins: MotionBins::new(),
                };
                let ghost added = source@;
                self.sources.push(source);
                proof {
                    assert(added.held =~= seq![]);
                    assert(self@.sources =~= was.sources.push(added));
                    assert(self@.distinct()) by {
                        assert forall|i: int, j: int| 0 <= i < j < self@.sources.len() implies #[trigger] self@.sources[i].id
                            != #[trigger] self@.sources[j].id by {
                            if j < was.sources.len() {
                                assert(was.sources[i].id != was.sources[j].id);
                            }
                        }
                    }
                }
                Some(id)
            },
        }
    }

    /// Notes whether a device could be captured.
    pub fn set_grabbed(&mut self, id: u32, grabbed: bool)
        requires
            old(self).wf(),
            old(self)@.knows(id),
        ensures
            final(self).wf(),
            final(self)@ == old(self)@.with(
                id,
                SourceView { grabbed, ..old(self)@.sources[old(self)@.place(id)] },
            ),
    {
        let ghost was = self@;
        let at: usize = self.find(id);
        self.sources[at].grabbed = grabbed;
        proof {
            let want = was.with(id, SourceView { grabbed, ..was.sources[at as int] });
            assert(self@ =~= want);
            lemma_with_distinct(was, self@);
        }
    }

    /// Whether there is a keyboard and a pointer to read.
    pub fn complete(&self) -> (r: bool)
        ensures
            r == (self@.offers(true) && self@.offers(false)),
    {
        let mut keyboard: bool = false;
        let mut pointer: bool = false;
        let mut i: usize = 0;
        while i < self.sources.len()
            invariant
                i <= self.sources@.len(),
                keyboard == exists|j: int| 0 <= j < i && (#[trigger] self@.sources[j]).keyboard,
                pointer == exists|j: int| 0 <= j < i && (#[trigger] self@.sources[j]).pointer,
            decreases self.sources@.len() - i,
        {
            let ghost here = self@.sources[i as int];
            if self.sources[i].keyboard {
                assert(here.keyboard);
                keyboard = true;
            }
            if self.sources[i].pointer {
                assert(here.pointer);
                pointer = true;
            }
            i = i + 1;
        }
        proof {
            let sources = self@.sources;
            if keyboard {
                let j = choose|j: int| 0 <= j < i && (#[trigger] sources[j]).keyboard;
                assert(sources[j].keyboard);
            }
            if pointer {
                let j = choose|j: int| 0 <= j < i && (#[trigger] sources[j]).pointer;
                assert(sources[j].pointer);
            }
        }
        keyboard && pointer
    }

    fn captures_both(&self) -> (r: bool)
        ensures
            r == (self@.captures(true) && self@.captures(false)),
    {
        let mut keyboard: bool = false;
        let mut pointer: bool = false;
        let mut i: usize = 0;
        while i < self.sources.len()
            invariant
                i <= self.sources@.len(),
                keyboard == exists|j: int|
                    0 <= j < i && (#[trigger] self@.sources[j]).grabbed && self@.sources[j].keyboard,
                pointer == exists|j: int|
                    0 <= j < i && (#[trigger] self@.sources[j]).grabbed && self@.sources[j].pointer,
            decreases self.sources@.len() - i,
        {
            let ghost here = self@.sources[i as int];
            if self.sources[i].grabbed {
                assert(here.grabbed);
                if self.sources[i].keyboard {
                    keyboard = true;
                }
                if self.sources[i].pointer {
                    pointer = true;
                }
            }
            i = i + 1;
        }
        proof {
            let sources = self@.sources;
            if keyboard {
                let j = choose|j: int|
                    0 <= j < i && (#[trigger] sources[j]).grabbed && sources[j].keyboard;
                assert(sources[j].grabbed);
            }
            if pointer {
                let j = choose|j: int|
                    0 <= j < i && (#[trigger] sources[j]).grabbed && sources[j].pointer;
                assert(sources[j].grabbed);
            }
        }
        keyboard && pointer
    }

    /// Takes everything back to the desktop.
    pub fn release_local(&mut self)
        requires
            old(self).wf(),
        ensures
            final(self).wf(),
            final(self)@ == old(self)@.release_local(),
    {
        let ghost was = self@;
        let mut i: usize = 0;
        while i < self.sources.len()
            invariant
                i <= self.sources@.len(),
                self.sources@.len() == was.sources.len(),
                self.next_source_id == was.next_source_id,
                forall|j: int|
                    0 <= j < self.sources@.len() ==> (#[trigger] self.sources@[j]).wf()
                        && self.sources@[j].id == was.sources[j].id && self.sources@[j].id
                        < self.next_source_id,
                forall|j: int|
                    0 <= j < i ==> (#[trigger] self.sources@[j])@ == was.sources[j].released(),
                forall|j: int|
                    i <= j < self.sources@.len() ==> (#[trigger] self.sources@[j])@
                        == was.sources[j],
            decreases self.sources@.len() - i,
        {
            self.sources[i].release();
            i = i + 1;
        }
        self.mode = Mode::Local;
        self.last_buttons = 0;
        proof {
            assert(self@ =~= was.release_local());
            assert forall|i: int, j: int| 0 <= i < j < self@.sources.len() implies #[trigger] self@.sources[i].id
                != #[trigger] self@.sources[j].id by {
                assert(was.sources[i].id != was.sources[j].id);
            }
        }
    }

    /// Takes the input over, where the devices with these numbers could be
    /// captured. Without a keyboard and a pointer among them, everything stays on
    /// the desktop.
    pub fn activate(&mut self, captured: &[u32]) -> (r: bool)
        requires
            old(self).wf(),
        ensures
            final(self).wf(),
            (final(self)@, r) == old(self)@.activated(captured@),
            ({
                let grabbed = with_captured(old(self)@, captured@);
                if grabbed.captures(true) && grabbed.captures(false) {
                    r && final(self)@ == (DesktopView {
                        mode: Mode::Remote,
                        last_buttons: 0,
                        ..grabbed
                    })
                } else {
                    !r && final(self)@ == grabbed.release_local()
                }
            }),
    {
        let ghost was = self@;
        let mut i: usize = 0;
        while i < self.sources.len()
            invariant
                i <= self.sources@.len(),
                self.sources@.len() == was.sources.len(),
                self.next_source_id == was.next_source_id,
                self.mode == was.mode,
                self.last_buttons == was.last_buttons,
                forall|j: int|
                    0 <= j < self.sources@.len() ==> (#[trigger] self.sources@[j]).wf()
                        && self.sources@[j].id == was.sources[j].id && self.sources@[j].id
                        < self.next_source_id,
                forall|j: int|
                    0 <= j < i ==> (#[trigger] self.sources@[j])@ == (SourceView {
                        grabbed: captured@.contains(was.sources[j].id),
                        ..was.sources[j]
                    }),
                forall|j: int|
                    i <= j < self.sources@.len() ==> (#[trigger] self.sources@[j])@
                        == was.sources[j],
            decreases self.sources@.len() - i,
        {
            let got: bool = listed(captured, self.sources[i].id);
            self.sources[i].grabbed = got;
            i = i + 1;
        }
        proof {
            assert(self@ =~= with_captured(was, captured@));
            assert forall|i: int, j: int| 0 <= i < j < self@.sources.len() implies #[trigger] self@.sources[i].id
                != #[trigger] self@.sources[j].id by {
                assert(was.sources[i].id != was.sources[j].id);
            }
        }
        if !self.captures_both() {
            self.release_local();
            return false;
        }
        self.mode = Mode::Remote;
        self.last_buttons = 0;
        true
    }

    /// A device is gone: everything goes back to the desktop.
    pub fn disconnect(&mut self, id: u32) -> (r: Reaction)
        requires
            old(self).wf(),
            old(self)@.knows(id),
        ensures
            final(self).wf(),
            final(self)@ == old(self)@.disconnected(id),
            ({
                let released = old(self)@.release_local();
                final(self)@ == (DesktopView {
                    sources: released.sources.remove(old(self)@.place(id)),
                    ..released
                })
            }),
            r == Reaction::Abandon(Notice::SourceDisconnected),
    {
        let at: usize = self.find(id);
        self.release_local();
        let ghost released = self@;
        self.sources.remove(at);
        proof {
            assert(self@.sources =~= released.sources.remove(at as int));
            assert forall|i: int, j: int| 0 <= i < j < self@.sources.len() implies #[trigger] self@.sources[i].id
                != #[trigger] self@.sources[j].id by {
                let a = if i < at {
                    i
                } else {
                    i + 1
                };
                let b = if j < at {
                    j
                } else {
                    j + 1
                };
                assert(released.sources[a].id != released.sources[b].id);
            }
        }
        Reaction::Abandon(Notice::SourceDisconnected)
    }

    fn held(&self) -> (r: Vec<u16>)
        ensures
            r@ == all_held(self@.sources),
    {
        let mut out: Vec<u16> = Vec::new();
        let mut i: usize = 0;
        let ghost sources = self@.sources;
        while i < self.sources.len()
            invariant
                i <= self.sources@.len(),
                sources == self@.sources,
                out@ == all_held(sources.take(i as int)),
            decreases self.sources@.len() - i,
        {
            proof {
                assert(sources.take(i + 1).drop_last() =~= sources.take(i as int));
            }
            out.extend_from_slice(self.sources[i].held.as_slice());
            i = i + 1;
        }
        assert(sources.take(i as int) =~= sources);
        out
    }

    fn all_up(&self) -> (r: bool)
        ensures
            r == self@.all_up(),
    {
        let mut i: usize = 0;
        while i < self.sources.len()
            invariant
                i <= self.sources@.len(),
                forall|j: int| 0 <= j < i ==> (#[trigger] self@.sources[j]).held.len() == 0,
            decreases self.sources@.len() - i,
        {
            if self.sources[i].held.len() != 0 {
                assert(self@.sources[i as int].held.len() != 0);
                return false;
            }
            i = i + 1;
        }
        true
    }

    fn usages(&self) -> (r: Vec<u16>)
        ensures
            r@ == remote_usages(self@.sources),
    {
        let mut out: Vec<u16> = Vec::new();
        let mut i: usize = 0;
        let ghost sources = self@.sources;
        while i < self.sources.len()
            invariant
                i <= self.sources@.len(),
                sources == self@.sources,
                out@ == remote_usages(sources.take(i as int)),
            decreases self.sources@.len() - i,
        {
            proof {
                assert(sources.take(i + 1).drop_last() =~= sources.take(i as int));
            }
            if self.sources[i].grabbed {
                let ghost so_far = out@;
                let ghost held = self.sources@[i as int].held@;
                let mut j: usize = 0;
                assert(so_far + usages_of(held.take(0)) =~= so_far);
                while j < self.sources[i as usize].held.len()
                    invariant
                        i < self.sources@.len(),
                        held == self.sources@[i as int].held@,
                        j <= held.len(),
                        out@ == so_far + usages_of(held.take(j as int)),
                    decreases held.len() - j,
                {
                    proof {
                        assert(held.take(j + 1).drop_last() =~= held.take(j as int));
                    }
                    if let Some(usage) = keys::usage(self.sources[i].held[j]) {
                        out.push(usage);
                        assert(out@ =~= so_far + usages_of(held.take(j as int)).push(usage));
                    }
                    j = j + 1;
                }
                assert(held.take(j as int) =~= held);
            }
            i = i + 1;
        }
        assert(sources.take(i as int) =~= sources);
        out
    }

    fn key(&mut self, id: u32, code: u16, value: i32) -> (r: Reaction)
        requires
            old(self).wf(),
            old(self)@.knows(id),
        ensures
            final(self).wf(),
            old(self)@.key(id, code, value, final(self)@, r),
    {
        let ghost was = self@;
        let at: usize = self.find(id);
        self.sources[at].set_key(code, value != 0);
        let ghost pressed = was.with(
            id,
            SourceView {
                held: held_after(was.sources[at as int].held, code, value != 0),
                ..was.sources[at as int]
            },
        );
        proof {
            assert(self@ =~= pressed);
            lemma_with_distinct(was, self@);
        }
        if value == 1 && code == KEY_SEMICOLON && chord(self.held().as_slice()) {
            match self.mode {
                Mode::Local => {
                    self.mode = Mode::Arming;
                    assert(self@ =~= (DesktopView { mode: Mode::Arming, ..pressed }));
                    return Reaction::Nothing;
                },
                Mode::Remote => {
                    self.mode = Mode::Releasing;
                    assert(self@ =~= (DesktopView { mode: Mode::Releasing, ..pressed }));
                    return Reaction::ReleaseRemote;
                },
                _ => {},
            }
        }
        if self.all_up() {
            if self.mode == Mode::Arming {
                return Reaction::Capture;
            }
            if self.mode == Mode::Releasing {
                self.release_local();
                return Reaction::ReleaseLocal;
            }
        }
        if self.mode == Mode::Remote {
            let usages: Vec<u16> = self.usages();
            return Reaction::Keyboard(keyboard_report(usages.as_slice()));
        }
        Reaction::Nothing
    }

    /// Takes in one event of a device.
    pub fn event(&mut self, id: u32, event: Event) -> (r: Reaction)
        requires
            old(self).wf(),
            old(self)@.knows(id),
        ensures
            final(self).wf(),
            old(self)@.event(id, event, final(self)@, r),
    {
        match summarize(event) {
            Summary::Synchronization { code } => {
                if code == SYN_DROPPED {
                    self.release_local();
                    return Reaction::Abandon(Notice::EventsLost);
                }
            },
            Summary::Key { code, value } => {
                if code < BTN_0 && value != 2 {
                    return self.key(id, code, value);
                }
            },
            _ => {},
        }
        let ghost was = self@;
        let at: usize = self.find(id);
        if self.mode != Mode::Remote || !self.sources[at].grabbed || !self.sources[at].pointer {
            return Reaction::Nothing;
        }
        let step: Step = self.sources[at].motion.update(event);
        proof {
            let source = was.sources[at as int];
            let motion = source.motion.spec_update(event).0;
            assert(self@ =~= was.with(id, SourceView { motion, ..source }));
            lemma_with_distinct(was, self@);
        }
        Reaction::Pointer(step)
    }

    /// The bins that are ready, earliest first: those that are due, or all with
    /// `force`.
    pub fn flush_bins(&mut self, now_us: u64, force: bool) -> (r: Vec<(u32, MotionBin)>)
        requires
            old(self).wf(),
        ensures
            final(self).wf(),
            old(self)@.flushes(now_us, force, final(self)@, r@),
    {
        let mut ready: Vec<(u32, MotionBin)> = Vec::new();
        if self.mode != Mode::Remote {
            return ready;
        }
        let ghost was = self@;
        let ghost sources = was.sources;
        let mut i: usize = 0;
        proof {
            assert(ready@ =~= ready_bins(sources.take(0), now_us, force));
        }
        while i < self.sources.len()
            invariant
                i <= self.sources@.len(),
                sources == was.sources,
                self.sources@.len() == sources.len(),
                self.next_source_id == was.next_source_id,
                self.mode == was.mode,
                self.last_buttons == was.last_buttons,
                forall|j: int|
                    0 <= j < self.sources@.len() ==> (#[trigger] self.sources@[j]).wf()
                        && self.sources@[j].id == sources[j].id && self.sources@[j].id
                        < self.next_source_id,
                forall|j: int|
                    0 <= j < i ==> (#[trigger] self.sources@[j])@ == sources[j].drained(
                        now_us,
                        force,
                    ).0,
                forall|j: int|
                    i <= j < self.sources@.len() ==> (#[trigger] self.sources@[j])@ == sources[j],
                in_order(ready@),
                ready@.to_multiset() == ready_bins(
                    sources.take(i as int),
                    now_us,
                    force,
                ).to_multiset(),
            decreases self.sources@.len() - i,
        {
            let ghost so_far = ready_bins(sources.take(i as int), now_us, force);
            proof {
                assert(sources.take(i + 1).drop_last() =~= sources.take(i as int));
                assert(self.sources@[i as int]@ == sources[i as int]);
            }
            if self.sources[i].grabbed {
                let bin: Option<MotionBin> = if force {
                    self.sources[i].bins.take_now(now_us)
                } else {
                    self.sources[i].bins.take_due(now_us)
                };
                assert(self.sources@[i as int]@ =~= sources[i as int].drained(now_us, force).0);
                if let Some(bin) = bin {
                    let id: u32 = self.sources[i].id;
                    insert_in_order(&mut ready, (id, bin));
                    proof {
                        so_far.to_multiset_ensures();
                    }
                }
            }
            i = i + 1;
        }
        proof {
            assert(sources.take(i as int) =~= sources);
            assert(self@ =~= was.drained(now_us, force));
            assert forall|i: int, j: int| 0 <= i < j < self@.sources.len() implies #[trigger] self@.sources[i].id
                != #[trigger] self@.sources[j].id by {
                assert(was.sources[i].id != was.sources[j].id);
            }
        }
        ready
    }

    fn buttons(&self) -> (r: u8)
        ensures
            r == remote_buttons(self@.sources),
    {
        let mut buttons: u8 = 0;
        let mut i: usize = 0;
        let ghost sources = self@.sources;
        while i < self.sources.len()
            invariant
                i <= self.sources@.len(),
                sources == self@.sources,
                buttons == remote_buttons(sources.take(i as int)),
            decreases self.sources@.len() - i,
        {
            proof {
                assert(sources.take(i + 1).drop_last() =~= sources.take(i as int));
            }
            if self.sources[i].grabbed {
                buttons = buttons | self.sources[i].motion.buttons;
            }
            i = i + 1;
        }
        assert(sources.take(i as int) =~= sources);
        buttons
    }

    /// Takes in a complete pointer report of a device, made at `source_time_us`,
    /// and gives what is to be sent.
    pub fn report(
        &mut self,
        id: u32,
        x: i32,
        y: i32,
        wheel: i32,
        source_time_us: u64,
        now_us: u64,
    ) -> (r: Vec<Sent>)
        requires
            old(self).wf(),
            old(self)@.knows(id),
        ensures
            final(self).wf(),
            old(self)@.report(id, x, y, wheel, source_time_us, now_us, final(self)@, r@),
    {
        let ghost was = self@;
        let at: usize = self.find(id);
        let buttons: u8 = self.buttons();
        let mut sent: Vec<Sent> = Vec::new();
        if buttons != self.last_buttons || wheel != 0 {
            let bins: Vec<(u32, MotionBin)> = self.flush_bins(now_us, true);
            let ghost drained = self@;
            let mut i: usize = 0;
            while i < bins.len()
                invariant
                    i <= bins@.len(),
                    sent@ =~= as_sent(bins@.take(i as int)),
                decreases bins@.len() - i,
            {
                sent.push(Sent::Bin { source_id: bins[i].0, bin: bins[i].1 });
                i = i + 1;
            }
            assert(bins@.take(i as int) =~= bins@);
            proof {
                assert(was.sources[at as int].id == id);
                assert(drained.sources[at as int].id == id);
                assert(drained.knows(id));
                let there = drained.place(id);
                assert(drained.sources[there].id == id);
                assert(there == at);
            }
            self.sources[at].bins.note_discrete(source_time_us);
            self.last_buttons = buttons;
            let ghost flushed = sent@;
            sent.push(
                Sent::Mouse { buttons, dx: x, dy: y, wheel, source_id: id, source_time_us },
            );
            proof {
                assert(sent@.drop_last() =~= flushed);
                assert(was.flushes(now_us, true, drained, bins@));
                let held = drained.sources[at as int];
                let want = DesktopView {
                    last_buttons: buttons,
                    ..drained.with(
                        id,
                        SourceView {
                            bins: Binning { last_time_us: Some(source_time_us), ..held.bins },
                            ..held
                        },
                    )
                };
                assert(self@ =~= want);
                lemma_with_distinct(drained, self@);
            }
        } else if x != 0 || y != 0 {
            let bin: Option<MotionBin> = self.sources[at].bins.accept(
                x,
                y,
                source_time_us,
                now_us,
            );
            proof {
                let source = was.sources[at as int];
                let bins = source.bins.accept(x, y, source_time_us, now_us).0;
                assert(self@ =~= was.with(id, SourceView { bins, ..source }));
                lemma_with_distinct(was, self@);
            }
            if let Some(bin) = bin {
                sent.push(Sent::Bin { source_id: id, bin });
            }
        }
        sent
    }

    /// How long to wait for input, in milliseconds.
    pub fn next_poll_timeout_ms(&self, now_us: u64) -> (r: i32)
        ensures
            self@.is_timeout(now_us, r),
    {
        if self.mode != Mode::Remote {
            return POLL_MS;
        }
        let mut wait: i32 = POLL_MS;
        let mut i: usize = 0;
        while i < self.sources.len()
            invariant
                i <= self.sources@.len(),
                0 <= wait <= POLL_MS,
                forall|j: int|
                    0 <= j < i ==> ((#[trigger] self@.sources[j]).wait(now_us) matches Some(
                        other,
                    ) ==> wait <= other),
                wait < POLL_MS ==> exists|j: int|
                    0 <= j < i && (#[trigger] self@.sources[j]).wait(now_us) == Some(wait as int),
            decreases self.sources@.len() - i,
        {
            let ghost here = self@.sources[i as int];
            if self.sources[i].grabbed {
                assert(here.grabbed);
                if let Some(due) = self.sources[i].bins.next_due_us() {
                    let us: u64 = due.saturating_sub(now_us);
                    let ms: u64 = us / 1000 + if us % 1000 == 0 {
                        0
                    } else {
                        1
                    };
                    assert(here.wait(now_us) == Some(ms as int));
                    if ms < wait as u64 {
                        wait = ms as i32;
                    }
                }
            }
            i = i + 1;
        }
        wait
    }
}

/// The devices with those that could be captured marked.
pub open spec fn with_captured(d: DesktopView, captured: Seq<u32>) -> DesktopView {
    DesktopView {
        sources: Seq::new(
            d.sources.len(),
            |i: int| SourceView { grabbed: captured.contains(d.sources[i].id), ..d.sources[i] },
        ),
        ..d
    }
}

fn listed(ids: &[u32], id: u32) -> (r: bool)
    ensures
        r == ids@.contains(id),
{
    let mut i: usize = 0;
    while i < ids.len()
        invariant
            i <= ids@.len(),
            forall|j: int| 0 <= j < i ==> ids@[j] != id,
        decreases ids@.len() - i,
    {
        if ids[i] == id {
            assert(ids@[i as int] == id);
            return true;
        }
        i = i + 1;
    }
    false
}

proof fn lemma_with_distinct(was: DesktopView, now: DesktopView)
    requires
        was.distinct(),
        now.sources.len() == was.sources.len(),
        forall|i: int| 0 <= i < was.sources.len() ==> (#[trigger] now.sources[i]).id == was.sources[i].id,
    ensures
        now.distinct(),
{
    assert forall|i: int, j: int| 0 <= i < j < now.sources.len() implies #[trigger] now.sources[i].id
        != #[trigger] now.sources[j].id by {
        assert(was.sources[i].id != was.sources[j].id);
    }
}

impl Notice {
    pub open spec fn message(self) -> Seq<char> {
        match self {
            Notice::SourceDisconnected => "Input source disconnected; returned to desktop."@,
            Notice::EventsLost => "Input events lost; returned to desktop."@,
            Notice::NotCapturable
                => "no capturable keyboard/pointer pair; input is still on the desktop"@,
        }
    }

    /// What the user is told.
    pub fn text(self) -> (r: &'static str)
        ensures
            r@ == self.message(),
    {
        match self {
            Notice::SourceDisconnected => "Input source disconnected; returned to desktop.",
            Notice::EventsLost => "Input events lost; returned to desktop.",
            Notice::NotCapturable
                => "no capturable keyboard/pointer pair; input is still on the desktop",
        }
    }
}

impl Sent {
    pub open spec fn spec_packet(self, control_id: u64) -> Packet {
        match self {
            Sent::Bin { source_id, bin } => Packet::MotionBin {
                source_id,
                sequence: bin.sequence,
                period_us: bin.period_us,
                source_time_us: bin.source_time_us,
                dx: bin.dx,
                dy: bin.dy,
            },
            Sent::Mouse { buttons, dx, dy, wheel, source_id, source_time_us } => Packet::Mouse {
                control_id,
                buttons,
                dx,
                dy,
                wheel,
                source_id,
                source_time_us,
            },
        }
    }

    /// The packet that carries this, under a control number where it takes one.
    pub fn packet(self, control_id: u64) -> (r: Packet)
        ensures
            r == self.spec_packet(control_id),
    {
        match self {
            Sent::Bin { source_id, bin } => Packet::MotionBin {
                source_id,
                sequence: bin.sequence,
                period_us: bin.period_us,
                source_time_us: bin.source_time_us,
                dx: bin.dx,
                dy: bin.dy,
            },
            Sent::Mouse { buttons, dx, dy, wheel, source_id, source_time_us } => Packet::Mouse {
                control_id,
                buttons,
                dx,
                dy,
                wheel,
                source_id,
                source_time_us,
            },
        }
    }
}

/// After a release nothing is captured, no key is held, no button is down, and no
/// motion waits.
pub proof fn law_release_frees_everything(d: DesktopView, i: int)
    requires
        0 <= i < d.sources.len(),
    ensures
        ({
            let after = d.release_local();
            &&& after.mode == Mode::Local
            &&& after.all_up()
            &&& after.last_buttons == 0
            &&& !after.sources[i].grabbed
            &&& after.sources[i].bins.pending is None
            &&& after.sources[i].motion.buttons == 0
            &&& after.sources[i].id == d.sources[i].id
        }),
{
}

/// Unless input is on the phone, no event sends a key or a movement.
pub proof fn law_nothing_is_sent_from_the_desktop(
    d: DesktopView,
    id: u32,
    event: Event,
    after: DesktopView,
    r: Reaction,
)
    requires
        d.mode != Mode::Remote,
        d.event(id, event, after, r),
    ensures
        !(r is Keyboard),
        !(r is Pointer),
        !(r is ReleaseRemote),
{
}

/// Input is taken over, or given back, only when every key on every device is up.
pub proof fn law_switching_waits_for_all_keys(
    d: DesktopView,
    id: u32,
    event: Event,
    after: DesktopView,
    r: Reaction,
)
    requires
        d.knows(id),
        d.event(id, event, after, r),
        r is Capture || r is ReleaseLocal,
    ensures
        after.all_up(),
        d.mode == Mode::Arming || d.mode == Mode::Releasing,
{
}

/// The chord that returns to the desktop is not sent to the phone: it releases
/// everything there instead.
pub proof fn law_chord_is_not_sent(
    d: DesktopView,
    id: u32,
    after: DesktopView,
    r: Reaction,
)
    requires
        d.mode == Mode::Remote,
        d.key(id, KEY_SEMICOLON, 1, after, r),
        after.chord(),
    ensures
        r == Reaction::ReleaseRemote,
        after.mode == Mode::Releasing,
{
}

/// Keys are tracked by device: a key on one device changes nothing of another.
pub proof fn law_devices_hold_their_own_keys(
    d: DesktopView,
    id: u32,
    code: u16,
    value: i32,
    after: DesktopView,
    r: Reaction,
    i: int,
)
    requires
        d.distinct(),
        d.knows(id),
        d.key(id, code, value, after, r),
        r != Reaction::ReleaseLocal,
        0 <= i < d.sources.len(),
        d.sources[i].id != id,
    ensures
        after.sources[i] == d.sources[i],
{
    assert(d.sources[d.place(id)].id == id);
}

/// A button or the wheel goes out after all motion that was waiting: no captured
/// device keeps a bin.
pub proof fn law_clicks_follow_all_motion(
    d: DesktopView,
    id: u32,
    x: i32,
    y: i32,
    wheel: i32,
    time_us: u64,
    now_us: u64,
    after: DesktopView,
    sent: Seq<Sent>,
    i: int,
)
    requires
        d.mode == Mode::Remote,
        d.knows(id),
        d.report(id, x, y, wheel, time_us, now_us, after, sent),
        wheel != 0 || remote_buttons(d.sources) != d.last_buttons,
        0 <= i < d.sources.len(),
        d.sources[i].grabbed,
    ensures
        sent.last() is Mouse,
        after.sources[i].bins.pending is None,
{
    let drained = d.drained(now_us, true);
    assert(d.sources[d.place(id)].id == id);
    assert(drained.sources[d.place(id)].id == id);
    let at = drained.place(id);
    assert(drained.sources[at].id == id);
    assert(drained.sources[i].bins.pending is None);
    if i == at {
        assert(after.sources[i].bins.pending == drained.sources[at].bins.pending);
    } else {
        assert(after.sources[i] == drained.sources[i]);
    }
}

/// The time between heartbeats.
pub const HEARTBEAT_US: u64 = 1_000_000;

/// The time between looks for new input devices.
pub const SCAN_US: u64 = 1_000_000;

/// Whether a heartbeat is due, this long after the last one.
pub fn heartbeat_due(elapsed_us: u64) -> (r: bool)
    ensures
        r == beats_after(elapsed_us),
        r == (elapsed_us >= HEARTBEAT_US),
{
    elapsed_us >= HEARTBEAT_US
}

/// Whether to look for new input devices, this long after the last look.
pub fn scan_due(elapsed_us: u64) -> (r: bool)
    ensures
        r == scans_after(elapsed_us),
        r == (elapsed_us >= SCAN_US),
{
    elapsed_us >= SCAN_US
}

/// Whether a button is down on a captured device.
pub open spec fn is_down(sources: Seq<SourceView>, bit: u8) -> bool {
    exists|i: int|
        0 <= i < sources.len() && (#[trigger] sources[i]).grabbed && sources[i].motion.buttons & bit
            != 0
}

proof fn lemma_remote_buttons(sources: Seq<SourceView>, bit: u8)
    ensures
        (remote_buttons(sources) & bit != 0) == is_down(sources, bit),
    decreases sources.len(),
{
    if sources.len() == 0 {
        assert(0u8 & bit == 0) by (bit_vector);
    } else {
        let before = sources.drop_last();
        lemma_remote_buttons(before, bit);
        let last = sources[sources.len() - 1];
        let (a, b) = (remote_buttons(before), last.motion.buttons);
        assert(((a | b) & bit != 0) == (a & bit != 0 || b & bit != 0)) by (bit_vector);
        if is_down(before, bit) {
            let i = choose|i: int|
                0 <= i < before.len() && (#[trigger] before[i]).grabbed && before[i].motion.buttons
                    & bit != 0;
            assert(sources[i] == before[i]);
        }
        if is_down(sources, bit) {
            let i = choose|i: int|
                0 <= i < sources.len() && (#[trigger] sources[i]).grabbed
                    && sources[i].motion.buttons & bit != 0;
            if i < before.len() {
                assert(before[i] == sources[i]);
            }
        }
    }
}

/// A complete report that turns the wheel is sent at once with exactly its wheel and its
/// movement, as the last thing; so is one after which the buttons that are down on the
/// captured devices are not those that were sent last. The buttons that it is sent with are
/// those that are down on the captured devices, and they are remembered.
pub proof fn law_clicks_and_turns_are_sent_whole(
    d: DesktopView,
    id: u32,
    x: i32,
    y: i32,
    wheel: i32,
    time_us: u64,
    now_us: u64,
    after: DesktopView,
    sent: Seq<Sent>,
    bit: u8,
)
    requires
        d.report(id, x, y, wheel, time_us, now_us, after, sent),
        wheel != 0 || (d.last_buttons & bit != 0) != is_down(d.sources, bit),
    ensures
        sent.len() > 0,
        sent.last() matches Sent::Mouse { buttons, dx, dy, wheel: turn, source_id, source_time_us }
            && {
            &&& dx == x
            &&& dy == y
            &&& turn == wheel
            &&& source_id == id
            &&& source_time_us == time_us
            &&& (buttons & bit != 0) == is_down(d.sources, bit)
            &&& after.last_buttons == buttons
        },
        forall|i: int| 0 <= i < sent.len() - 1 ==> (#[trigger] sent[i]) is Bin,
        after.mode == d.mode,
{
    lemma_remote_buttons(d.sources, bit);
    assert(remote_buttons(d.sources) != d.last_buttons || wheel != 0);
    let drained = d.drained(now_us, true);
    assert(exists|out: Seq<(u32, MotionBin)>|
        #[trigger] d.flushes(now_us, true, drained, out) && sent.drop_last() == as_sent(out));
    let out = choose|out: Seq<(u32, MotionBin)>|
        #[trigger] d.flushes(now_us, true, drained, out) && sent.drop_last() == as_sent(out);
    assert forall|i: int| 0 <= i < sent.len() - 1 implies (#[trigger] sent[i]) is Bin by {
        assert(sent.drop_last().len() == sent.len() - 1);
        assert(sent[i] == sent.drop_last()[i]);
        assert(as_sent(out).len() == out.len());
        assert(as_sent(out)[i] == (Sent::Bin { source_id: out[i].0, bin: out[i].1 }));
    }
}

/// A complete report that turns no wheel, while the buttons are those that were sent last,
/// sends no click: its movement goes into the bins of its own device, and at most one bin
/// of that device is sent. Nothing else changes.
pub proof fn law_plain_motion_is_binned(
    d: DesktopView,
    id: u32,
    x: i32,
    y: i32,
    time_us: u64,
    now_us: u64,
    after: DesktopView,
    sent: Seq<Sent>,
    i: int,
)
    requires
        d.distinct(),
        d.knows(id),
        d.report(id, x, y, 0, time_us, now_us, after, sent),
        d.last_buttons == remote_buttons(d.sources),
        0 <= i < d.sources.len(),
    ensures
        after.mode == d.mode,
        after.last_buttons == d.last_buttons,
        after.sources.len() == d.sources.len(),
        d.sources[i].id != id ==> after.sources[i] == d.sources[i],
        d.sources[i].id == id && (x != 0 || y != 0) ==> {
            let (bins, bin) = d.sources[i].bins.accept(x, y, time_us, now_us);
            &&& after.sources[i] == (SourceView { bins, ..d.sources[i] })
            &&& bin is None ==> sent.len() == 0
            &&& bin matches Some(bin) ==> sent == seq![Sent::Bin { source_id: id, bin }]
        },
        x == 0 && y == 0 ==> sent.len() == 0 && after == d,
{
    let at = d.place(id);
    assert(d.sources[at].id == id);
}

/// Whether a bin is what a device has filled: its movement on each axis up to the 32-bit
/// limits, at the time of its newest report.
pub open spec fn is_filled_by(bin: MotionBin, source: SourceView) -> bool {
    source.bins.pending matches Some(pending) && {
        &&& i32::MIN <= pending.dx <= i32::MAX ==> bin.dx == pending.dx
        &&& pending.dx > i32::MAX ==> bin.dx == i32::MAX
        &&& pending.dx < i32::MIN ==> bin.dx == i32::MIN
        &&& i32::MIN <= pending.dy <= i32::MAX ==> bin.dy == pending.dy
        &&& pending.dy > i32::MAX ==> bin.dy == i32::MAX
        &&& pending.dy < i32::MIN ==> bin.dy == i32::MIN
        &&& bin.source_time_us == pending.last_time_us
        &&& bin.period_us == pending.period_us
    }
}

/// Whether a captured device has a bin to give up: any with `force`, and otherwise one that
/// is due. A bin older than two periods is not given up.
pub open spec fn gives_up(source: SourceView, now_us: u64, force: bool) -> bool {
    &&& source.grabbed
    &&& source.bins.pending matches Some(pending) && {
        &&& force || now_us >= pending.due_us
        &&& now_us <= pending.last_time_us + 2 * (if pending.period_us > 1000 {
            pending.period_us as int
        } else {
            1000
        })
    }
}

/// Whether a bin comes from a device that has it to give up.
pub open spec fn is_given_up(
    entry: (u32, MotionBin),
    sources: Seq<SourceView>,
    now_us: u64,
    force: bool,
) -> bool {
    exists|i: int|
        0 <= i < sources.len() && (#[trigger] sources[i]).id == entry.0 && gives_up(
            sources[i],
            now_us,
            force,
        ) && is_filled_by(entry.1, sources[i])
}

/// Whether the bin of a device is among those that are given up.
pub open spec fn is_among(out: Seq<(u32, MotionBin)>, source: SourceView) -> bool {
    exists|k: int|
        0 <= k < out.len() && (#[trigger] out[k]).0 == source.id && is_filled_by(out[k].1, source)
}

proof fn lemma_ready(sources: Seq<SourceView>, now_us: u64, force: bool)
    ensures
        forall|k: int|
            0 <= k < ready_bins(sources, now_us, force).len() ==> is_given_up(
                #[trigger] ready_bins(sources, now_us, force)[k],
                sources,
                now_us,
                force,
            ),
        forall|i: int|
            0 <= i < sources.len() && gives_up(#[trigger] sources[i], now_us, force) ==> is_among(
                ready_bins(sources, now_us, force),
                sources[i],
            ),
    decreases sources.len(),
{
    if sources.len() > 0 {
        let before = sources.drop_last();
        let last = sources[sources.len() - 1];
        let some = ready_bins(before, now_us, force);
        let all = ready_bins(sources, now_us, force);
        lemma_ready(before, now_us, force);
        assert(last.drained(now_us, force).1 is Some == gives_up(last, now_us, force));
        assert forall|k: int| 0 <= k < all.len() implies is_given_up(
            #[trigger] all[k],
            sources,
            now_us,
            force,
        ) by {
            if k < some.len() {
                assert(some[k] == all[k]);
                assert(is_given_up(some[k], before, now_us, force));
                let i = choose|i: int|
                    0 <= i < before.len() && (#[trigger] before[i]).id == some[k].0 && gives_up(
                        before[i],
                        now_us,
                        force,
                    ) && is_filled_by(some[k].1, before[i]);
                assert(sources[i] == before[i]);
            } else {
                assert(sources[sources.len() - 1].id == all[k].0);
            }
        }
        assert forall|i: int| 0 <= i < sources.len() && gives_up(
            #[trigger] sources[i],
            now_us,
            force,
        ) implies is_among(all, sources[i]) by {
            if i < before.len() {
                assert(before[i] == sources[i]);
                assert(is_among(some, before[i]));
                let k = choose|k: int|
                    0 <= k < some.len() && (#[trigger] some[k]).0 == before[i].id && is_filled_by(
                        some[k].1,
                        before[i],
                    );
                assert(all[k] == some[k]);
            } else {
                assert(all[all.len() - 1].0 == sources[i].id);
            }
        }
    }
}

/// A flush gives up the bins of the captured devices that have one to give up, each with
/// what its device has filled, earlier motion first; and no others. Outside of remote
/// control nothing is given up.
pub proof fn law_flushes_give_up_what_waits(
    d: DesktopView,
    now_us: u64,
    force: bool,
    after: DesktopView,
    out: Seq<(u32, MotionBin)>,
    i: int,
    k: int,
)
    requires
        d.flushes(now_us, force, after, out),
    ensures
        d.mode != Mode::Remote ==> out.len() == 0 && after == d,
        d.mode == Mode::Remote && 0 <= i < d.sources.len() && gives_up(d.sources[i], now_us, force)
            ==> is_among(out, d.sources[i]),
        0 <= k < out.len() ==> is_given_up(out[k], d.sources, now_us, force),
        0 < k < out.len() ==> out[k - 1].1.source_time_us <= out[k].1.source_time_us,
{
    if d.mode == Mode::Remote {
        let ready = ready_bins(d.sources, now_us, force);
        lemma_ready(d.sources, now_us, force);
        out.to_multiset_ensures();
        ready.to_multiset_ensures();
        if 0 <= i < d.sources.len() && gives_up(d.sources[i], now_us, force) {
            assert(is_among(ready, d.sources[i]));
            let j = choose|j: int|
                0 <= j < ready.len() && (#[trigger] ready[j]).0 == d.sources[i].id && is_filled_by(
                    ready[j].1,
                    d.sources[i],
                );
            assert(ready.contains(ready[j]));
            assert(out.to_multiset().count(ready[j]) > 0);
            assert(out.contains(ready[j]));
            let m = choose|m: int| 0 <= m < out.len() && out[m] == ready[j];
            assert(out[m].0 == d.sources[i].id);
        }
        if 0 <= k < out.len() {
            assert(out.contains(out[k]));
            assert(ready.to_multiset().count(out[k]) > 0);
            assert(ready.contains(out[k]));
            let j = choose|j: int| 0 <= j < ready.len() && ready[j] == out[k];
            assert(ready[j] == out[k]);
        }
    }
}

/// Whether a key is held on any device.
pub open spec fn is_held(sources: Seq<SourceView>, code: u16) -> bool {
    exists|i: int| 0 <= i < sources.len() && (#[trigger] sources[i]).held.contains(code)
}

proof fn lemma_all_held(sources: Seq<SourceView>, code: u16)
    ensures
        all_held(sources).contains(code) == is_held(sources, code),
    decreases sources.len(),
{
    if sources.len() > 0 {
        let before = sources.drop_last();
        let (a, b) = (all_held(before), sources[sources.len() - 1].held);
        lemma_all_held(before, code);
        if a.contains(code) {
            let i = choose|i: int| 0 <= i < before.len() && (#[trigger] before[i]).held.contains(code);
            assert(sources[i] == before[i]);
            let j = choose|j: int| 0 <= j < a.len() && a[j] == code;
            assert((a + b)[j] == code);
        }
        if b.contains(code) {
            let j = choose|j: int| 0 <= j < b.len() && b[j] == code;
            assert((a + b)[a.len() + j] == code);
        }
        if (a + b).contains(code) {
            let j = choose|j: int| 0 <= j < (a + b).len() && (a + b)[j] == code;
            if j < a.len() {
                assert(a[j] == code);
            } else {
                assert(b[j - a.len()] == code);
            }
        }
        if is_held(sources, code) {
            let i = choose|i: int|
                0 <= i < sources.len() && (#[trigger] sources[i]).held.contains(code);
            if i < before.len() {
                assert(before[i] == sources[i]);
            }
        }
    }
}

/// Whether a usage belongs to a key that is held on a captured device.
pub open spec fn is_sent_key(sources: Seq<SourceView>, usage: u16) -> bool {
    exists|i: int, code: u16|
        0 <= i < sources.len() && (#[trigger] sources[i]).grabbed && #[trigger] sources[i].held.contains(
            code,
        ) && keys::usage_of(code) == Some(usage)
}

proof fn lemma_usages_of(held: Seq<u16>, usage: u16)
    ensures
        usages_of(held).contains(usage) == exists|code: u16| #[trigger]
            held.contains(code) && keys::usage_of(code) == Some(usage),
    decreases held.len(),
{
    if held.len() > 0 {
        let before = held.drop_last();
        let last = held[held.len() - 1];
        let some = usages_of(before);
        lemma_usages_of(before, usage);
        if some.contains(usage) {
            let code = choose|code: u16| #[trigger]
                before.contains(code) && keys::usage_of(code) == Some(usage);
            let j = choose|j: int| 0 <= j < before.len() && before[j] == code;
            assert(held[j] == code);
            assert(held.contains(code));
            let k = choose|k: int| 0 <= k < some.len() && some[k] == usage;
            assert(usages_of(held)[k] == usage);
        }
        if keys::usage_of(last) == Some(usage) {
            assert(held.contains(last));
            assert(usages_of(held)[some.len() as int] == usage);
        }
        if usages_of(held).contains(usage) {
            let k = choose|k: int| 0 <= k < usages_of(held).len() && usages_of(held)[k] == usage;
            if k < some.len() {
                assert(some[k] == usage);
            } else {
                assert(keys::usage_of(last) == Some(usage));
            }
        }
        if exists|code: u16| #[trigger]
            held.contains(code) && keys::usage_of(code) == Some(usage) {
            let code = choose|code: u16| #[trigger]
                held.contains(code) && keys::usage_of(code) == Some(usage);
            let j = choose|j: int| 0 <= j < held.len() && held[j] == code;
            if j < before.len() {
                assert(before[j] == code);
                assert(before.contains(code));
            }
        }
    }
}

proof fn lemma_remote_usages(sources: Seq<SourceView>, usage: u16)
    ensures
        remote_usages(sources).contains(usage) == is_sent_key(sources, usage),
    decreases sources.len(),
{
    if sources.len() > 0 {
        let before = sources.drop_last();
        let last = sources[sources.len() - 1];
        let (a, b) = (remote_usages(before), usages_of(last.held));
        lemma_remote_usages(before, usage);
        lemma_usages_of(last.held, usage);
        if a.contains(usage) {
            let (i, code) = choose|i: int, code: u16|
                0 <= i < before.len() && (#[trigger] before[i]).grabbed
                    && #[trigger] before[i].held.contains(code) && keys::usage_of(code) == Some(
                    usage,
                );
            assert(sources[i] == before[i]);
            assert(sources[i].held.contains(code));
            let j = choose|j: int| 0 <= j < a.len() && a[j] == usage;
            assert((a + b)[j] == usage);
        }
        if last.grabbed && b.contains(usage) {
            let code = choose|code: u16| #[trigger]
                last.held.contains(code) && keys::usage_of(code) == Some(usage);
            assert(sources[sources.len() - 1].held.contains(code));
            let j = choose|j: int| 0 <= j < b.len() && b[j] == usage;
            assert((a + b)[a.len() + j] == usage);
        }
        if last.grabbed && (a + b).contains(usage) {
            let j = choose|j: int| 0 <= j < (a + b).len() && (a + b)[j] == usage;
            if j < a.len() {
                assert(a[j] == usage);
            } else {
                assert(b[j - a.len()] == usage);
            }
        }
        if is_sent_key(sources, usage) {
            let (i, code) = choose|i: int, code: u16|
                0 <= i < sources.len() && (#[trigger] sources[i]).grabbed
                    && #[trigger] sources[i].held.contains(code) && keys::usage_of(code) == Some(
                    usage,
                );
            if i < before.len() {
                assert(before[i] == sources[i]);
                assert(before[i].held.contains(code));
            } else {
                assert(last.held.contains(code));
            }
        }
    }
}

/// What goes to the phone with a key is the report of exactly the keys that are held on
/// captured devices after it.
pub proof fn law_held_keys_go_to_the_phone(
    d: DesktopView,
    id: u32,
    code: u16,
    value: i32,
    after: DesktopView,
    report: [u8; 8],
    usages: Seq<u16>,
)
    requires
        d.key(id, code, value, after, Reaction::Keyboard(report)),
        forall|usage: u16| usages.contains(usage) <==> is_sent_key(after.sources, usage),
    ensures
        hid::is_keyboard_report(usages, report@),
        d.mode == Mode::Remote,
        after.mode == Mode::Remote,
{
    let mine = remote_usages(after.sources);
    assert forall|usage: u16| usages.contains(usage) <==> mine.contains(usage) by {
        lemma_remote_usages(after.sources, usage);
    }
    hid::lemma_report_of_a_set(mine, usages, report@);
}

/// A key that goes down is held on its own device from then on, and one that goes up is
/// not; the other keys of the device stay as they are. Only giving the input back lets go
/// of them all.
pub proof fn law_keys_are_held_while_down(
    d: DesktopView,
    id: u32,
    code: u16,
    value: i32,
    after: DesktopView,
    r: Reaction,
    other: u16,
)
    requires
        d.knows(id),
        d.key(id, code, value, after, r),
        r != Reaction::ReleaseLocal,
    ensures
        after.sources.len() == d.sources.len(),
        after.sources[d.place(id)].held.contains(code) == (value != 0),
        other != code ==> after.sources[d.place(id)].held.contains(other) == d.sources[d.place(
            id,
        )].held.contains(other),
        after.last_buttons == d.last_buttons,
{
    let at = d.place(id);
    assert(d.sources[at].id == id);
    let held = d.sources[at].held;
    let next = held_after(held, code, value != 0);
    assert(after.sources[at].held == next);
    lemma_filter_contains(held, code, other);
    lemma_filter_contains(held, code, code);
    if value != 0 && !held.contains(code) {
        assert(next[held.len() as int] == code);
        if held.contains(other) {
            let j = choose|j: int| 0 <= j < held.len() && held[j] == other;
            assert(next[j] == other);
        }
        if next.contains(other) && other != code {
            let j = choose|j: int| 0 <= j < next.len() && next[j] == other;
            assert(held[j] == other);
        }
    }
}

proof fn lemma_filter_contains(held: Seq<u16>, code: u16, other: u16)
    ensures
        held.filter(other_than(code)).contains(other) == (held.contains(other) && other != code),
    decreases held.len(),
{
    reveal(Seq::filter);
    if held.len() > 0 {
        let before = held.drop_last();
        let some = before.filter(other_than(code));
        let last = held[held.len() - 1];
        lemma_filter_contains(before, code, other);
        if before.contains(other) {
            let j = choose|j: int| 0 <= j < before.len() && before[j] == other;
            assert(held[j] == other);
        }
        if held.contains(other) {
            let j = choose|j: int| 0 <= j < held.len() && held[j] == other;
            if j < before.len() {
                assert(before[j] == other);
            }
        }
        if last != code {
            let all = some.push(last);
            assert(held.filter(other_than(code)) == all);
            assert(all[some.len() as int] == last);
            if some.contains(other) {
                let j = choose|j: int| 0 <= j < some.len() && some[j] == other;
                assert(all[j] == other);
            }
            if all.contains(other) && other != last {
                let j = choose|j: int| 0 <= j < all.len() && all[j] == other;
                assert(some[j] == other);
            }
        }
    }
}

/// Whether Control is held on any device and no other modifier on any.
pub open spec fn only_control(sources: Seq<SourceView>) -> bool {
    &&& is_held(sources, 29) || is_held(sources, 97)
    &&& !is_held(sources, 42) && !is_held(sources, 54)
    &&& !is_held(sources, 56) && !is_held(sources, 100)
    &&& !is_held(sources, 125) && !is_held(sources, 126)
}

/// The semicolon, code 39, pressed while Control and no other modifier is held on any
/// device switches the input: from the desktop it prepares for remote control, and from
/// remote control it releases everything on the phone and prepares for the desktop. No
/// other key does, and none while a switch is under way.
pub proof fn law_control_semicolon_switches(
    d: DesktopView,
    id: u32,
    code: u16,
    value: i32,
    after: DesktopView,
    r: Reaction,
)
    requires
        d.knows(id),
        d.key(id, code, value, after, r),
    ensures
        ({
            let switches = code == 39 && value == 1 && only_control(after.sources);
            &&& switches && d.mode == Mode::Local ==> after.mode == Mode::Arming && r
                == Reaction::Nothing
            &&& switches && d.mode == Mode::Remote ==> after.mode == Mode::Releasing && r
                == Reaction::ReleaseRemote
            &&& !switches && d.mode == Mode::Local ==> after.mode == Mode::Local && r
                == Reaction::Nothing
            &&& !switches && d.mode == Mode::Remote ==> after.mode == Mode::Remote && r is Keyboard
        }),
{
    let at = d.place(id);
    assert(d.sources[at].id == id);
    let held = all_held(after.sources);
    lemma_all_held(after.sources, 29);
    lemma_all_held(after.sources, 97);
    lemma_all_held(after.sources, 42);
    lemma_all_held(after.sources, 54);
    lemma_all_held(after.sources, 56);
    lemma_all_held(after.sources, 100);
    lemma_all_held(after.sources, 125);
    lemma_all_held(after.sources, 126);
    lemma_all_held(after.sources, 39);
    if code == 39 && value == 1 {
        let next = held_after(d.sources[at].held, code, true);
        assert(next.contains(39)) by {
            if !d.sources[at].held.contains(39) {
                assert(next[d.sources[at].held.len() as int] == 39);
            }
        }
        assert(after.sources[at].held == next);
        assert(is_held(after.sources, 39));
    }
}

/// A switch that was prepared is carried out with the key event after which no key is held
/// on any device, and not before.
pub proof fn law_switches_are_carried_out_when_all_keys_are_up(
    d: DesktopView,
    id: u32,
    code: u16,
    value: i32,
    after: DesktopView,
    r: Reaction,
)
    requires
        d.knows(id),
        d.key(id, code, value, after, r),
        d.mode == Mode::Arming || d.mode == Mode::Releasing,
        value == 0,
    ensures
        ({
            let last_key = is_last_key(d, d.place(id), code);
            &&& last_key && d.mode == Mode::Arming ==> r == Reaction::Capture && after.mode
                == Mode::Arming
            &&& last_key && d.mode == Mode::Releasing ==> r == Reaction::ReleaseLocal && after.mode
                == Mode::Local
            &&& !last_key ==> r == Reaction::Nothing && after.mode == d.mode
        }),
{
    let at = d.place(id);
    assert(d.sources[at].id == id);
    let held = d.sources[at].held;
    let next = held.filter(other_than(code));
    let pressed = d.with(id, SourceView { held: next, ..d.sources[at] });
    if is_last_key(d, at, code) {
        assert forall|i: int| 0 <= i < pressed.sources.len() implies (
        #[trigger] pressed.sources[i]).held.len() == 0 by {
            assert(only_holds(d.sources[i], i == at, code));
            if i == at && next.len() > 0 {
                let x = next[0];
                lemma_filter_contains(held, code, x);
                assert(next.contains(x));
                let k = choose|k: int| 0 <= k < held.len() && held[k] == x;
                assert(held[k] == code);
            }
        }
        assert(pressed.all_up());
    } else {
        let i = choose|i: int|
            0 <= i < d.sources.len() && !only_holds(#[trigger] d.sources[i], i == at, code);
        if i == at {
            let k = choose|k: int| 0 <= k < held.len() && #[trigger] held[k] != code;
            lemma_filter_contains(held, code, held[k]);
            assert(held.contains(held[k]));
            assert(next.contains(held[k]));
            assert(next.len() > 0);
        }
        assert(pressed.sources[i].held.len() > 0);
    }
}

/// Whether a device holds nothing, or nothing but one key where that is its own.
pub open spec fn only_holds(source: SourceView, own: bool, code: u16) -> bool {
    if own {
        forall|k: int| 0 <= k < source.held.len() ==> #[trigger] source.held[k] == code
    } else {
        source.held.len() == 0
    }
}

/// Whether no key is held but possibly one, on the device at a place.
pub open spec fn is_last_key(d: DesktopView, at: int, code: u16) -> bool {
    forall|i: int| 0 <= i < d.sources.len() ==> only_holds(#[trigger] d.sources[i], i == at, code)
}

/// Events of a device: key events with codes below 0x100 are keys, but for repeats; lost
/// events, kind 0 with code 3, give everything back; and every other event of a captured
/// pointer under remote control is passed on to its motion.
pub proof fn law_events_are_told_apart(
    d: DesktopView,
    id: u32,
    event: Event,
    after: DesktopView,
    r: Reaction,
)
    requires
        d.knows(id),
        d.event(id, event, after, r),
    ensures
        event.kind == 0 && event.code == 3 ==> r == Reaction::Abandon(Notice::EventsLost) && after
            == d.release_local(),
        event.kind == 1 && event.code < 0x100 && event.value != 2 ==> d.key(
            id,
            event.code,
            event.value,
            after,
            r,
        ),
        !(event.kind == 0 && event.code == 3) && !(event.kind == 1 && event.code < 0x100
            && event.value != 2) ==> {
            let source = d.sources[d.place(id)];
            let passed = d.mode == Mode::Remote && source.grabbed && source.pointer;
            &&& passed ==> r == Reaction::Pointer(source.motion.spec_update(event).1)
                && after.sources[d.place(id)].motion == source.motion.spec_update(event).0
            &&& !passed ==> r == Reaction::Nothing && after == d
            &&& after.mode == d.mode
        },
{
    assert(d.sources[d.place(id)].id == id);
}

/// A packet carries what is sent, field by field.
pub proof fn law_packets_carry_what_is_sent(sent: Sent, control_id: u64)
    ensures
        sent matches Sent::Mouse { buttons, dx, dy, wheel, source_id, source_time_us } ==> (
        sent.spec_packet(control_id) matches Packet::Mouse {
            control_id: c,
            buttons: b,
            dx: x,
            dy: y,
            wheel: w,
            source_id: i,
            source_time_us: t,
        } && c == control_id && b == buttons && x == dx && y == dy && w == wheel && i == source_id
            && t == source_time_us),
        sent matches Sent::Bin { source_id, bin } ==> (sent.spec_packet(
            control_id,
        ) matches Packet::MotionBin {
            source_id: i,
            sequence: s,
            period_us: p,
            source_time_us: t,
            dx: x,
            dy: y,
        } && i == source_id && s == bin.sequence && p == bin.period_us && t == bin.source_time_us
            && x == bin.dx && y == bin.dy),
{
}

/// The wait for input ends no later than 25 ms from now, no more than a millisecond after
/// the first bin of a captured device is due, and not before.
pub proof fn law_waits_end_when_bins_are_due(d: DesktopView, now_us: u64, ms: i32, i: int)
    requires
        d.mode == Mode::Remote,
        d.is_timeout(now_us, ms),
    ensures
        0 <= ms <= 25,
        0 <= i < d.sources.len() && d.sources[i].grabbed && d.sources[i].bins.pending is Some ==> {
            let due = d.sources[i].bins.pending->0.due_us;
            due >= now_us ==> 1000 * ms < (due - now_us) + 1000
        },
        0 <= i < d.sources.len() && d.sources[i].grabbed && d.sources[i].bins.pending is Some
            && d.sources[i].bins.pending->0.due_us <= now_us ==> ms == 0,
        ms < 25 ==> exists|k: int|
            0 <= k < d.sources.len() && (#[trigger] d.sources[k]).grabbed && (
            d.sources[k].bins.pending matches Some(pending) && pending.due_us <= now_us + 1000 * ms),
{
    if ms < 25 {
        let k = choose|k: int|
            0 <= k < d.sources.len() && (#[trigger] d.sources[k]).wait(now_us) == Some(ms as int);
        assert(d.sources[k].grabbed);
    }
}

/// Exactly the devices with the listed numbers are captured; everything else of them stays.
pub proof fn law_listed_devices_are_captured(d: DesktopView, captured: Seq<u32>, i: int)
    requires
        0 <= i < d.sources.len(),
    ensures
        ({
            let after = with_captured(d, captured);
            &&& after.sources.len() == d.sources.len()
            &&& after.sources[i].grabbed <==> captured.contains(d.sources[i].id)
            &&& after.sources[i] == (SourceView {
                grabbed: after.sources[i].grabbed,
                ..d.sources[i]
            })
            &&& after.mode == d.mode
        }),
{
}

/// Input can be taken over only with a captured keyboard and a captured pointer, which
/// may be one device.
pub proof fn law_capture_needs_keyboard_and_pointer(d: DesktopView, i: int)
    ensures
        d.captures(true) ==> exists|k: int|
            0 <= k < d.sources.len() && (#[trigger] d.sources[k]).grabbed && d.sources[k].keyboard,
        d.captures(false) ==> exists|k: int|
            0 <= k < d.sources.len() && (#[trigger] d.sources[k]).grabbed && d.sources[k].pointer,
        0 <= i < d.sources.len() && d.sources[i].grabbed && d.sources[i].keyboard ==> d.captures(
            true,
        ),
        0 <= i < d.sources.len() && d.sources[i].grabbed && d.sources[i].pointer ==> d.captures(
            false,
        ),
        0 <= i < d.sources.len() && d.sources[i].keyboard ==> d.offers(true),
        0 <= i < d.sources.len() && d.sources[i].pointer ==> d.offers(false),
        (forall|k: int| 0 <= k < d.sources.len() ==> !(#[trigger] d.sources[k]).keyboard)
            ==> !d.offers(true),
        (forall|k: int| 0 <= k < d.sources.len() ==> !(#[trigger] d.sources[k]).pointer)
            ==> !d.offers(false),
{
    if d.captures(true) {
        let k = choose|k: int|
            0 <= k < d.sources.len() && (#[trigger] d.sources[k]).grabbed && d.sources[k].keyboard;
        assert(d.sources[k].grabbed);
    }
    if d.captures(false) {
        let k = choose|k: int|
            0 <= k < d.sources.len() && (#[trigger] d.sources[k]).grabbed && d.sources[k].pointer;
        assert(d.sources[k].grabbed);
    }
}

/// Whether the agent is told again, after so long, that the desktop is there.
pub open spec fn beats_after(elapsed_us: u64) -> bool {
    elapsed_us >= HEARTBEAT_US
}

/// Whether devices are looked for again after so long.
pub open spec fn scans_after(elapsed_us: u64) -> bool {
    elapsed_us >= SCAN_US
}

/// The agent hears from the desktop every second, and devices are looked for as often.
pub proof fn law_heartbeats_come_every_second(elapsed_us: u64)
    ensures
        beats_after(elapsed_us) <==> elapsed_us >= 1_000_000,
        scans_after(elapsed_us) <==> elapsed_us >= 1_000_000,
{
}

/// A device that joins is known by a number that no device had before, with what it can do,
/// and changes nothing about the others.
pub proof fn law_joining_devices_get_new_numbers(
    d: DesktopView,
    keyboard: bool,
    pointer: bool,
    range_x: i64,
    range_y: i64,
    i: int,
)
    requires
        d.next_source_id < u32::MAX,
        0 <= i < d.sources.len() ==> d.sources[i].id < d.next_source_id,
    ensures
        ({
            let (after, id) = d.joined(keyboard, pointer, range_x, range_y);
            let last = after.sources.last();
            &&& after.sources.len() == d.sources.len() + 1
            &&& id == Some(last.id)
            &&& last.keyboard == keyboard
            &&& last.pointer == pointer
            &&& !last.grabbed
            &&& last.held.len() == 0
            &&& last.motion.range_x == range_x
            &&& last.motion.range_y == range_y
            &&& last.id < after.next_source_id
            &&& 0 <= i < d.sources.len() ==> after.sources[i] == d.sources[i] && d.sources[i].id
                != last.id
            &&& after.mode == d.mode
        }),
{
}

/// Input goes to the phone once a keyboard and a pointer are captured; if either is missing
/// nothing stays captured, and input stays here.
pub proof fn law_capture_is_all_or_nothing(d: DesktopView, captured: Seq<u32>, i: int)
    ensures
        ({
            let (after, done) = d.activated(captured);
            &&& after.sources.len() == d.sources.len()
            &&& done ==> after.mode == Mode::Remote && after.last_buttons == 0
            &&& !done ==> after.mode == Mode::Local
            &&& 0 <= i < d.sources.len() && done ==> (after.sources[i].grabbed
                <==> captured.contains(d.sources[i].id)) && after.sources[i].held
                == d.sources[i].held
            &&& 0 <= i < d.sources.len() && !done ==> !after.sources[i].grabbed
                && after.sources[i].held.len() == 0
            &&& 0 <= i < d.sources.len() ==> after.sources[i].id == d.sources[i].id
            &&& done <==> (exists|k: int|
                0 <= k < d.sources.len() && (#[trigger] d.sources[k]).keyboard && captured.contains(
                    d.sources[k].id,
                )) && (exists|k: int|
                0 <= k < d.sources.len() && (#[trigger] d.sources[k]).pointer && captured.contains(
                    d.sources[k].id,
                ))
        }),
{
    let grabbed = with_captured(d, captured);
    if grabbed.captures(true) {
        let k = choose|k: int|
            0 <= k < grabbed.sources.len() && (#[trigger] grabbed.sources[k]).grabbed
                && grabbed.sources[k].keyboard;
        assert(d.sources[k].keyboard);
    }
    if grabbed.captures(false) {
        let k = choose|k: int|
            0 <= k < grabbed.sources.len() && (#[trigger] grabbed.sources[k]).grabbed
                && grabbed.sources[k].pointer;
        assert(d.sources[k].pointer);
    }
    if exists|k: int|
        0 <= k < d.sources.len() && (#[trigger] d.sources[k]).keyboard && captured.contains(
            d.sources[k].id,
        ) {
        let k = choose|k: int|
            0 <= k < d.sources.len() && (#[trigger] d.sources[k]).keyboard && captured.contains(
                d.sources[k].id,
            );
        assert(grabbed.sources[k].grabbed);
    }
    if exists|k: int|
        0 <= k < d.sources.len() && (#[trigger] d.sources[k]).pointer && captured.contains(
            d.sources[k].id,
        ) {
        let k = choose|k: int|
            0 <= k < d.sources.len() && (#[trigger] d.sources[k]).pointer && captured.contains(
                d.sources[k].id,
            );
        assert(grabbed.sources[k].grabbed);
    }
}

/// A device that goes away is known no more; the others stay, and nothing is held or captured
/// any longer.
pub proof fn law_leaving_devices_release_everything(d: DesktopView, id: u32, i: int)
    requires
        d.distinct(),
        d.knows(id),
        0 <= i < d.sources.len(),
    ensures
        ({
            let after = d.disconnected(id);
            &&& after.mode == Mode::Local
            &&& !after.knows(id)
            &&& d.sources[i].id != id ==> after.knows(d.sources[i].id)
            &&& after.sources.len() == d.sources.len() - 1
            &&& forall|k: int|
                0 <= k < after.sources.len() ==> !(#[trigger] after.sources[k]).grabbed
                    && after.sources[k].held.len() == 0
            &&& after.next_source_id == d.next_source_id
        }),
{
    let at = d.place(id);
    let k = choose|k: int| 0 <= k < d.sources.len() && #[trigger] d.sources[k].id == id;
    assert(d.sources[k].id == id);
    assert(0 <= at < d.sources.len() && d.sources[at].id == id);
    let after = d.disconnected(id);
    if after.knows(id) {
        let j = choose|j: int| 0 <= j < after.sources.len() && #[trigger] after.sources[j].id == id;
        let was = if j < at {
            j
        } else {
            j + 1
        };
        assert(after.sources[j].id == d.sources[was].id);
        if was < at {
            assert(d.sources[was].id != d.sources[at].id);
        } else {
            assert(d.sources[at].id != d.sources[was].id);
        }
    }
    if d.sources[i].id != id {
        let now = if i < at {
            i
        } else {
            i - 1
        };
        assert(after.sources[now].id == d.sources[i].id);
    }
}

} // verus!
