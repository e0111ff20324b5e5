//! Accumulates pointer input until a complete report of the input device is
//! available.
use crate::num;
use evdev::{EventSummary, InputEvent};
use vstd::prelude::*;

verus! {

pub const EV_SYN: u16 = 0;

pub const EV_KEY: u16 = 1;

pub const EV_REL: u16 = 2;

pub const EV_ABS: u16 = 3;

pub const SYN_REPORT: u16 = 0;

pub const SYN_DROPPED: u16 = 3;

pub const REL_X: u16 = 0;

pub const REL_Y: u16 = 1;

pub const REL_WHEEL: u16 = 8;

pub const ABS_X: u16 = 0;

pub const ABS_Y: u16 = 1;

/// The first code that is no keyboard key.
pub const BTN_0: u16 = 0x100;

pub const BTN_LEFT: u16 = 0x110;

pub const BTN_EXTRA: u16 = 0x114;

/// An event of an input device.
#[derive(Clone, Copy, Debug, PartialEq, Eq, Structural)]
pub struct Event {
    pub kind: u16,
    pub code: u16,
    pub value: i32,
}

/// An event by its kind.
#[derive(Clone, Copy, Debug, PartialEq, Eq, Structural)]
pub enum Summary {
    Synchronization { code: u16 },
    Key { code: u16, value: i32 },
    Relative { code: u16, value: i32 },
    Absolute { code: u16, value: i32 },
    Other,
}

impl Event {
    pub open spec fn summary(self) -> Summary {
        if self.kind == EV_SYN {
            Summary::Synchronization { code: self.code }
        } else if self.kind == EV_KEY {
            Summary::Key { code: self.code, value: self.value }
        } else if self.kind == EV_REL {
            Summary::Relative { code: self.code, value: self.value }
        } else if self.kind == EV_ABS {
            Summary::Absolute { code: self.code, value: self.value }
        } else {
            Summary::Other
        }
    }
}

/// `InputEvent::destructure` of `evdev`: the event's type selects the variant,
/// which holds the event's code and value.
#[verifier::external_body]
fn destructure(event: Event) -> (r: Summary)
    ensures
        r == event.summary(),
{
    match InputEvent::new(event.kind, event.code, event.value).destructure() {
        EventSummary::Synchronization(_, code, _) => Summary::Synchronization { code: code.0 },
        EventSummary::Key(_, code, value) => Summary::Key { code: code.0, value },
        EventSummary::RelativeAxis(_, code, value) => Summary::Relative { code: code.0, value },
        EventSummary::AbsoluteAxis(_, code, value) => Summary::Absolute { code: code.0, value },
        _ => Summary::Other,
    }
}

/// The kind, code and value of an event.
pub fn summarize(event: Event) -> (r: Summary)
    ensures
        r == event.summary(),
{
    destructure(event)
}

#[derive(Clone, Copy, Debug, PartialEq, Eq, Structural)]
pub enum Axis {
    X,
    Y,
}

/// What an event adds to the motion.
#[derive(Clone, Copy, Debug, PartialEq, Eq, Structural)]
pub enum Step {
    Nothing,
    /// `value` counts along an axis.
    Relative { axis: Axis, value: i32 },
    /// `delta` out of `range` along an axis.
    Absolute { axis: Axis, delta: i64, range: i64 },
    /// The report is complete, and turned the wheel by this much.
    Report { wheel: i32 },
}

/// The pointer state of one input device, but for the fractions of its position.
#[derive(Clone, Copy, Debug, PartialEq, Eq, Structural)]
pub struct Motion {
    pub wheel: i32,
    pub buttons: u8,
    pub dirty: bool,
    pub previous_x: Option<i32>,
    pub previous_y: Option<i32>,
    pub range_x: i64,
    pub range_y: i64,
}

/// The bit of a mouse button in the report, by the event's code.
pub open spec fn button_bit(code: u16) -> u8 {
    match code {
        0x110 => 1,
        0x111 => 2,
        0x112 => 4,
        0x113 => 8,
        _ => 16,
    }
}

pub open spec fn with_button(buttons: u8, code: u16, down: bool) -> u8 {
    if down {
        buttons | button_bit(code)
    } else {
        buttons & !button_bit(code)
    }
}

impl Motion {
    pub open spec fn fresh(range_x: i64, range_y: i64) -> Motion {
        Motion {
            wheel: 0,
            buttons: 0,
            dirty: false,
            previous_x: None,
            previous_y: None,
            range_x,
            range_y,
        }
    }

    pub open spec fn spec_absolute(self, axis: Axis, value: i32) -> (Motion, Step) {
        let (previous, range) = match axis {
            Axis::X => (self.previous_x, self.range_x),
            Axis::Y => (self.previous_y, self.range_y),
        };
        let anchored = match axis {
            Axis::X => Motion { previous_x: Some(value), ..self },
            Axis::Y => Motion { previous_y: Some(value), ..self },
        };
        match previous {
            Some(before) => (
                Motion { dirty: true, ..anchored },
                Step::Absolute {
                    axis,
                    delta: (value - before) as i64,
                    range: num::larger(range as int, 1) as i64,
                },
            ),
            None => (anchored, Step::Nothing),
        }
    }

    /// The state after an event, and what the event adds to the motion.
    pub open spec fn spec_update(self, event: Event) -> (Motion, Step) {
        match event.summary() {
            Summary::Key { code, value } if BTN_LEFT <= code <= BTN_EXTRA => (
                Motion {
                    buttons: with_button(self.buttons, code, value != 0),
                    dirty: true,
                    ..self
                },
                Step::Nothing,
            ),
            Summary::Relative { code, value } => if code == REL_X {
                (Motion { dirty: true, ..self }, Step::Relative { axis: Axis::X, value })
            } else if code == REL_Y {
                (Motion { dirty: true, ..self }, Step::Relative { axis: Axis::Y, value })
            } else if code == REL_WHEEL {
                (
                    Motion { wheel: num::clamped32(self.wheel + value), dirty: true, ..self },
                    Step::Nothing,
                )
            } else {
                (self, Step::Nothing)
            },
            Summary::Absolute { code, value } => if code == ABS_X {
                self.spec_absolute(Axis::X, value)
            } else if code == ABS_Y {
                self.spec_absolute(Axis::Y, value)
            } else {
                (self, Step::Nothing)
            },
            Summary::Synchronization { code } if code == SYN_REPORT && self.dirty => (
                Motion { wheel: 0, dirty: false, ..self },
                Step::Report { wheel: self.wheel },
            ),
            _ => (self, Step::Nothing),
        }
    }

    pub fn new(range_x: i64, range_y: i64) -> (r: Motion)
        ensures
            r == Motion::fresh(range_x, range_y),
    {
        Motion {
            wheel: 0,
            buttons: 0,
            dirty: false,
            previous_x: None,
            previous_y: None,
            range_x,
            range_y,
        }
    }

    /// Forgets everything but the ranges of the axes.
    pub fn reset(&mut self)
        ensures
            *final(self) == Motion::fresh(old(self).range_x, old(self).range_y),
    {
        *self = Motion::new(self.range_x, self.range_y);
    }

    fn absolute(&mut self, axis: Axis, value: i32) -> (r: Step)
        ensures
            (*final(self), r) == old(self).spec_absolute(axis, value),
    {
        let (previous, range): (Option<i32>, i64) = match axis {
            Axis::X => (self.previous_x, self.range_x),
            Axis::Y => (self.previous_y, self.range_y),
        };
        match axis {
            Axis::X => {
                self.previous_x = Some(value);
            },
            Axis::Y => {
                self.previous_y = Some(value);
            },
        }
        match previous {
            Some(before) => {
                self.dirty = true;
                Step::Absolute {
                    axis,
                    delta: value as i64 - before as i64,
                    range: if range > 1 {
                        range
                    } else {
                        1
                    },
                }
            },
            None => Step::Nothing,
        }
    }

    /// Takes in one event.
    pub fn update(&mut self, event: Event) -> (r: Step)
        ensures
            (*final(self), r) == old(self).spec_update(event),
    {
        match summarize(event) {
            Summary::Key { code, value } => {
                if BTN_LEFT <= code && code <= BTN_EXTRA {
                    let bit: u8 = match code {
                        0x110 => 1,
                        0x111 => 2,
                        0x112 => 4,
                        0x113 => 8,
                        _ => 16,
                    };
                    if value != 0 {
                        self.buttons = self.buttons | bit;
                    } else {
                        self.buttons = self.buttons & !bit;
                    }
                    self.dirty = true;
                }
                Step::Nothing
            },
            Summary::Relative { code, value } => {
                if code == REL_X {
                    self.dirty = true;
                    Step::Relative { axis: Axis::X, value }
                } else if code == REL_Y {
                    self.dirty = true;
                    Step::Relative { axis: Axis::Y, value }
                } else {
                    if code == REL_WHEEL {
                        self.wheel = num::clamp32(self.wheel as i64 + value as i64);
                        self.dirty = true;
                    }
                    Step::Nothing
                }
            },
            Summary::Absolute { code, value } => {
                if code == ABS_X {
                    self.absolute(Axis::X, value)
                } else if code == ABS_Y {
                    self.absolute(Axis::Y, value)
                } else {
                    Step::Nothing
                }
            },
            Summary::Synchronization { code } => {
                if code == SYN_REPORT && self.dirty {
                    let wheel: i32 = self.wheel;
                    self.wheel = 0;
                    self.dirty = false;
                    Step::Report { wheel }
                } else {
                    Step::Nothing
                }
            },
            Summary::Other => Step::Nothing,
        }
    }
}

/// A button changes its own bit only: another button keeps its state, and
/// pressing and releasing a button brings its bit back.
pub proof fn law_buttons_are_independent(buttons: u8, code: u16, other: u16, down: bool)
    requires
        BTN_LEFT <= code <= BTN_EXTRA,
        BTN_LEFT <= other <= BTN_EXTRA,
    ensures
        other != code ==> with_button(buttons, code, down) & button_bit(other) == buttons
            & button_bit(other),
        (with_button(buttons, code, down) & button_bit(code) != 0) == down,
{
    let bit = button_bit(code);
    let kept = button_bit(other);
    assert((buttons | bit) & bit == bit) by (bit_vector);
    assert((buttons & !bit) & bit == 0) by (bit_vector);
    if other != code {
        assert(bit & kept == 0) by (bit_vector)
            requires
                bit == 1 || bit == 2 || bit == 4 || bit == 8 || bit == 16,
                kept == 1 || kept == 2 || kept == 4 || kept == 8 || kept == 16,
                bit != kept,
        ;
        assert((buttons | bit) & kept == buttons & kept) by (bit_vector)
            requires
                bit & kept == 0,
        ;
        assert((buttons & !bit) & kept == buttons & kept) by (bit_vector)
            requires
                bit & kept == 0,
        ;
    }
}

/// A report is made only where something changed since the last one, and the
/// next one starts over.
pub proof fn law_reports_follow_changes(m: Motion, event: Event)
    ensures
        m.spec_update(event).1 is Report ==> m.dirty && !m.spec_update(event).0.dirty
            && m.spec_update(event).0.wheel == 0,
        m.spec_update(event).1 is Report ==> m.spec_update(event).0.buttons == m.buttons,
{
}

/// The first absolute position after a reset moves nothing: it is the anchor of
/// the positions after it.
pub proof fn law_reset_reanchors(m: Motion, value: i32, axis: Axis)
    ensures
        Motion::fresh(m.range_x, m.range_y).spec_absolute(axis, value).1 == Step::Nothing,
{
}

/// What an input device can report.
#[derive(Clone, Copy, Debug, PartialEq, Eq, Structural)]
pub struct Abilities {
    pub key_a: bool,
    pub key_enter: bool,
    pub button_left: bool,
    pub relative_x: bool,
    pub relative_y: bool,
    pub absolute_x: bool,
    pub absolute_y: bool,
}

/// Whether a device is a keyboard, and whether it is a pointer. Devices are known
/// by what they can report, never by name.
pub fn capabilities(a: Abilities) -> (r: (bool, bool))
    ensures
        r == (a.is_keyboard(), a.is_pointer()),
        r.0 == (a.key_a && a.key_enter),
        r.1 == (a.button_left && ((a.relative_x && a.relative_y) || (a.absolute_x
            && a.absolute_y))),
{
    (
        a.key_a && a.key_enter,
        a.button_left && ((a.relative_x && a.relative_y) || (a.absolute_x && a.absolute_y)),
    )
}

/// Relative motion is passed on along its own axis by its own amount: event kind 2 with
/// code 0 is to the right, with code 1 down.
pub proof fn law_relative_motion_is_passed_on(m: Motion, value: i32)
    ensures
        ({
            let (after, step) = m.spec_update(Event { kind: 2, code: 0, value });
            step == (Step::Relative { axis: Axis::X, value }) && after == (Motion {
                dirty: true,
                ..m
            })
        }),
        ({
            let (after, step) = m.spec_update(Event { kind: 2, code: 1, value });
            step == (Step::Relative { axis: Axis::Y, value }) && after == (Motion {
                dirty: true,
                ..m
            })
        }),
{
}

/// Two positions on an absolute axis, event kind 3, move by the distance from the first
/// to the second, out of the range of that axis. The other axis does not matter.
pub proof fn law_positions_move_by_their_distance(m: Motion, first: i32, second: i32)
    ensures
        ({
            let (anchored, _) = m.spec_update(Event { kind: 3, code: 0, value: first });
            let (after, step) = anchored.spec_update(Event { kind: 3, code: 0, value: second });
            &&& step matches Step::Absolute { axis, delta, range } && axis == Axis::X && delta
                == second - first && range == (if m.range_x > 1 {
                m.range_x
            } else {
                1
            })
            &&& after.dirty
            &&& after.previous_y == m.previous_y
            &&& after.buttons == m.buttons
            &&& after.wheel == m.wheel
        }),
        ({
            let (anchored, _) = m.spec_update(Event { kind: 3, code: 1, value: first });
            let (after, step) = anchored.spec_update(Event { kind: 3, code: 1, value: second });
            &&& step matches Step::Absolute { axis, delta, range } && axis == Axis::Y && delta
                == second - first && range == (if m.range_y > 1 {
                m.range_y
            } else {
                1
            })
            &&& after.dirty
            &&& after.previous_x == m.previous_x
            &&& after.buttons == m.buttons
            &&& after.wheel == m.wheel
        }),
{
}

/// A position on an axis without one before it moves nothing.
pub proof fn law_first_positions_are_anchors(m: Motion, code: u16, value: i32)
    requires
        code == 0 && m.previous_x is None || code == 1 && m.previous_y is None,
    ensures
        m.spec_update(Event { kind: 3, code, value }).1 == Step::Nothing,
        m.spec_update(Event { kind: 3, code, value }).0.dirty == m.dirty,
{
}

/// The motion after some turns of the wheel, event kind 2 with code 8.
pub open spec fn after_turns(m: Motion, turns: Seq<i32>) -> Motion
    decreases turns.len(),
{
    if turns.len() == 0 {
        m
    } else {
        after_turns(m, turns.drop_last()).spec_update(
            Event { kind: 2, code: 8, value: turns.last() },
        ).0
    }
}

pub open spec fn sum_of_turns(turns: Seq<i32>) -> int
    decreases turns.len(),
{
    if turns.len() == 0 {
        0
    } else {
        sum_of_turns(turns.drop_last()) + turns.last()
    }
}

/// A complete report turns the wheel by all the turns since the report before it, where
/// no sum on the way leaves the 32-bit range.
pub proof fn law_turns_of_the_wheel_add_up(m: Motion, turns: Seq<i32>)
    requires
        m.wheel == 0,
        turns.len() > 0,
        forall|n: int|
            0 <= n <= turns.len() ==> i32::MIN <= sum_of_turns(#[trigger] turns.take(n))
                <= i32::MAX,
    ensures
        ({
            let (after, step) = after_turns(m, turns).spec_update(
                Event { kind: 0, code: 0, value: 0 },
            );
            &&& step matches Step::Report { wheel } && wheel == sum_of_turns(turns)
            &&& after == (Motion { dirty: false, ..m })
        }),
{
    lemma_turns(m, turns);
}

proof fn lemma_turns(m: Motion, turns: Seq<i32>)
    requires
        m.wheel == 0,
        forall|n: int|
            0 <= n <= turns.len() ==> i32::MIN <= sum_of_turns(#[trigger] turns.take(n))
                <= i32::MAX,
    ensures
        after_turns(m, turns).wheel == sum_of_turns(turns),
        after_turns(m, turns) == (Motion {
            wheel: after_turns(m, turns).wheel,
            dirty: m.dirty || turns.len() > 0,
            ..m
        }),
    decreases turns.len(),
{
    assert(turns.take(turns.len() as int) =~= turns);
    if turns.len() > 0 {
        let before = turns.drop_last();
        assert forall|n: int| 0 <= n <= before.len() implies i32::MIN <= sum_of_turns(
            #[trigger] before.take(n),
        ) <= i32::MAX by {
            assert(before.take(n) =~= turns.take(n));
        }
        lemma_turns(m, before);
    }
}

/// The five mouse buttons, event kind 1 from code 0x110, have the five lowest bits in
/// their order. A button's bit is set while it is down, the other bits stay, and nothing
/// moves.
pub proof fn law_buttons_have_their_bits(m: Motion, button: u16, value: i32, bit: u8)
    requires
        button == 0 && bit == 1 || button == 1 && bit == 2 || button == 2 && bit == 4 || button
            == 3 && bit == 8 || button == 4 && bit == 16,
    ensures
        ({
            let (after, step) = m.spec_update(
                Event { kind: 1, code: (0x110 + button) as u16, value },
            );
            &&& step == Step::Nothing
            &&& (after.buttons & bit != 0) == (value != 0)
            &&& after.buttons & !bit == m.buttons & !bit
            &&& after == (Motion { buttons: after.buttons, dirty: true, ..m })
        }),
{
    let b = m.buttons;
    assert((b | bit) & bit == bit) by (bit_vector);
    assert((b & !bit) & bit == 0) by (bit_vector);
    assert((b | bit) & !bit == b & !bit) by (bit_vector);
    assert((b & !bit) & !bit == b & !bit) by (bit_vector);
}

/// An event that is no motion, no button, no wheel and no end of a report changes
/// nothing.
pub proof fn law_other_events_change_nothing(m: Motion, event: Event)
    requires
        event.kind == 0 ==> event.code != 0 || !m.dirty,
        event.kind == 1 ==> event.code < 0x110 || event.code > 0x114,
        event.kind == 2 ==> event.code != 0 && event.code != 1 && event.code != 8,
        event.kind == 3 ==> event.code != 0 && event.code != 1,
    ensures
        m.spec_update(event) == (m, Step::Nothing),
{
}

impl Abilities {
    pub open spec fn is_keyboard(self) -> bool {
        self.key_a && self.key_enter
    }

    pub open spec fn is_pointer(self) -> bool {
        self.button_left && ((self.relative_x && self.relative_y) || (self.absolute_x
            && self.absolute_y))
    }
}

/// A keyboard has letters and Enter. A pointer has a left button, and moves in both
/// directions in one way or the other; one direction alone, or one of each kind, is not
/// enough.
pub proof fn law_devices_are_known_by_what_they_report(a: Abilities)
    ensures
        a.is_keyboard() <==> a.key_a && a.key_enter,
        a.is_pointer() ==> a.button_left,
        a.is_pointer() ==> a.relative_x || a.absolute_x,
        a.is_pointer() ==> a.relative_y || a.absolute_y,
        a.is_pointer() && !a.relative_x ==> a.absolute_x && a.absolute_y,
        a.is_pointer() && !a.relative_y ==> a.absolute_x && a.absolute_y,
        a.is_pointer() && !a.absolute_x ==> a.relative_x && a.relative_y,
        a.is_pointer() && !a.absolute_y ==> a.relative_x && a.relative_y,
        a.button_left && a.relative_x && a.relative_y ==> a.is_pointer(),
        a.button_left && a.absolute_x && a.absolute_y ==> a.is_pointer(),
{
}

} // verus!
