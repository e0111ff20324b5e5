//! Clocks: the offset between a source's clock and the local one, and the
//! conversion of kernel timestamps to microseconds.
use crate::num::{self, saturating_mul_u64};
use crate::packet::WATCHDOG_SECS;
use std::collections::VecDeque;
use vstd::prelude::*;

verus! {

/// Offsets that the baseline remembers.
pub const CLOCK_HISTORY: usize = 16;

/// An offset is forgotten this long after it was observed.
pub const CLOCK_WINDOW_US: u64 = WATCHDOG_SECS * 1_000_000;

/// The offset of a packet: its arrival minus its source time.
pub open spec fn clock_offset(arrival_us: u64, source_time_us: u64) -> int {
    arrival_us - source_time_us
}

/// Whether an observation made at `at` is too old at `arrival_us`.
pub open spec fn expired(arrival_us: u64, at: u64) -> bool {
    arrival_us - at > CLOCK_WINDOW_US
}

/// `offsets` without its leading expired observations.
pub open spec fn pruned(offsets: Seq<(u64, i128)>, arrival_us: u64) -> Seq<(u64, i128)>
    decreases offsets.len(),
{
    if offsets.len() > 0 && expired(arrival_us, offsets[0].0) {
        pruned(offsets.drop_first(), arrival_us)
    } else {
        offsets
    }
}

/// `offsets` with one more observation, the oldest dropped where there are too many.
pub open spec fn observed(offsets: Seq<(u64, i128)>, arrival_us: u64, offset: int) -> Seq<
    (u64, i128),
> {
    let longer = offsets.push((arrival_us, offset as i128));
    if longer.len() > CLOCK_HISTORY {
        longer.drop_first()
    } else {
        longer
    }
}

/// `low` is the smallest offset, or `fallback` where there is none.
pub open spec fn is_baseline(offsets: Seq<(u64, i128)>, fallback: i128, low: i128) -> bool {
    if offsets.len() == 0 {
        low == fallback
    } else {
        &&& exists|i: int| 0 <= i < offsets.len() && #[trigger] offsets[i].1 == low
        &&& forall|i: int| 0 <= i < offsets.len() ==> low <= #[trigger] offsets[i].1
    }
}

/// What is remembered after a motion packet: it counts only where it lowers the
/// baseline, or where there was none.
pub open spec fn after_motion(
    offsets: Seq<(u64, i128)>,
    arrival_us: u64,
    offset: int,
    baseline: int,
) -> Seq<(u64, i128)> {
    let kept = pruned(offsets, arrival_us);
    if kept.len() == 0 || offset < baseline {
        observed(kept, arrival_us, offset)
    } else {
        kept
    }
}

/// The smallest recent offset between the local clock and a source's clock.
#[derive(Debug)]
pub struct ClockBaseline {
    pub offsets: VecDeque<(u64, i128)>,
}

impl View for ClockBaseline {
    type V = Seq<(u64, i128)>;

    open spec fn view(&self) -> Seq<(u64, i128)> {
        self.offsets@
    }
}

impl ClockBaseline {
    /// At most a fixed number of offsets, each a difference of two 64-bit times.
    pub open spec fn wf(self) -> bool {
        &&& self@.len() <= CLOCK_HISTORY
        &&& forall|i: int|
            0 <= i < self@.len() ==> -u64::MAX <= (#[trigger] self@[i]).1 <= u64::MAX
    }

    pub fn new() -> (r: Self)
        ensures
            r.wf(),
            r@ == Seq::<(u64, i128)>::empty(),
    {
        ClockBaseline { offsets: VecDeque::new() }
    }

    fn prune(&mut self, arrival_us: u64)
        requires
            old(self).wf(),
        ensures
            final(self).wf(),
            final(self)@ == pruned(old(self)@, arrival_us),
    {
        let ghost before = self@;
        while self.offsets.len() > 0 && arrival_us.saturating_sub(self.offsets[0].0)
            > CLOCK_WINDOW_US
            invariant
                self@.len() <= before.len(),
                self.wf(),
                pruned(self@, arrival_us) == pruned(before, arrival_us),
            decreases self@.len(),
        {
            let ghost current = self@;
            self.offsets.pop_front();
            proof {
                assert(self@ =~= current.drop_first());
            }
        }
    }

    fn baseline(&self, fallback: i128) -> (r: i128)
        ensures
            is_baseline(self@, fallback, r),
    {
        if self.offsets.len() == 0 {
            return fallback;
        }
        let mut low: i128 = self.offsets[0].1;
        let mut i: usize = 1;
        assert(self@[0].1 == low);
        while i < self.offsets.len()
            invariant
                1 <= i <= self@.len(),
                exists|j: int| 0 <= j < i && #[trigger] self@[j].1 == low,
                forall|j: int| 0 <= j < i ==> low <= #[trigger] self@[j].1,
            decreases self@.len() - i,
        {
            if self.offsets[i].1 < low {
                low = self.offsets[i].1;
                assert(self@[i as int].1 == low);
            }
            i = i + 1;
        }
        low
    }

    fn push(&mut self, arrival_us: u64, offset: i128)
        requires
            old(self).wf(),
            -u64::MAX <= offset <= u64::MAX,
        ensures
            final(self).wf(),
            final(self)@ == observed(old(self)@, arrival_us, offset as int),
    {
        let ghost before = self@;
        self.offsets.push_back((arrival_us, offset));
        if self.offsets.len() > CLOCK_HISTORY {
            let ghost longer = self@;
            self.offsets.pop_front();
            proof {
                assert(self@ =~= longer.drop_first());
            }
        }
    }

    /// Remembers the offset of a heartbeat.
    pub fn observe_heartbeat(&mut self, arrival_us: u64, source_time_us: u64)
        requires
            old(self).wf(),
        ensures
            final(self).wf(),
            final(self)@ == observed(
                pruned(old(self)@, arrival_us),
                arrival_us,
                clock_offset(arrival_us, source_time_us),
            ),
    {
        self.prune(arrival_us);
        self.push(arrival_us, arrival_us as i128 - source_time_us as i128);
    }

    /// The offset of a motion packet, and the baseline that it is held against.
    pub fn observe_motion(&mut self, arrival_us: u64, source_time_us: u64) -> (r: (i128, i128))
        requires
            old(self).wf(),
        ensures
            final(self).wf(),
            r.0 == clock_offset(arrival_us, source_time_us),
            is_baseline(pruned(old(self)@, arrival_us), r.0, r.1),
            final(self)@ == after_motion(old(self)@, arrival_us, r.0 as int, r.1 as int),
            -u64::MAX <= r.1 <= u64::MAX,
    {
        self.prune(arrival_us);
        let offset: i128 = arrival_us as i128 - source_time_us as i128;
        let baseline: i128 = self.baseline(offset);
        if self.offsets.len() == 0 || offset < baseline {
            self.push(arrival_us, offset);
        }
        (offset, baseline)
    }
}

/// Two readings of the baseline agree.
pub proof fn lemma_baseline_unique(offsets: Seq<(u64, i128)>, fallback: i128, a: i128, b: i128)
    requires
        is_baseline(offsets, fallback, a),
        is_baseline(offsets, fallback, b),
    ensures
        a == b,
{
}

/// A motion packet never raises the baseline that the next packet is held
/// against, as long as nothing has expired in between.
pub proof fn law_motion_never_raises_the_baseline(
    offsets: Seq<(u64, i128)>,
    arrival_us: u64,
    source_time_us: u64,
    before: i128,
    after: i128,
    fallback: i128,
)
    requires
        is_baseline(
            pruned(offsets, arrival_us),
            clock_offset(arrival_us, source_time_us) as i128,
            before,
        ),
        is_baseline(
            after_motion(
                offsets,
                arrival_us,
                clock_offset(arrival_us, source_time_us),
                before as int,
            ),
            fallback,
            after,
        ),
    ensures
        after <= before,
        after <= clock_offset(arrival_us, source_time_us),
{
    let kept = pruned(offsets, arrival_us);
    let offset = clock_offset(arrival_us, source_time_us);
    let new = after_motion(offsets, arrival_us, offset, before as int);
    if kept.len() == 0 || offset < before {
        assert(new[new.len() - 1].1 == offset as i128);
    }
}

/// Why an event's time cannot be used.
#[derive(Clone, Copy, Debug, PartialEq, Eq, Structural)]
pub enum ClockError {
    /// The time is beyond all that can be mapped.
    Overflow,
    /// The event is older than the local clock.
    Backwards,
    /// The event is more than a second ahead of the local clock.
    Forwards,
}

impl ClockError {
    pub open spec fn message(self) -> Seq<char> {
        match self {
            ClockError::Overflow => "evdev timestamp overflow"@,
            ClockError::Backwards => "evdev clock moved backwards"@,
            ClockError::Forwards => "evdev clock moved forwards"@,
        }
    }

    pub fn text(self) -> (r: &'static str)
        ensures
            r@ == self.message(),
    {
        match self {
            ClockError::Overflow => "evdev timestamp overflow",
            ClockError::Backwards => "evdev clock moved backwards",
            ClockError::Forwards => "evdev clock moved forwards",
        }
    }
}

/// How far an event may be ahead of the local clock, in microseconds.
pub const AHEAD_US: u64 = 1_000_000;

/// A clock reading of `seconds` and `nanos` in microseconds, saturated. None where
/// either is negative.
pub fn reading_us(seconds: i64, nanos: i64) -> (r: Option<u64>)
    ensures
        r == reading_of(seconds, nanos),
        seconds < 0 || nanos < 0 ==> r is None,
        seconds >= 0 && nanos >= 0 ==> r == Some(
            num::clamped_u64(num::clamped_u64(seconds * 1_000_000) + nanos as int / 1000),
        ),
{
    if seconds < 0 || nanos < 0 {
        return None;
    }
    let whole: u64 = saturating_mul_u64(seconds as u64, 1_000_000);
    Some(whole.saturating_add(nanos as u64 / 1000))
}

/// The offset from the local clock to another one that was read in between two
/// readings of the local clock: against their midpoint.
pub fn offset_us(before: u64, other: u64, after: u64) -> (r: i128)
    ensures
        r == offset_of(before, other, after),
        before <= after ==> r == other - (before + (after - before) / 2),
        before > after ==> r == other - before,
{
    let midpoint: u64 = before.saturating_add(after.saturating_sub(before) / 2);
    other as i128 - midpoint as i128
}

/// An event's time on the local clock, both in microseconds. `offset` is the
/// offset from the local clock to the event's clock.
pub open spec fn mapped(raw: int, offset: int, now_us: u64) -> Result<u64, ClockError> {
    if raw > i128::MAX {
        Err(ClockError::Overflow)
    } else if raw - offset < 0 || raw - offset > u64::MAX {
        Err(ClockError::Backwards)
    } else if raw - offset > now_us + AHEAD_US {
        Err(ClockError::Forwards)
    } else {
        Ok((raw - offset) as u64)
    }
}

/// An event's time on the local clock. A step of the event's clock cannot move it
/// far into the future.
pub fn event_time_us(raw: u128, offset: i128, now_us: u64) -> (r: Result<u64, ClockError>)
    ensures
        r == mapped(raw as int, offset as int, now_us),
{
    if raw > i128::MAX as u128 {
        return Err(ClockError::Overflow);
    }
    let time: i128 = match (raw as i128).checked_sub(offset) {
        Some(time) => time,
        None => return Err(ClockError::Backwards),
    };
    if time < 0 || time > u64::MAX as i128 {
        return Err(ClockError::Backwards);
    }
    if time as u64 > now_us.saturating_add(AHEAD_US) {
        return Err(ClockError::Forwards);
    }
    Ok(time as u64)
}

/// Two events keep their distance when they are mapped to the local clock.
pub proof fn law_mapping_keeps_distances(a: int, b: int, offset: int, now_us: u64)
    requires
        mapped(a, offset, now_us) is Ok,
        mapped(b, offset, now_us) is Ok,
    ensures
        mapped(a, offset, now_us)->Ok_0 - mapped(b, offset, now_us)->Ok_0 == a - b,
{
}

/// There is always a baseline.
pub proof fn lemma_baseline_exists(offsets: Seq<(u64, i128)>, fallback: i128)
    ensures
        exists|low: i128| #[trigger] is_baseline(offsets, fallback, low),
    decreases offsets.len(),
{
    if offsets.len() == 0 {
        assert(is_baseline(offsets, fallback, fallback));
    } else {
        let before = offsets.drop_last();
        let last = offsets.last().1;
        assert(offsets[offsets.len() - 1].1 == last);
        if before.len() == 0 {
            assert(is_baseline(offsets, fallback, last));
        } else {
            lemma_baseline_exists(before, fallback);
            let low = choose|low: i128| #[trigger] is_baseline(before, fallback, low);
            let i = choose|i: int| 0 <= i < before.len() && #[trigger] before[i].1 == low;
            assert(offsets[i].1 == low);
            let least = if last < low {
                last
            } else {
                low
            };
            assert forall|j: int| 0 <= j < offsets.len() implies least <= #[trigger] offsets[j].1 by {
                if j < before.len() {
                    assert(before[j].1 == offsets[j].1);
                }
            }
            assert(is_baseline(offsets, fallback, least));
        }
    }
}

/// An observation that is no older than five seconds is kept where it is observed, with
/// everything after it.
pub proof fn lemma_recent_is_kept(offsets: Seq<(u64, i128)>, arrival_us: u64, i: int)
    requires
        0 <= i < offsets.len(),
        arrival_us <= offsets[i].0 + 5_000_000,
    ensures
        exists|j: int|
            0 <= j < pruned(offsets, arrival_us).len() && #[trigger] pruned(offsets, arrival_us)[j]
                == offsets[i],
    decreases offsets.len(),
{
    if expired(arrival_us, offsets[0].0) {
        let rest = offsets.drop_first();
        lemma_recent_is_kept(rest, arrival_us, i - 1);
        let j = choose|j: int|
            0 <= j < pruned(rest, arrival_us).len() && #[trigger] pruned(rest, arrival_us)[j]
                == rest[i - 1];
        assert(pruned(offsets, arrival_us)[j] == offsets[i]);
    } else {
        assert(pruned(offsets, arrival_us)[i] == offsets[i]);
    }
}

/// A packet is held against the smallest offset of the last five seconds: none of the
/// observations from then is smaller than the baseline. Where nothing is remembered the
/// packet is its own measure.
pub proof fn law_packets_are_held_against_the_best(
    offsets: Seq<(u64, i128)>,
    arrival_us: u64,
    source_time_us: u64,
    baseline: i128,
    i: int,
)
    requires
        is_baseline(
            pruned(offsets, arrival_us),
            (arrival_us - source_time_us) as i128,
            baseline,
        ),
    ensures
        0 <= i < offsets.len() && arrival_us <= offsets[i].0 + 5_000_000 ==> baseline
            <= offsets[i].1,
        offsets.len() == 0 ==> baseline == arrival_us - source_time_us,
{
    if 0 <= i < offsets.len() && arrival_us <= offsets[i].0 + 5_000_000 {
        lemma_recent_is_kept(offsets, arrival_us, i);
    }
}

/// A heartbeat is remembered with its arrival and the time that it took by both clocks,
/// as the newest of at most sixteen observations.
pub proof fn law_heartbeats_are_remembered(
    offsets: Seq<(u64, i128)>,
    arrival_us: u64,
    source_time_us: u64,
)
    requires
        offsets.len() <= 16,
    ensures
        ({
            let after = observed(
                pruned(offsets, arrival_us),
                arrival_us,
                clock_offset(arrival_us, source_time_us),
            );
            &&& 0 < after.len() <= 16
            &&& after.last().0 == arrival_us
            &&& after.last().1 == arrival_us - source_time_us
        }),
{
    lemma_pruned_is_shorter(offsets, arrival_us);
}

proof fn lemma_pruned_is_shorter(offsets: Seq<(u64, i128)>, arrival_us: u64)
    ensures
        pruned(offsets, arrival_us).len() <= offsets.len(),
    decreases offsets.len(),
{
    if offsets.len() > 0 && expired(arrival_us, offsets[0].0) {
        lemma_pruned_is_shorter(offsets.drop_first(), arrival_us);
    }
}

/// Motion is remembered only where it was faster than everything that is remembered; it
/// then is the newest observation.
pub proof fn law_only_faster_motion_is_remembered(
    offsets: Seq<(u64, i128)>,
    arrival_us: u64,
    source_time_us: u64,
    baseline: i128,
)
    requires
        offsets.len() <= 16,
    ensures
        ({
            let offset = arrival_us - source_time_us;
            let after = after_motion(
                offsets,
                arrival_us,
                clock_offset(arrival_us, source_time_us),
                baseline as int,
            );
            let kept = pruned(offsets, arrival_us);
            &&& kept.len() > 0 && offset >= baseline ==> after == kept
            &&& kept.len() == 0 || offset < baseline ==> 0 < after.len() <= 16 && after.last().0
                == arrival_us && after.last().1 == offset
        }),
{
    lemma_pruned_is_shorter(offsets, arrival_us);
}

/// An event's time is moved by the offset between the clocks, and refused where that is
/// before the local clock began or more than a second ahead of it.
pub proof fn law_events_are_mapped_by_the_offset(raw: int, offset: int, now_us: u64)
    requires
        0 <= raw <= i128::MAX,
    ensures
        mapped(raw, offset, now_us) matches Ok(time) ==> time == raw - offset,
        mapped(raw, offset, now_us) is Ok <==> 0 <= raw - offset <= now_us + 1_000_000 && raw
            - offset <= u64::MAX,
        raw - offset < 0 ==> mapped(raw, offset, now_us) == Err::<u64, _>(ClockError::Backwards),
        now_us + 1_000_000 < raw - offset <= u64::MAX ==> mapped(raw, offset, now_us) == Err::<
            u64,
            _,
        >(ClockError::Forwards),
{
}

/// What a clock shows in microseconds, where it shows anything.
pub open spec fn reading_of(seconds: i64, nanos: i64) -> Option<u64> {
    if seconds < 0 || nanos < 0 {
        None
    } else {
        Some(num::clamped_u64(num::clamped_u64(seconds * 1_000_000) + nanos as int / 1000))
    }
}

/// How far another clock is ahead, by what it showed between two readings of this one.
pub open spec fn offset_of(before: u64, other: u64, after: u64) -> int {
    if before <= after {
        other - (before + (after - before) / 2)
    } else {
        other - before
    }
}

/// A reading counts the whole microseconds of its seconds and nanoseconds, and a clock that
/// shows less than nothing is not read.
pub proof fn law_readings_count_microseconds(seconds: i64, nanos: i64)
    ensures
        reading_of(seconds, nanos) is None <==> seconds < 0 || nanos < 0,
        0 <= seconds <= 1_000_000_000_000 && 0 <= nanos < 1_000_000_000 ==> {
            let us = reading_of(seconds, nanos)->0;
            &&& us * 1000 <= seconds * 1_000_000_000 + nanos
            &&& seconds * 1_000_000_000 + nanos < (us + 1) * 1000
        },
{
}

/// The other clock was read half way between the two readings, give or take the rounding: an
/// offset that is too large by something is too small by as much from the other side. The
/// offset is the same whatever both clocks started from.
pub proof fn law_offsets_are_taken_half_way(before: u64, other: u64, after: u64, later: u64)
    requires
        before <= after,
    ensures
        other - after <= offset_of(before, other, after) <= other - before,
        0 <= 2 * offset_of(before, other, after) - ((other - before) + (other - after)) <= 1,
        before + later <= u64::MAX && after + later <= u64::MAX && other + later <= u64::MAX
            ==> offset_of(
            (before + later) as u64,
            (other + later) as u64,
            (after + later) as u64,
        ) == offset_of(before, other, after),
{
}

/// Observations are forgotten once they are more than five seconds old, the oldest first,
/// and none before that.
pub proof fn law_old_observations_are_forgotten(
    offsets: Seq<(u64, i128)>,
    arrival_us: u64,
    i: int,
)
    ensures
        ({
            let kept = pruned(offsets, arrival_us);
            let gone = offsets.len() - kept.len();
            &&& gone >= 0
            &&& kept == offsets.skip(gone)
            &&& kept.len() > 0 ==> arrival_us <= kept[0].0 + 5_000_000
            &&& 0 <= i < gone ==> arrival_us > offsets[i].0 + 5_000_000
        }),
    decreases offsets.len(),
{
    if offsets.len() > 0 && expired(arrival_us, offsets[0].0) {
        law_old_observations_are_forgotten(offsets.drop_first(), arrival_us, i - 1);
        let kept = pruned(offsets, arrival_us);
        assert(offsets.drop_first().skip(offsets.len() - 1 - kept.len()) =~= offsets.skip(
            offsets.len() - kept.len(),
        ));
        if 0 < i < offsets.len() {
            assert(offsets.drop_first()[i - 1] == offsets[i]);
        }
    } else {
        assert(offsets.skip(0) =~= offsets);
    }
}

} // verus!
