//! Bounds a source's motion to its measured report cadence before transport.
use crate::num::{self, clamp32, saturating_add64, sort};
use std::collections::VecDeque;
use vstd::prelude::*;

verus! {

/// Reports closer than this say nothing of a cadence.
pub const MIN_CADENCE_US: u64 = 100;

/// A longer gap between reports is a pause.
pub const MAX_CADENCE_US: u64 = 50_000;

/// No bin is shorter.
pub const MIN_OUTPUT_PERIOD_US: u64 = 1_000;

/// Reports closer than this, or than half a period, replace each other.
pub const MAX_CLUSTER_US: u64 = 1_000;

/// Periods that the cadence is the median of.
pub const HISTORY: usize = 9;

/// Short intervals in a row that confirm a high-rate source.
pub const FAST_CONFIRMATION: usize = 8;

#[derive(Debug, Clone, Copy, PartialEq, Eq, Structural)]
pub struct MotionBin {
    pub sequence: u64,
    pub period_us: u32,
    pub source_time_us: u64,
    pub dx: i32,
    pub dy: i32,
}

/// A bin that is being filled.
#[derive(Debug, Clone, Copy, PartialEq, Eq, Structural)]
pub struct Pending {
    pub dx: i64,
    pub dy: i64,
    pub last_dx: i32,
    pub last_dy: i32,
    pub last_time_us: u64,
    pub due_us: u64,
    pub period_us: u32,
}

/// The sequence number of the last bin, the time of the last report, the latest
/// periods and short intervals, and the bin that is being filled.
#[verifier::ext_equal]
pub struct Binning {
    pub sequence: u64,
    pub last_time_us: Option<u64>,
    pub periods: Seq<u64>,
    pub fast: Seq<u64>,
    pub pending: Option<Pending>,
}

/// At most `most` of the latest entries.
pub open spec fn bounded(s: Seq<u64>, most: int) -> Seq<u64> {
    if s.len() > most {
        s.drop_first()
    } else {
        s
    }
}

pub open spec fn after(sequence: u64) -> u64 {
    if sequence == u64::MAX {
        0
    } else {
        (sequence + 1) as u64
    }
}

/// Whether a short interval fits the run that began with `first`.
pub open spec fn steady(first: u64, dt: u64) -> bool {
    dt <= 2 * first && first <= 2 * dt
}

/// The short intervals after one more: a run of similar ones.
pub open spec fn run_with(fast: Seq<u64>, dt: u64) -> Seq<u64> {
    bounded(
        (if fast.len() > 0 && !steady(fast[0], dt) {
            seq![]
        } else {
            fast
        }).push(dt),
        FAST_CONFIRMATION as int,
    )
}

pub open spec fn output_period(period: u64) -> u64 {
    num::larger(period as int, MIN_OUTPUT_PERIOD_US as int) as u64
}

pub open spec fn late_by(now_us: u64, time_us: u64) -> int {
    num::larger(now_us - time_us, 0)
}

pub open spec fn sat(x: int) -> i64 {
    num::clamped(x, i64::MIN as int, i64::MAX as int) as i64
}

impl Pending {
    /// A bin that begins with one report.
    pub open spec fn begun(dx: i32, dy: i32, time_us: u64, length: u64, period_us: u32) -> Pending {
        Pending {
            dx: dx as i64,
            dy: dy as i64,
            last_dx: dx,
            last_dy: dy,
            last_time_us: time_us,
            due_us: num::clamped_u64(time_us + length),
            period_us,
        }
    }

    /// A bin after one more report. A report within a cluster replaces the one
    /// before it.
    pub open spec fn spec_extended(self, dx: i32, dy: i32, time_us: u64, period: u64) -> Pending {
        let clustered = late_by(time_us, self.last_time_us) < num::smaller(
            (period / 2) as int,
            MAX_CLUSTER_US as int,
        );
        Pending {
            dx: if clustered {
                sat(self.dx + (dx - self.last_dx))
            } else {
                sat(self.dx + dx)
            },
            dy: if clustered {
                sat(self.dy + (dy - self.last_dy))
            } else {
                sat(self.dy + dy)
            },
            last_dx: dx,
            last_dy: dy,
            last_time_us: time_us,
            ..self
        }
    }

    /// A bin without a cadence, which holds its newest report only.
    pub open spec fn replaced(self, dx: i32, dy: i32, time_us: u64) -> Pending {
        Pending {
            dx: dx as i64,
            dy: dy as i64,
            last_dx: dx,
            last_dy: dy,
            last_time_us: time_us,
            ..self
        }
    }
}

impl Binning {
    pub open spec fn empty(sequence: u64) -> Binning {
        Binning { sequence, last_time_us: None, periods: seq![], fast: seq![], pending: None }
    }

    pub open spec fn wf(self) -> bool {
        &&& self.periods.len() <= HISTORY
        &&& self.fast.len() <= FAST_CONFIRMATION
        &&& forall|i: int|
            0 <= i < self.periods.len() ==> MIN_CADENCE_US <= #[trigger] self.periods[i]
                <= MAX_CADENCE_US
        &&& forall|i: int|
            0 <= i < self.fast.len() ==> MIN_CADENCE_US <= #[trigger] self.fast[i]
                < MIN_OUTPUT_PERIOD_US
        &&& self.pending matches Some(pending) ==> pending.period_us == 0 || MIN_OUTPUT_PERIOD_US
            <= pending.period_us <= MAX_CADENCE_US
    }

    /// The median period, once there is one.
    pub open spec fn cadence(self) -> Option<u64> {
        if self.periods.len() == 0 {
            None
        } else {
            Some(num::median(self.periods))
        }
    }

    pub open spec fn with_period(self, interval: u64) -> Binning {
        Binning { periods: bounded(self.periods.push(interval), HISTORY as int), ..self }
    }

    /// The time since the last report.
    pub open spec fn interval(self, time_us: u64) -> Option<u64> {
        match self.last_time_us {
            Some(previous) if time_us >= previous => Some((time_us - previous) as u64),
            _ => None,
        }
    }

    /// The cadence after a report at `time_us`. A high rate takes over from a
    /// slower one only once it is confirmed, since it might be a burst.
    pub open spec fn observe_time(self, time_us: u64) -> Binning {
        let seen = Binning { last_time_us: Some(time_us), ..self };
        match self.interval(time_us) {
            None => seen,
            Some(dt) => if MIN_CADENCE_US <= dt < MIN_OUTPUT_PERIOD_US {
                let run = run_with(self.fast, dt);
                if self.cadence() matches Some(cadence) && cadence < MIN_OUTPUT_PERIOD_US {
                    Binning { fast: run, ..seen }.with_period(dt)
                } else if run.len() == FAST_CONFIRMATION {
                    Binning { fast: run, periods: run, ..seen }
                } else {
                    Binning { fast: run, ..seen }
                }
            } else if MIN_OUTPUT_PERIOD_US <= dt <= MAX_CADENCE_US {
                Binning { fast: seq![], ..seen }.with_period(dt)
            } else {
                Binning { fast: seq![], ..seen }
            },
        }
    }

    /// The next bin.
    pub open spec fn make_bin(self, period_us: u32, time_us: u64, dx: i32, dy: i32) -> (
        Binning,
        MotionBin,
    ) {
        let sequence = after(self.sequence);
        (
            Binning { sequence, ..self },
            MotionBin { sequence, period_us, source_time_us: time_us, dx, dy },
        )
    }

    /// Closes the bin that is being filled. One that is older than two periods
    /// is not sent, but its sequence number is used up.
    pub open spec fn finish(self, now_us: u64) -> (Binning, Option<MotionBin>) {
        match self.pending {
            None => (self, None),
            Some(pending) => {
                let (next, bin) = Binning { pending: None, ..self }.make_bin(
                    pending.period_us,
                    pending.last_time_us,
                    num::clamped32(pending.dx as int),
                    num::clamped32(pending.dy as int),
                );
                let fresh = late_by(now_us, pending.last_time_us) <= 2 * num::larger(
                    pending.period_us as int,
                    MIN_OUTPUT_PERIOD_US as int,
                );
                (
                    next,
                    if fresh {
                        Some(bin)
                    } else {
                        None
                    },
                )
            },
        }
    }

    pub open spec fn take_due(self, now_us: u64) -> (Binning, Option<MotionBin>) {
        if self.pending matches Some(pending) && pending.due_us <= now_us {
            self.finish(now_us)
        } else {
            (self, None)
        }
    }

    /// A report before a cadence is known. The first one is sent at once; of
    /// those that follow, the newest waits for a short slot.
    pub open spec fn bootstrap(
        self,
        interval: Option<u64>,
        dx: i32,
        dy: i32,
        time_us: u64,
        now_us: u64,
    ) -> (Binning, Option<MotionBin>) {
        match interval {
            Some(dt) if dt <= MAX_CADENCE_US => (
                Binning {
                    pending: Some(
                        match self.pending {
                            Some(pending) => pending.replaced(dx, dy, time_us),
                            None => Pending::begun(dx, dy, time_us, MIN_OUTPUT_PERIOD_US, 0),
                        },
                    ),
                    ..self
                },
                None,
            ),
            _ => {
                let (next, bin) = Binning { pending: None, ..self }.make_bin(0, time_us, dx, dy);
                (
                    next,
                    if late_by(now_us, time_us) <= MAX_CADENCE_US {
                        Some(bin)
                    } else {
                        None
                    },
                )
            },
        }
    }

    /// The bins after a source has proven a faster cadence: what was filled at
    /// the slow one is dropped, and a number is left out for it.
    pub open spec fn sped_up(self, previous: Option<u64>, period: u64) -> Binning {
        if previous matches Some(slow) && slow >= MIN_OUTPUT_PERIOD_US && period
            < MIN_OUTPUT_PERIOD_US {
            Binning { pending: None, sequence: after(self.sequence), ..self }
        } else {
            self
        }
    }

    /// A report after a pause. It starts a new stroke: what was filled before is
    /// dropped, and a number is left out to mark the break.
    pub open spec fn resumed(self, period: u64, dx: i32, dy: i32, time_us: u64, now_us: u64) -> (
        Binning,
        Option<MotionBin>,
    ) {
        let (next, bin) = Binning {
            pending: None,
            sequence: after(self.sequence),
            ..self
        }.make_bin(output_period(period) as u32, time_us, dx, dy);
        (
            next,
            if late_by(now_us, time_us) <= 2 * period {
                Some(bin)
            } else {
                None
            },
        )
    }

    /// A report at a known cadence. It closes a bin that is complete, and goes
    /// into the bin that is being filled.
    pub open spec fn filled(self, period: u64, dx: i32, dy: i32, time_us: u64, now_us: u64) -> (
        Binning,
        Option<MotionBin>,
    ) {
        let (open, completed) = if self.pending matches Some(pending) && (pending.period_us == 0
            || time_us >= pending.due_us) {
            self.finish(now_us)
        } else {
            (self, None)
        };
        (
            Binning {
                pending: Some(
                    match open.pending {
                        Some(pending) => pending.spec_extended(dx, dy, time_us, period),
                        None => Pending::begun(
                            dx,
                            dy,
                            time_us,
                            output_period(period),
                            output_period(period) as u32,
                        ),
                    },
                ),
                ..open
            },
            completed,
        )
    }

    /// Advances the source by one report. At most one bin is completed; old
    /// periods are never queued for later replay.
    pub open spec fn accept(self, dx: i32, dy: i32, time_us: u64, now_us: u64) -> (
        Binning,
        Option<MotionBin>,
    ) {
        let seen = self.observe_time(time_us);
        let interval = self.interval(time_us);
        if dx == 0 && dy == 0 {
            (seen, None)
        } else {
            match seen.cadence() {
                None => seen.bootstrap(interval, dx, dy, time_us, now_us),
                Some(period) => {
                    let ready = seen.sped_up(self.cadence(), period);
                    if interval matches Some(dt) && dt > 4 * period {
                        ready.resumed(period, dx, dy, time_us, now_us)
                    } else {
                        ready.filled(period, dx, dy, time_us, now_us)
                    }
                },
            }
        }
    }
}

/// The bins of one source.
#[derive(Debug)]
pub struct MotionBins {
    pub sequence: u64,
    pub last_time_us: Option<u64>,
    pub periods: VecDeque<u64>,
    pub fast_intervals: VecDeque<u64>,
    pub pending: Option<Pending>,
}

impl View for MotionBins {
    type V = Binning;

    open spec fn view(&self) -> Binning {
        Binning {
            sequence: self.sequence,
            last_time_us: self.last_time_us,
            periods: self.periods@,
            fast: self.fast_intervals@,
            pending: self.pending,
        }
    }
}

/// The median of periods is one of them.
proof fn lemma_cadence_range(b: Binning)
    requires
        b.wf(),
    ensures
        b.cadence() matches Some(cadence) ==> MIN_CADENCE_US <= cadence <= MAX_CADENCE_US,
{
    if b.periods.len() > 0 {
        num::lemma_ascending(b.periods);
        let middle = (b.periods.len() / 2) as int;
        assert(b.periods.contains(num::ascending(b.periods)[middle]));
    }
}

fn push_bounded(s: &mut VecDeque<u64>, x: u64, most: usize)
    requires
        old(s)@.len() <= most < usize::MAX,
    ensures
        final(s)@ == bounded(old(s)@.push(x), most as int),
        final(s)@.len() <= most || most == 0,
{
    s.push_back(x);
    if s.len() > most {
        let ghost longer = s@;
        s.pop_front();
        assert(s@ =~= longer.drop_first());
    }
}

impl MotionBins {
    pub open spec fn wf(self) -> bool {
        self@.wf()
    }

    pub fn new() -> (r: MotionBins)
        ensures
            r.wf(),
            r@ == Binning::empty(0),
    {
        let r = MotionBins {
            sequence: 0,
            last_time_us: None,
            periods: VecDeque::new(),
            fast_intervals: VecDeque::new(),
            pending: None,
        };
        assert(r@ =~= Binning::empty(0));
        r
    }

    /// Forgets everything but the sequence.
    pub fn reset(&mut self)
        ensures
            final(self).wf(),
            final(self)@ == Binning::empty(old(self)@.sequence),
    {
        let sequence: u64 = self.sequence;
        *self = MotionBins::new();
        self.sequence = sequence;
        assert(self@ =~= Binning::empty(sequence));
    }

    fn cadence_us(&self) -> (r: Option<u64>)
        requires
            self.wf(),
        ensures
            r == self@.cadence(),
            r matches Some(cadence) ==> MIN_CADENCE_US <= cadence <= MAX_CADENCE_US,
    {
        proof {
            lemma_cadence_range(self@);
        }
        if self.periods.len() == 0 {
            return None;
        }
        let mut copied: Vec<u64> = Vec::new();
        let mut i: usize = 0;
        while i < self.periods.len()
            invariant
                i <= self.periods@.len(),
                copied@ =~= self.periods@.take(i as int),
            decreases self.periods@.len() - i,
        {
            copied.push(self.periods[i]);
            i = i + 1;
        }
        assert(copied@ =~= self.periods@);
        let sorted: Vec<u64> = sort(&copied);
        Some(sorted[sorted.len() / 2])
    }

    fn push_period(&mut self, interval: u64)
        requires
            old(self).wf(),
            MIN_CADENCE_US <= interval <= MAX_CADENCE_US,
        ensures
            final(self).wf(),
            final(self)@ == old(self)@.with_period(interval),
    {
        push_bounded(&mut self.periods, interval, HISTORY);
    }

    fn push_fast(&mut self, dt: u64)
        requires
            old(self).wf(),
            MIN_CADENCE_US <= dt < MIN_OUTPUT_PERIOD_US,
        ensures
            final(self).wf(),
            final(self)@ == (Binning { fast: run_with(old(self)@.fast, dt), ..old(self)@ }),
    {
        if self.fast_intervals.len() > 0 {
            let first: u64 = self.fast_intervals[0];
            if dt > 2 * first || 2 * dt < first {
                self.fast_intervals.clear();
            }
        }
        push_bounded(&mut self.fast_intervals, dt, FAST_CONFIRMATION);
    }

    fn adopt_fast(&mut self)
        requires
            old(self).wf(),
        ensures
            final(self).wf(),
            final(self)@ == (Binning { periods: old(self)@.fast, ..old(self)@ }),
    {
        let ghost before = self@;
        self.periods.clear();
        let mut i: usize = 0;
        while i < self.fast_intervals.len()
            invariant
                i <= self.fast_intervals@.len(),
                self.fast_intervals@ == before.fast,
                before.wf(),
                self.sequence == before.sequence,
                self.last_time_us == before.last_time_us,
                self.pending == before.pending,
                self.periods@ =~= before.fast.take(i as int),
            decreases self.fast_intervals@.len() - i,
        {
            let interval: u64 = self.fast_intervals[i];
            self.periods.push_back(interval);
            i = i + 1;
        }
        assert(self.periods@ =~= before.fast);
    }

    fn observe_time(&mut self, source_time_us: u64) -> (r: Option<u64>)
        requires
            old(self).wf(),
        ensures
            final(self).wf(),
            final(self)@ == old(self)@.observe_time(source_time_us),
            r == old(self)@.interval(source_time_us),
    {
        let interval: Option<u64> = match self.last_time_us {
            Some(previous) => source_time_us.checked_sub(previous),
            None => None,
        };
        self.last_time_us = Some(source_time_us);
        if let Some(dt) = interval {
            if MIN_CADENCE_US <= dt && dt < MIN_OUTPUT_PERIOD_US {
                self.push_fast(dt);
                let quick: bool = match self.cadence_us() {
                    Some(cadence) => cadence < MIN_OUTPUT_PERIOD_US,
                    None => false,
                };
                if quick {
                    self.push_period(dt);
                } else if self.fast_intervals.len() == FAST_CONFIRMATION {
                    self.adopt_fast();
                }
            } else if MIN_OUTPUT_PERIOD_US <= dt && dt <= MAX_CADENCE_US {
                self.fast_intervals.clear();
                self.push_period(dt);
            } else {
                self.fast_intervals.clear();
            }
        }
        interval
    }

    /// Takes note of a report that is not motion.
    pub fn note_discrete(&mut self, source_time_us: u64)
        requires
            old(self).wf(),
        ensures
            final(self).wf(),
            final(self)@ == (Binning { last_time_us: Some(source_time_us), ..old(self)@ }),
    {
        self.last_time_us = Some(source_time_us);
    }

    /// When the bin that is being filled is due.
    pub fn next_due_us(&self) -> (r: Option<u64>)
        ensures
            r == (match self@.pending {
                Some(pending) => Some(pending.due_us),
                None => None,
            }),
    {
        match self.pending {
            Some(pending) => Some(pending.due_us),
            None => None,
        }
    }

    fn begin(dx: i32, dy: i32, time_us: u64, length: u64, period_us: u32) -> (r: Pending)
        ensures
            r == Pending::begun(dx, dy, time_us, length, period_us),
    {
        Pending {
            dx: dx as i64,
            dy: dy as i64,
            last_dx: dx,
            last_dy: dy,
            last_time_us: time_us,
            due_us: time_us.saturating_add(length),
            period_us,
        }
    }

    fn bootstrap(
        &mut self,
        interval: Option<u64>,
        dx: i32,
        dy: i32,
        source_time_us: u64,
        now_us: u64,
    ) -> (r: Option<MotionBin>)
        requires
            old(self).wf(),
        ensures
            final(self).wf(),
            (final(self)@, r) == old(self)@.bootstrap(interval, dx, dy, source_time_us, now_us),
    {
        let waits: bool = match interval {
            Some(dt) => dt <= MAX_CADENCE_US,
            None => false,
        };
        if !waits {
            self.pending = None;
            let bin: MotionBin = self.make_bin(0, source_time_us, dx, dy);
            return if now_us.saturating_sub(source_time_us) <= MAX_CADENCE_US {
                Some(bin)
            } else {
                None
            };
        }
        self.pending = Some(
            match self.pending {
                Some(pending) => Pending {
                    dx: dx as i64,
                    dy: dy as i64,
                    last_dx: dx,
                    last_dy: dy,
                    last_time_us: source_time_us,
                    due_us: pending.due_us,
                    period_us: pending.period_us,
                },
                None => MotionBins::begin(dx, dy, source_time_us, MIN_OUTPUT_PERIOD_US, 0),
            },
        );
        None
    }

    fn resume(
        &mut self,
        period: u64,
        dx: i32,
        dy: i32,
        source_time_us: u64,
        now_us: u64,
    ) -> (r: Option<MotionBin>)
        requires
            old(self).wf(),
            MIN_CADENCE_US <= period <= MAX_CADENCE_US,
        ensures
            final(self).wf(),
            (final(self)@, r) == old(self)@.resumed(period, dx, dy, source_time_us, now_us),
    {
        self.pending = None;
        self.sequence = self.sequence.wrapping_add(1);
        let bin: MotionBin = self.make_bin(
            if period > MIN_OUTPUT_PERIOD_US {
                period as u32
            } else {
                MIN_OUTPUT_PERIOD_US as u32
            },
            source_time_us,
            dx,
            dy,
        );
        if now_us.saturating_sub(source_time_us) <= 2 * period {
            Some(bin)
        } else {
            None
        }
    }

    fn fill(&mut self, period: u64, dx: i32, dy: i32, source_time_us: u64, now_us: u64) -> (r:
        Option<MotionBin>)
        requires
            old(self).wf(),
            MIN_CADENCE_US <= period <= MAX_CADENCE_US,
        ensures
            final(self).wf(),
            (final(self)@, r) == old(self)@.filled(period, dx, dy, source_time_us, now_us),
    {
        let complete: bool = match self.pending {
            Some(pending) => pending.period_us == 0 || source_time_us >= pending.due_us,
            None => false,
        };
        let completed: Option<MotionBin> = if complete {
            self.finish(now_us)
        } else {
            None
        };
        self.pending = Some(
            match self.pending {
                Some(pending) => MotionBins::extend(pending, dx, dy, source_time_us, period),
                None => {
                    let length: u64 = if period > MIN_OUTPUT_PERIOD_US {
                        period
                    } else {
                        MIN_OUTPUT_PERIOD_US
                    };
                    MotionBins::begin(dx, dy, source_time_us, length, length as u32)
                },
            },
        );
        completed
    }

    fn extend(pending: Pending, dx: i32, dy: i32, source_time_us: u64, period: u64) -> (r: Pending)
        ensures
            r == pending.spec_extended(dx, dy, source_time_us, period),
    {
        let limit: u64 = if period / 2 < MAX_CLUSTER_US {
            period / 2
        } else {
            MAX_CLUSTER_US
        };
        let clustered: bool = source_time_us.saturating_sub(pending.last_time_us) < limit;
        let more_x: i64 = if clustered {
            dx as i64 - pending.last_dx as i64
        } else {
            dx as i64
        };
        let more_y: i64 = if clustered {
            dy as i64 - pending.last_dy as i64
        } else {
            dy as i64
        };
        Pending {
            dx: saturating_add64(pending.dx, more_x),
            dy: saturating_add64(pending.dy, more_y),
            last_dx: dx,
            last_dy: dy,
            last_time_us: source_time_us,
            due_us: pending.due_us,
            period_us: pending.period_us,
        }
    }

    /// Advances the source by one report. At most one completed bin is returned;
    /// old periods are never queued for later replay.
    pub fn accept(&mut self, dx: i32, dy: i32, source_time_us: u64, now_us: u64) -> (r: Option<
        MotionBin,
    >)
        requires
            old(self).wf(),
        ensures
            final(self).wf(),
            (final(self)@, r) == old(self)@.accept(dx, dy, source_time_us, now_us),
    {
        if dx == 0 && dy == 0 {
            self.observe_time(source_time_us);
            return None;
        }
        let previous_period: Option<u64> = self.cadence_us();
        let interval: Option<u64> = self.observe_time(source_time_us);
        let period: u64 = match self.cadence_us() {
            Some(period) => period,
            None => return self.bootstrap(interval, dx, dy, source_time_us, now_us),
        };
        if let Some(previous) = previous_period {
            if previous >= MIN_OUTPUT_PERIOD_US && period < MIN_OUTPUT_PERIOD_US {
                self.pending = None;
                self.sequence = self.sequence.wrapping_add(1);
            }
        }
        if let Some(dt) = interval {
            if dt > 4 * period {
                return self.resume(period, dx, dy, source_time_us, now_us);
            }
        }
        self.fill(period, dx, dy, source_time_us, now_us)
    }

    /// The bin that is being filled, where it is due.
    pub fn take_due(&mut self, now_us: u64) -> (r: Option<MotionBin>)
        requires
            old(self).wf(),
        ensures
            final(self).wf(),
            (final(self)@, r) == old(self)@.take_due(now_us),
    {
        match self.next_due_us() {
            Some(due) => if due <= now_us {
                self.finish(now_us)
            } else {
                None
            },
            None => None,
        }
    }

    /// The bin that is being filled, due or not.
    pub fn take_now(&mut self, now_us: u64) -> (r: Option<MotionBin>)
        requires
            old(self).wf(),
        ensures
            final(self).wf(),
            (final(self)@, r) == old(self)@.finish(now_us),
    {
        self.finish(now_us)
    }

    fn finish(&mut self, now_us: u64) -> (r: Option<MotionBin>)
        requires
            old(self).wf(),
        ensures
            final(self).wf(),
            (final(self)@, r) == old(self)@.finish(now_us),
    {
        match self.pending {
            None => None,
            Some(pending) => {
                self.pending = None;
                let bin: MotionBin = self.make_bin(
                    pending.period_us,
                    pending.last_time_us,
                    clamp32(pending.dx),
                    clamp32(pending.dy),
                );
                let period: u64 = pending.period_us as u64;
                let freshness: u64 = 2 * if period > MIN_OUTPUT_PERIOD_US {
                    period
                } else {
                    MIN_OUTPUT_PERIOD_US
                };
                if now_us.saturating_sub(bin.source_time_us) <= freshness {
                    Some(bin)
                } else {
                    None
                }
            },
        }
    }

    fn make_bin(&mut self, period_us: u32, source_time_us: u64, dx: i32, dy: i32) -> (r: MotionBin)
        requires
            old(self).wf(),
        ensures
            final(self).wf(),
            (final(self)@, r) == old(self)@.make_bin(period_us, source_time_us, dx, dy),
    {
        self.sequence = self.sequence.wrapping_add(1);
        MotionBin { sequence: self.sequence, period_us, source_time_us, dx, dy }
    }
}

/// Every bin that is sent carries the current sequence number, and that number
/// is ahead of every bin before it, up to the last number.
pub proof fn law_sequence_advances(b: Binning, dx: i32, dy: i32, time_us: u64, now_us: u64)
    requires
        b.wf(),
        b.sequence < u64::MAX - 3,
    ensures
        ({
            let (next, bin) = b.accept(dx, dy, time_us, now_us);
            &&& b.sequence <= next.sequence
            &&& bin matches Some(bin) ==> b.sequence < bin.sequence == next.sequence
        }),
{
}

/// A bin is due no sooner than a millisecond after the report that begins it,
/// and no later than the longest cadence.
pub proof fn law_bins_are_bounded(b: Binning, dx: i32, dy: i32, time_us: u64, now_us: u64)
    requires
        b.wf(),
        b.pending is None,
        time_us <= u64::MAX - MAX_CADENCE_US,
    ensures
        b.accept(dx, dy, time_us, now_us).0.pending matches Some(pending) ==> MIN_OUTPUT_PERIOD_US
            <= pending.due_us - time_us <= MAX_CADENCE_US,
{
    lemma_observed(b, time_us);
    lemma_cadence_range(b.observe_time(time_us));
}

proof fn lemma_observed(b: Binning, time_us: u64)
    requires
        b.wf(),
    ensures
        b.observe_time(time_us).wf(),
{
    let seen = b.observe_time(time_us);
    if let Some(dt) = b.interval(time_us) {
        let run = run_with(b.fast, dt);
        assert(seen.periods.len() <= HISTORY);
    }
}

/// Reports between two bins add up, where none of them replaces another: a
/// report after the cluster limit adds its whole motion to the bin.
pub proof fn law_spaced_reports_accumulate(
    b: Binning,
    dx: i32,
    dy: i32,
    time_us: u64,
    now_us: u64,
)
    requires
        b.wf(),
        dx != 0 || dy != 0,
        b.observe_time(time_us).cadence() is Some,
        b.cadence() matches Some(cadence) ==> cadence < MIN_OUTPUT_PERIOD_US || b.observe_time(
            time_us,
        ).cadence()->0 >= MIN_OUTPUT_PERIOD_US,
        b.interval(time_us) matches Some(dt) ==> dt <= 4 * b.observe_time(time_us).cadence()->0,
        b.pending matches Some(pending) && pending.period_us > 0 && time_us < pending.due_us
            && time_us - pending.last_time_us >= MAX_CLUSTER_US && -0x1000_0000_0000 <= pending.dx
            <= 0x1000_0000_0000 && -0x1000_0000_0000 <= pending.dy <= 0x1000_0000_0000,
    ensures
        ({
            let (next, bin) = b.accept(dx, dy, time_us, now_us);
            &&& bin is None
            &&& next.pending matches Some(pending) && pending.dx == b.pending->0.dx + dx
                && pending.dy == b.pending->0.dy + dy && pending.due_us == b.pending->0.due_us
        }),
{
}

/// A bin that has waited for more than two periods is not sent, and its number
/// is not used again.
pub proof fn law_stale_bins_are_not_replayed(b: Binning, now_us: u64)
    requires
        b.wf(),
        b.pending matches Some(pending) && now_us - pending.last_time_us > 2 * num::larger(
            pending.period_us as int,
            MIN_OUTPUT_PERIOD_US as int,
        ),
    ensures
        b.finish(now_us).1 is None,
        b.finish(now_us).0.pending is None,
        b.finish(now_us).0.sequence == after(b.sequence),
{
}

/// How far some reports move to the right in all.
pub open spec fn sum_x(reports: Seq<(i32, i32)>) -> int
    decreases reports.len(),
{
    if reports.len() == 0 {
        0
    } else {
        sum_x(reports.drop_last()) + reports.last().0
    }
}

/// How far some reports move down in all.
pub open spec fn sum_y(reports: Seq<(i32, i32)>) -> int
    decreases reports.len(),
{
    if reports.len() == 0 {
        0
    } else {
        sum_y(reports.drop_last()) + reports.last().1
    }
}

/// Whether the bin that is being filled holds these reports: it moves as far as all of
/// them on each axis, and remembers the newest.
pub open spec fn holds(b: Binning, reports: Seq<(i32, i32)>) -> bool {
    match b.pending {
        None => reports.len() == 0,
        Some(pending) => {
            &&& 0 < reports.len() <= 0x2000_0000
            &&& pending.dx == sum_x(reports)
            &&& pending.dy == sum_y(reports)
            &&& pending.last_dx == reports.last().0
            &&& pending.last_dy == reports.last().1
        },
    }
}

/// Whether a bin moves by what reports add up to; each axis stops at the 32-bit limits.
pub open spec fn carries(bin: MotionBin, reports: Seq<(i32, i32)>) -> bool {
    &&& i32::MIN <= sum_x(reports) <= i32::MAX ==> bin.dx == sum_x(reports)
    &&& sum_x(reports) > i32::MAX ==> bin.dx == i32::MAX
    &&& sum_x(reports) < i32::MIN ==> bin.dx == i32::MIN
    &&& i32::MIN <= sum_y(reports) <= i32::MAX ==> bin.dy == sum_y(reports)
    &&& sum_y(reports) > i32::MAX ==> bin.dy == i32::MAX
    &&& sum_y(reports) < i32::MIN ==> bin.dy == i32::MIN
}

proof fn lemma_sums(reports: Seq<(i32, i32)>)
    ensures
        -0x8000_0000 * reports.len() <= sum_x(reports) <= 0x8000_0000 * reports.len(),
        -0x8000_0000 * reports.len() <= sum_y(reports) <= 0x8000_0000 * reports.len(),
    decreases reports.len(),
{
    if reports.len() > 0 {
        lemma_sums(reports.drop_last());
    }
}

proof fn lemma_one_report(report: (i32, i32))
    ensures
        sum_x(seq![report]) == report.0,
        sum_y(seq![report]) == report.1,
{
    let none = Seq::<(i32, i32)>::empty();
    assert(seq![report].drop_last() =~= none);
    assert(sum_x(none) == 0 && sum_y(none) == 0);
}

proof fn lemma_more_reports(reports: Seq<(i32, i32)>, report: (i32, i32))
    ensures
        sum_x(reports.push(report)) == sum_x(reports) + report.0,
        sum_y(reports.push(report)) == sum_y(reports) + report.1,
        reports.push(report).last() == report,
{
    assert(reports.push(report).drop_last() =~= reports);
}

/// Before a cadence is known, the first report, or one that comes more than 50 ms after
/// the one before it, is sent at once as a bin of its own with exactly its movement, where
/// it is no more than 50 ms late. One that follows sooner takes the place of the bin that
/// waits.
pub proof fn law_first_reports_are_sent_at_once(
    b: Binning,
    reports: Seq<(i32, i32)>,
    dx: i32,
    dy: i32,
    time_us: u64,
    now_us: u64,
)
    requires
        b.wf(),
        holds(b, reports),
        dx != 0 || dy != 0,
        b.accept(dx, dy, time_us, now_us).0.periods.len() == 0,
    ensures
        ({
            let (next, sent) = b.accept(dx, dy, time_us, now_us);
            let follows = b.last_time_us matches Some(last) && last <= time_us <= last + 50_000;
            &&& follows ==> sent is None && holds(next, seq![(dx, dy)])
            &&& !follows ==> holds(next, seq![])
            &&& !follows && now_us <= time_us + 50_000 ==> (sent matches Some(bin) && bin.dx == dx
                && bin.dy == dy && bin.source_time_us == time_us && bin.period_us == 0)
            &&& !follows && now_us > time_us + 50_000 ==> sent is None
            &&& next.last_time_us == Some(time_us)
        }),
{
    lemma_one_report((dx, dy));
}

/// A report that comes more than four periods after the one before it is sent at once as
/// a bin with exactly its movement, where it is no more than two periods late. What was
/// being filled is dropped.
pub proof fn law_motion_after_a_pause_is_sent_at_once(
    b: Binning,
    dx: i32,
    dy: i32,
    time_us: u64,
    now_us: u64,
    cadence: u64,
)
    requires
        b.wf(),
        dx != 0 || dy != 0,
        b.accept(dx, dy, time_us, now_us).0.cadence() == Some(cadence),
        b.last_time_us matches Some(last) && time_us > last + 4 * cadence,
    ensures
        ({
            let (next, sent) = b.accept(dx, dy, time_us, now_us);
            &&& holds(next, seq![])
            &&& now_us <= time_us + 2 * cadence ==> (sent matches Some(bin) && bin.dx == dx
                && bin.dy == dy && bin.source_time_us == time_us && bin.period_us == (if cadence
                > 1000 {
                cadence as int
            } else {
                1000
            }) && bin.sequence == next.sequence)
            &&& now_us > time_us + 2 * cadence ==> sent is None
            &&& next.last_time_us == Some(time_us)
        }),
{
    lemma_observed(b, time_us);
    lemma_cadence_range(b.observe_time(time_us));
}

/// Whether a report at `time_us` closes the bin that is being filled.
pub open spec fn closes(b: Binning, time_us: u64) -> bool {
    b.pending matches Some(pending) && (pending.period_us == 0 || time_us >= pending.due_us)
}

/// Whether a report at `time_us` comes so soon after the newest one in the bin that it
/// replaces it: within half a period, and within a millisecond.
pub open spec fn too_soon(b: Binning, time_us: u64, cadence: u64) -> bool {
    b.pending matches Some(pending) && time_us < pending.last_time_us + cadence / 2 && time_us
        < pending.last_time_us + 1000
}

/// At a known cadence each report goes into the bin that is being filled. It is added to
/// the reports there, or replaces the newest one where it comes too soon after it, or
/// begins the next bin. A bin that is closed by it is sent with exactly the sum of the
/// reports that it held, where the newest of them is at most two periods old.
pub proof fn law_reports_fill_bins(
    b: Binning,
    reports: Seq<(i32, i32)>,
    dx: i32,
    dy: i32,
    time_us: u64,
    now_us: u64,
    cadence: u64,
)
    requires
        b.wf(),
        holds(b, reports),
        reports.len() < 0x2000_0000,
        dx != 0 || dy != 0,
        b.accept(dx, dy, time_us, now_us).0.cadence() == Some(cadence),
        b.last_time_us matches Some(last) ==> time_us <= last + 4 * cadence,
        // The source has not just sped up beyond the shortest bin.
        b.cadence() matches Some(slower) ==> slower < 1000 || cadence >= 1000,
    ensures
        ({
            let (next, sent) = b.accept(dx, dy, time_us, now_us);
            if closes(b, time_us) {
                let newest = b.pending->0.last_time_us;
                let period = if b.pending->0.period_us > 1000 {
                    b.pending->0.period_us as int
                } else {
                    1000
                };
                &&& holds(next, seq![(dx, dy)])
                &&& now_us <= newest + 2 * period ==> (sent matches Some(bin) && carries(
                    bin,
                    reports,
                ) && bin.source_time_us == newest && bin.period_us == b.pending->0.period_us
                    && bin.sequence == next.sequence)
                &&& now_us > newest + 2 * period ==> sent is None
            } else if reports.len() == 0 {
                sent is None && holds(next, seq![(dx, dy)])
            } else if too_soon(b, time_us, cadence) {
                sent is None && holds(next, reports.drop_last().push((dx, dy)))
            } else {
                sent is None && holds(next, reports.push((dx, dy)))
            }
        }),
        b.accept(dx, dy, time_us, now_us).0.pending matches Some(pending)
            && pending.last_time_us == time_us,
        b.accept(dx, dy, time_us, now_us).0.last_time_us == Some(time_us),
{
    lemma_observed(b, time_us);
    lemma_cadence_range(b.observe_time(time_us));
    lemma_one_report((dx, dy));
    lemma_sums(reports);
    lemma_more_reports(reports, (dx, dy));
    if reports.len() > 0 {
        lemma_sums(reports.drop_last());
        lemma_more_reports(reports.drop_last(), (dx, dy));
    }
}

/// A bin that a report begins is due one period later, and at least a millisecond; more
/// reports do not put it off.
pub proof fn law_bins_are_due_after_one_period(
    b: Binning,
    dx: i32,
    dy: i32,
    time_us: u64,
    now_us: u64,
    cadence: u64,
)
    requires
        b.wf(),
        dx != 0 || dy != 0,
        b.accept(dx, dy, time_us, now_us).0.cadence() == Some(cadence),
        b.last_time_us matches Some(last) ==> time_us <= last + 4 * cadence,
        b.cadence() matches Some(slower) ==> slower < 1000 || cadence >= 1000,
        time_us <= u64::MAX - 50_000,
    ensures
        ({
            let next = b.accept(dx, dy, time_us, now_us).0;
            let period = if cadence > 1000 {
                cadence as int
            } else {
                1000
            };
            next.pending matches Some(pending) && if b.pending is None || closes(b, time_us) {
                pending.due_us == time_us + period && pending.period_us == period
            } else {
                pending.due_us == b.pending->0.due_us && pending.period_us
                    == b.pending->0.period_us
            }
        }),
{
    lemma_observed(b, time_us);
    lemma_cadence_range(b.observe_time(time_us));
}

/// A source that proves to be faster than a millisecond drops what it filled at its
/// slower cadence: the next bin begins with the report that proved it.
pub proof fn law_speeding_up_starts_a_new_bin(
    b: Binning,
    dx: i32,
    dy: i32,
    time_us: u64,
    now_us: u64,
    slower: u64,
    cadence: u64,
)
    requires
        b.wf(),
        dx != 0 || dy != 0,
        b.cadence() == Some(slower),
        b.accept(dx, dy, time_us, now_us).0.cadence() == Some(cadence),
        slower >= 1000,
        cadence < 1000,
        b.last_time_us matches Some(last) ==> time_us <= last + 4 * cadence,
    ensures
        b.accept(dx, dy, time_us, now_us).1 is None,
        holds(b.accept(dx, dy, time_us, now_us).0, seq![(dx, dy)]),
{
    lemma_one_report((dx, dy));
}

/// A bin that is taken, or comes due, is sent with exactly the sum of its reports, at
/// the time of the newest, where that is at most two periods ago.
pub proof fn law_taken_bins_hold_their_reports(
    b: Binning,
    reports: Seq<(i32, i32)>,
    now_us: u64,
)
    requires
        b.wf(),
        holds(b, reports),
        reports.len() > 0,
    ensures
        ({
            let (next, sent) = b.finish(now_us);
            let newest = b.pending->0.last_time_us;
            let period = if b.pending->0.period_us > 1000 {
                b.pending->0.period_us as int
            } else {
                1000
            };
            &&& holds(next, seq![])
            &&& now_us <= newest + 2 * period ==> (sent matches Some(bin) && carries(bin, reports)
                && bin.source_time_us == newest && bin.period_us == b.pending->0.period_us
                && bin.sequence == next.sequence)
            &&& now_us > newest + 2 * period ==> sent is None
            &&& next.periods == b.periods
            &&& next.fast == b.fast
            &&& next.last_time_us == b.last_time_us
        }),
        now_us >= b.pending->0.due_us ==> b.take_due(now_us) == b.finish(now_us),
        now_us < b.pending->0.due_us ==> b.take_due(now_us) == (b, None::<MotionBin>),
{
}

/// A report without movement tells of the cadence only: no bin is sent or filled.
pub proof fn law_idle_reports_move_nothing(b: Binning, time_us: u64, now_us: u64)
    requires
        b.wf(),
    ensures
        b.accept(0, 0, time_us, now_us).1 is None,
        b.accept(0, 0, time_us, now_us).0.pending == b.pending,
        b.accept(0, 0, time_us, now_us).0.sequence == b.sequence,
        b.accept(0, 0, time_us, now_us).0.last_time_us == Some(time_us),
{
}

/// The cadence is the middle one of the latest periods, the longer of the two where
/// their number is even: it stands in the middle of any ordered list of them.
pub proof fn law_cadence_is_the_middle_period(b: Binning, ordered: Seq<u64>)
    requires
        b.periods.len() > 0,
        ordered.to_multiset() == b.periods.to_multiset(),
        forall|i: int, j: int| 0 <= i < j < ordered.len() ==> ordered[i] <= ordered[j],
    ensures
        ordered.len() == b.periods.len(),
        b.cadence() == Some(ordered[(ordered.len() / 2) as int]),
{
    assert(vstd::relations::sorted_by(ordered, num::at_most()));
    num::lemma_ascending_unique(b.periods, ordered);
    num::lemma_ascending(b.periods);
}

/// The latest periods are the intervals of one to 50 ms between reports, nine at most,
/// oldest first. A longer interval, or one below a tenth of a millisecond, is no period.
pub proof fn law_periods_are_intervals(
    b: Binning,
    dx: i32,
    dy: i32,
    time_us: u64,
    now_us: u64,
    last: u64,
)
    requires
        b.wf(),
        b.last_time_us == Some(last),
        last <= time_us,
    ensures
        ({
            let next = b.accept(dx, dy, time_us, now_us).0;
            let dt = time_us - last;
            &&& 1000 <= dt <= 50_000 ==> {
                &&& next.periods.len() == (if b.periods.len() < 9 {
                    b.periods.len() + 1
                } else {
                    9
                })
                &&& next.periods.last() == dt
                &&& next.periods.drop_last() == b.periods.skip(
                    if b.periods.len() < 9 {
                        0
                    } else {
                        1
                    },
                )
                &&& next.fast.len() == 0
            }
            &&& dt < 100 || dt > 50_000 ==> next.periods == b.periods && next.fast.len() == 0
        }),
{
    let dt = (time_us - last) as u64;
    let seen = b.observe_time(time_us);
    let next = b.accept(dx, dy, time_us, now_us).0;
    assert(next.periods == seen.periods && next.fast == seen.fast);
    if 1000 <= dt <= 50_000 {
        assert(b.periods.skip(0) =~= b.periods);
        assert(seen.periods.drop_last() =~= b.periods.skip(
            if b.periods.len() < 9 {
                0
            } else {
                1
            },
        ));
    }
}

/// Intervals of a tenth of a millisecond to one millisecond are taken for a cadence only
/// after eight in a row that are within twice and half of the first, or where the
/// cadence is that fast already.
pub proof fn law_fast_cadences_are_confirmed(
    b: Binning,
    dx: i32,
    dy: i32,
    time_us: u64,
    now_us: u64,
    last: u64,
)
    requires
        b.wf(),
        b.last_time_us == Some(last),
        100 <= time_us - last < 1000,
    ensures
        ({
            let next = b.accept(dx, dy, time_us, now_us).0;
            let dt = time_us - last;
            let similar = b.fast.len() > 0 && dt <= 2 * b.fast[0] && b.fast[0] <= 2 * dt;
            let quick = b.cadence() matches Some(cadence) && cadence < 1000;
            &&& next.fast.len() > 0 && next.fast.last() == dt
            &&& !similar ==> next.fast.len() == 1
            &&& similar && b.fast.len() < 8 ==> next.fast.len() == b.fast.len() + 1
            &&& similar && b.fast.len() == 8 ==> next.fast.len() == 8
            &&& quick ==> next.periods.len() > 0 && next.periods.last() == dt
            &&& !quick && next.fast.len() == 8 ==> next.periods == next.fast
            &&& !quick && next.fast.len() < 8 ==> next.periods == b.periods
        }),
{
    let seen = b.observe_time(time_us);
    let next = b.accept(dx, dy, time_us, now_us).0;
    assert(next.periods == seen.periods && next.fast == seen.fast);
}

/// A source whose two axes are exchanged.
pub open spec fn exchanged(b: Binning) -> Binning {
    Binning {
        pending: match b.pending {
            Some(p) => Some(
                Pending { dx: p.dy, dy: p.dx, last_dx: p.last_dy, last_dy: p.last_dx, ..p },
            ),
            None => None,
        },
        ..b
    }
}

pub open spec fn exchanged_bin(bin: Option<MotionBin>) -> Option<MotionBin> {
    match bin {
        Some(bin) => Some(MotionBin { dx: bin.dy, dy: bin.dx, ..bin }),
        None => None,
    }
}

/// Both axes are treated alike: exchanging them in the reports exchanges them in the
/// bins, and does nothing else.
pub proof fn law_axes_are_binned_alike(b: Binning, dx: i32, dy: i32, time_us: u64, now_us: u64)
    ensures
        exchanged(b).accept(dy, dx, time_us, now_us) == (
            exchanged(b.accept(dx, dy, time_us, now_us).0),
            exchanged_bin(b.accept(dx, dy, time_us, now_us).1),
        ),
        exchanged(b).finish(now_us) == (
            exchanged(b.finish(now_us).0),
            exchanged_bin(b.finish(now_us).1),
        ),
{
}

/// Bins are numbered one by one, and a number is left out where motion was dropped on
/// purpose: before the first motion after a pause, and where a source sped up.
pub proof fn law_missing_numbers_mark_breaks(
    b: Binning,
    dx: i32,
    dy: i32,
    time_us: u64,
    now_us: u64,
)
    requires
        b.wf(),
        dx != 0 || dy != 0,
        b.sequence < u64::MAX - 3,
    ensures
        ({
            let (next, sent) = b.accept(dx, dy, time_us, now_us);
            let interval = match b.last_time_us {
                Some(last) => time_us - last,
                None => 0,
            };
            &&& next.cadence() is None && sent is Some ==> next.sequence == b.sequence + 1
            &&& next.cadence() matches Some(cadence) ==> {
                let faster = b.cadence() matches Some(slower) && slower >= 1000 && cadence < 1000;
                &&& interval > 4 * cadence && !faster ==> next.sequence == b.sequence + 2
                &&& interval > 4 * cadence && faster ==> next.sequence == b.sequence + 3
                &&& interval <= 4 * cadence && faster ==> next.sequence == b.sequence + 1
                &&& interval <= 4 * cadence && !faster && closes(b, time_us) ==> next.sequence
                    == b.sequence + 1
                &&& interval <= 4 * cadence && !faster && !closes(b, time_us) ==> next.sequence
                    == b.sequence
            }
        }),
        b.pending is Some ==> b.finish(now_us).0.sequence == b.sequence + 1,
        b.pending is None ==> b.finish(now_us) == (b, None::<MotionBin>),
{
}

} // verus!
