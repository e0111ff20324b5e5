//! The motion filter of one source: the newest bin is spread over two samples
//! at the source's cadence, and a short forecast bridges bins that are missing
//! after steady motion.
use crate::forecast::{
    self, budget_for, debt_left, debt_less, repayment_of, target_of, PREDICTION_TICKS,
};
use crate::num::{self, clamp32, half_outward64, max_u64, saturating_mul_u64, sort};
use std::collections::VecDeque;
use vstd::prelude::*;

verus! {

/// Gaps between bins that the cadence is estimated from.
pub const HISTORY: usize = 31;

/// The latest instant, in nanoseconds, that the clock can show.
pub const LATEST: u128 = 9_000_000_000_000_000_000_000_000_000;

/// The furthest instant that a deadline can name.
pub const HORIZON: u128 = 10_000_000_000_000_000_000_000_000_000;

/// The displacement of one bin, or of one sample.
#[derive(Clone, Copy, Debug, PartialEq, Eq, Structural)]
pub struct Delta {
    pub dx: i32,
    pub dy: i32,
}

/// A sum of displacements.
#[derive(Clone, Copy, Debug, PartialEq, Eq, Structural)]
pub struct Wide {
    pub dx: i64,
    pub dy: i64,
}

/// How far a forecast may go on each axis.
#[derive(Clone, Copy, Debug, PartialEq, Eq, Structural)]
pub struct Reach {
    pub dx: u64,
    pub dy: u64,
}

/// A bin of motion as it arrives.
#[derive(Clone, Copy, Debug, PartialEq, Eq, Structural)]
pub struct MotionBin {
    pub source_id: u32,
    pub sequence: u64,
    pub period_us: u32,
    pub source_time_us: u64,
    pub dx: i32,
    pub dy: i32,
}

/// A bin that waits for its sample. `arrival` is in nanoseconds.
#[derive(Clone, Copy, Debug, PartialEq, Eq, Structural)]
pub struct Pending {
    pub delta: Delta,
    pub sequence: u64,
    pub source_time_us: u64,
    pub arrival: u128,
}

/// The last sampled bins since confidence was lost, at most three, oldest first.
#[derive(Clone, Copy, Debug, PartialEq, Eq, Structural)]
pub enum Recent {
    Zero,
    One(Delta),
    Two(Delta, Delta),
    Three(Delta, Delta, Delta),
}

/// The state of the filter but for the history of gaps. Instants are in
/// nanoseconds.
#[derive(Clone, Copy, Debug, PartialEq, Eq, Structural)]
pub struct Filter {
    pub last_sequence: Option<u64>,
    pub discontinuity: bool,
    pub period_us: u32,
    pub pending: Option<Pending>,
    pub previous: Delta,
    pub previous_predicted: bool,
    /// What halving left over: odd displacements stay exact over the leading
    /// and the trailing sample.
    pub remainder: Wide,
    pub recent: Recent,
    pub last_real: Option<Delta>,
    pub last_real_source_time_us: Option<u64>,
    pub last_real_sequence: Option<u64>,
    pub last_real_sampled_at: Option<u128>,
    pub prediction_budget: Wide,
    pub predicted: Wide,
    pub speculative: Wide,
    pub missing_ticks: u32,
    pub immediate: bool,
    pub next_tick: Option<u128>,
}

/// A source's filter and the gaps between its latest bins.
#[verifier::ext_equal]
pub struct Track {
    pub filter: Filter,
    pub gaps: Seq<u64>,
}

pub open spec fn still() -> Delta {
    Delta { dx: 0, dy: 0 }
}

pub open spec fn none_wide() -> Wide {
    Wide { dx: 0, dy: 0 }
}

pub open spec fn nanos(us: int) -> int {
    us * 1000
}

pub open spec fn dot(a: Delta, b: Delta) -> int {
    a.dx * b.dx + a.dy * b.dy
}

pub open spec fn small(remainder: int) -> bool {
    -1 <= remainder <= 1
}

impl Filter {
    /// The filter of a source that has not sent anything.
    pub open spec fn fresh() -> Filter {
        Filter {
            last_sequence: None,
            discontinuity: false,
            period_us: 0,
            pending: None,
            previous: still(),
            previous_predicted: false,
            remainder: none_wide(),
            recent: Recent::Zero,
            last_real: None,
            last_real_source_time_us: None,
            last_real_sequence: None,
            last_real_sampled_at: None,
            prediction_budget: none_wide(),
            predicted: none_wide(),
            speculative: none_wide(),
            missing_ticks: 0,
            immediate: false,
            next_tick: None,
        }
    }

    pub open spec fn wf(self) -> bool {
        &&& small(self.remainder.dx as int)
        &&& small(self.remainder.dy as int)
        &&& self.missing_ticks == 0 ==> self.prediction_budget == none_wide() && self.predicted
            == none_wide()
        &&& self.pending is Some ==> self.missing_ticks == 0
        &&& forecast::axis_wf(
            self.speculative.dx as int,
            self.prediction_budget.dx as int,
            self.predicted.dx as int,
        )
        &&& forecast::axis_wf(
            self.speculative.dy as int,
            self.prediction_budget.dy as int,
            self.predicted.dy as int,
        )
        &&& self.period_us == 0 || self.period_us >= 1000
        &&& self.last_real_sampled_at matches Some(at) ==> at <= LATEST
        &&& self.next_tick matches Some(at) ==> at <= HORIZON
        &&& self.pending matches Some(pending) ==> pending.arrival <= LATEST
    }

    pub open spec fn spec_clear_prediction(self) -> Filter {
        Filter {
            prediction_budget: none_wide(),
            predicted: none_wide(),
            missing_ticks: 0,
            ..self
        }
    }

    /// Only the sequence, the cadence and the discontinuity survive.
    pub open spec fn spec_clear_filter(self) -> Filter {
        Filter {
            last_sequence: self.last_sequence,
            discontinuity: self.discontinuity,
            period_us: self.period_us,
            ..Filter::fresh()
        }
    }

    pub open spec fn spec_start_prediction(self, reach: Reach) -> Filter {
        match self.recent {
            Recent::Three(_, _, last) => Filter {
                prediction_budget: Wide {
                    dx: forecast::budget(
                        forecast::desired(last.dx as int, reach.dx as int),
                        self.speculative.dx as int,
                    ) as i64,
                    dy: forecast::budget(
                        forecast::desired(last.dy as int, reach.dy as int),
                        self.speculative.dy as int,
                    ) as i64,
                },
                ..self
            },
            _ => self,
        }
    }

    /// The forecast for one more missing bin. Three more sampled bins are
    /// needed before the next forecast may start.
    pub open spec fn spec_predict(self, reach: Reach) -> (Filter, Delta) {
        let begun = if self.missing_ticks == 0 {
            Filter { recent: Recent::Zero, ..self.spec_start_prediction(reach) }
        } else {
            self
        };
        let ticks = num::smaller(begun.missing_ticks + 1, u32::MAX as int) as u32;
        if ticks > PREDICTION_TICKS {
            (Filter { missing_ticks: ticks, ..begun }, still())
        } else {
            let goal = Wide {
                dx: forecast::target(begun.prediction_budget.dx as int, ticks as int) as i64,
                dy: forecast::target(begun.prediction_budget.dy as int, ticks as int) as i64,
            };
            let step = Delta {
                dx: (goal.dx - begun.predicted.dx) as i32,
                dy: (goal.dy - begun.predicted.dy) as i32,
            };
            (
                Filter {
                    missing_ticks: ticks,
                    predicted: goal,
                    speculative: Wide {
                        dx: (begun.speculative.dx + step.dx) as i64,
                        dy: (begun.speculative.dy + step.dy) as i64,
                    },
                    ..begun
                },
                step,
            )
        }
    }

    /// Whether bins were skipped before `pending`: the forecast then stood in
    /// for them.
    pub open spec fn skipped(self, pending: Pending) -> bool {
        self.last_real_sequence matches Some(last) && pending.sequence > last + 1
    }

    /// A real bin less what it repays of the forecast.
    pub open spec fn spec_reconcile(self, pending: Pending) -> (Filter, Delta) {
        let owed = if self.skipped(pending) {
            none_wide()
        } else {
            self.speculative
        };
        let moved = pending.delta;
        (
            Filter {
                speculative: Wide {
                    dx: forecast::debt_after(owed.dx as int, moved.dx as int) as i64,
                    dy: forecast::debt_after(owed.dy as int, moved.dy as int) as i64,
                },
                ..self
            },
            Delta {
                dx: (moved.dx - forecast::repayment(owed.dx as int, moved.dx as int)) as i32,
                dy: (moved.dy - forecast::repayment(owed.dy as int, moved.dy as int)) as i32,
            },
        )
    }

    /// Half of the previous bin and half of the current one. A half-count is
    /// rounded toward the motion, and the remainder makes up for it.
    pub open spec fn spec_sample(self, current: Delta, predicted: bool) -> (Filter, Delta) {
        let x = self.previous.dx + current.dx + self.remainder.dx;
        let y = self.previous.dy + current.dy + self.remainder.dy;
        (
            Filter {
                previous: current,
                previous_predicted: predicted,
                remainder: Wide {
                    dx: (x - 2 * num::half_outward(x)) as i64,
                    dy: (y - 2 * num::half_outward(y)) as i64,
                },
                ..self
            },
            Delta {
                dx: num::clamped32(num::half_outward(x)),
                dy: num::clamped32(num::half_outward(y)),
            },
        )
    }
}

impl Filter {
    /// The pending bin, unless it waited for more than two periods, and the
    /// filter without it and without debt.
    pub open spec fn spec_close(self, now: u128) -> (Filter, Delta) {
        let emptied = Filter { pending: None, ..self };
        (
            Filter { speculative: none_wide(), last_real_sequence: None, ..emptied },
            match self.pending {
                Some(pending) if now - pending.arrival <= nanos(2 * self.period_us)
                    => emptied.spec_reconcile(pending).1,
                _ => still(),
            },
        )
    }

    /// The samples of `current` and of nothing after it. Without a cadence the
    /// bin passes as it is.
    pub open spec fn spec_drain(self, current: Delta) -> (Filter, Wide) {
        if self.period_us == 0 {
            (self, Wide { dx: current.dx as i64, dy: current.dy as i64 })
        } else {
            let (first, leading) = self.spec_sample(current, false);
            let (second, trailing) = first.spec_sample(still(), false);
            (
                second,
                Wide {
                    dx: (leading.dx + trailing.dx) as i64,
                    dy: (leading.dy + trailing.dy) as i64,
                },
            )
        }
    }
}

/// The gaps after a bin that was sent `gap` after the one before it.
pub open spec fn with_gap(gaps: Seq<u64>, gap: u64) -> Seq<u64> {
    let longer = gaps.push(gap);
    if longer.len() > HISTORY {
        longer.drop_first()
    } else {
        longer
    }
}

pub open spec fn with_recent(recent: Recent, delta: Delta) -> Recent {
    match recent {
        Recent::Zero => Recent::One(delta),
        Recent::One(a) => Recent::Two(a, delta),
        Recent::Two(a, b) => Recent::Three(a, b, delta),
        Recent::Three(_, b, c) => Recent::Three(b, c, delta),
    }
}

pub open spec fn distances(gaps: Seq<u64>, middle: u64) -> Seq<u64> {
    Seq::new(gaps.len(), |i: int| num::magnitude(gaps[i] - middle) as u64)
}

/// How long after a sample the next bin counts as missing: the median gap and
/// twice its median deviation, or the 95th percentile of the gaps where that is
/// longer, and half a period more.
pub open spec fn patience_us(gaps: Seq<u64>, period_us: int) -> int {
    let middle = num::median(gaps);
    let spread = num::median(distances(gaps, middle));
    let upper = num::ascending(gaps)[(19 * gaps.len() + 19) / 20 - 1];
    let robust = num::clamped_u64(middle + num::clamped_u64(spread * 2)) as int;
    num::clamped_u64(num::larger(robust, upper as int) + period_us / 2) as int
}

impl Track {
    pub open spec fn fresh() -> Track {
        Track { filter: Filter::fresh(), gaps: seq![] }
    }

    pub open spec fn wf(self) -> bool {
        self.filter.wf() && self.gaps.len() <= HISTORY
    }

    pub open spec fn clear_filter(self) -> Track {
        Track { filter: self.filter.spec_clear_filter(), gaps: seq![] }
    }

    pub open spec fn with(self, filter: Filter) -> Track {
        Track { filter, ..self }
    }

    /// A real bin has been sampled.
    pub open spec fn record_fresh(self, pending: Pending, now: u128) -> Track {
        let gaps = match self.filter.last_real_source_time_us {
            Some(previous) if pending.source_time_us > previous => with_gap(
                self.gaps,
                (pending.source_time_us - previous) as u64,
            ),
            _ => self.gaps,
        };
        Track {
            filter: Filter {
                last_real_source_time_us: Some(pending.source_time_us),
                last_real_sequence: Some(pending.sequence),
                last_real_sampled_at: Some(now),
                last_real: Some(pending.delta),
                recent: with_recent(self.filter.recent, pending.delta),
                ..self.filter
            },
            gaps,
        }
    }

    /// When the next bin counts as missing, once three bins and two gaps were
    /// seen.
    pub open spec fn prediction_deadline(self) -> Option<int> {
        match self.filter.last_real_sampled_at {
            Some(at) if self.filter.recent is Three && self.gaps.len() >= 2 => Some(
                at + nanos(patience_us(self.gaps, self.filter.period_us as int)),
            ),
            _ => None,
        }
    }

    pub open spec fn overdue(self, now: u128) -> bool {
        self.prediction_deadline() matches Some(due) && now >= due
    }

    /// Whether a bin is too old to be sampled: its excess over the smallest
    /// clock offset is four periods of its source, held between 16 and 50 ms.
    pub open spec fn stale(self, bin: MotionBin, offset: int, baseline: int) -> bool {
        let cadence = if bin.period_us == 0 {
            self.filter.period_us
        } else {
            bin.period_us
        };
        offset - baseline > num::clamped(cadence * 4, 16_000, 50_000)
    }

    pub open spec fn repeated(self, bin: MotionBin) -> bool {
        self.filter.last_sequence matches Some(last) && bin.sequence <= last
    }

    /// The source after a bin has arrived. A repeated bin changes nothing, and a
    /// stale one only marks the discontinuity.
    pub open spec fn accept(self, bin: MotionBin, offset: int, baseline: int, now: u128) -> Track {
        let delta = Delta { dx: bin.dx, dy: bin.dy };
        if self.repeated(bin) {
            self
        } else if self.stale(bin, offset, baseline) {
            self.with(
                Filter { last_sequence: Some(bin.sequence), discontinuity: true, ..self.filter },
            )
        } else {
            let gap = self.filter.last_sequence matches Some(last) && bin.sequence > last + 1;
            // The first bin has no reliable cadence, and a reversal inherits nothing.
            let turned = self.filter.last_real matches Some(last) && dot(last, delta) <= 0;
            let kept = if gap || self.filter.discontinuity || bin.period_us == 0 || turned {
                self.clear_filter()
            } else {
                self
            };
            let waits = kept.filter.next_tick is Some && kept.filter.previous != still();
            kept.with(
                Filter {
                    last_sequence: Some(bin.sequence),
                    discontinuity: false,
                    period_us: if bin.period_us == 0 {
                        0
                    } else {
                        num::larger(bin.period_us as int, 1000) as u32
                    },
                    pending: Some(
                        Pending {
                            delta,
                            sequence: bin.sequence,
                            source_time_us: bin.source_time_us,
                            arrival: now,
                        },
                    ),
                    immediate: if waits {
                        kept.filter.immediate
                    } else {
                        true
                    },
                    next_tick: if waits {
                        kept.filter.next_tick
                    } else {
                        None
                    },
                    ..kept.filter.spec_clear_prediction()
                },
            )
        }
    }

    /// The sample of a bin that arrived while the source was at rest.
    pub open spec fn take_immediate(self, now: u128) -> (Track, Option<Delta>) {
        let f = Filter { immediate: false, ..self.filter };
        match self.filter.pending {
            Some(pending) if self.filter.immediate => {
                let (paid, current) = Filter { pending: None, ..f }.spec_reconcile(pending);
                let recorded = self.with(paid).record_fresh(pending, now);
                if recorded.filter.period_us == 0 {
                    (recorded, Some(current))
                } else {
                    let (sampled, out) = recorded.filter.spec_sample(current, false);
                    let next = if current != still() {
                        Some((now + nanos(sampled.period_us as int)) as u128)
                    } else {
                        None
                    };
                    (recorded.with(Filter { next_tick: next, ..sampled }), Some(out))
                }
            },
            _ => (self.with(f), None),
        }
    }

    /// Whether a sample is due, and not so late that it is given up.
    pub open spec fn ticks(self, now: u128) -> bool {
        self.filter.next_tick matches Some(deadline) && deadline <= now <= deadline + nanos(
            2 * self.filter.period_us,
        )
    }

    /// Whether the sample at `now` starts a forecast.
    pub open spec fn starts_forecast(self, now: u128) -> bool {
        self.ticks(now) && self.filter.pending is None && self.filter.missing_ticks == 0
            && self.overdue(now)
    }

    /// What a due sample takes in: the pending bin, a forecast, or nothing.
    pub open spec fn intake(self, now: u128, reach: Reach) -> (Track, Delta, bool) {
        match self.filter.pending {
            Some(pending) => {
                let (paid, current) = Filter {
                    pending: None,
                    ..self.filter
                }.spec_reconcile(pending);
                (self.with(paid).record_fresh(pending, now), current, false)
            },
            None => if self.filter.missing_ticks != 0 || self.overdue(now) {
                let (ahead, current) = self.filter.spec_predict(reach);
                (self.with(ahead), current, true)
            } else {
                (self, still(), false)
            },
        }
    }

    /// The sample at `now`, if one is due.
    pub open spec fn tick(self, now: u128, reach: Reach) -> (Track, Option<Delta>) {
        if self.ticks(now) {
            let (taken, current, predicted) = self.intake(now, reach);
            let (sampled, out) = taken.filter.spec_sample(current, predicted);
            let after = taken.with(sampled);
            let next = if current != still() {
                Some((now + nanos(sampled.period_us as int)) as u128)
            } else {
                match after.prediction_deadline() {
                    Some(due) if due > now => Some(due as u128),
                    _ => None,
                }
            };
            (after.with(Filter { next_tick: next, ..sampled }), Some(out))
        } else if self.filter.next_tick matches Some(deadline) && now > deadline {
            (self.clear_filter(), None)
        } else {
            (self, None)
        }
    }

    /// The filter without the half of a forecast that was not emitted.
    pub open spec fn without_forecast_tail(f: Filter) -> Filter {
        if f.previous_predicted {
            Filter {
                speculative: Wide {
                    dx: forecast::debt_without(
                        f.speculative.dx as int,
                        num::half_outward(f.previous.dx + f.remainder.dx),
                    ) as i64,
                    dy: forecast::debt_without(
                        f.speculative.dy as int,
                        num::half_outward(f.previous.dy + f.remainder.dy),
                    ) as i64,
                },
                previous: still(),
                previous_predicted: false,
                remainder: none_wide(),
                ..f
            }
        } else {
            f
        }
    }

    /// The source without its cadence, its forecast and its deadlines.
    pub open spec fn settled(self) -> Filter {
        Track::without_forecast_tail(
            Filter {
                immediate: false,
                next_tick: None,
                recent: Recent::Zero,
                last_real: None,
                last_real_source_time_us: None,
                last_real_sampled_at: None,
                ..self.filter.spec_clear_prediction()
            },
        )
    }

    /// Everything that is still owed, at once; the source is then at rest.
    pub open spec fn flush_at(self, now: u128) -> (Track, Wide) {
        let (closed, current) = self.settled().spec_close(now);
        let (drained, out) = closed.spec_drain(current);
        (Track { filter: drained, gaps: seq![] }, out)
    }
}

fn zero() -> (r: Delta)
    ensures
        r == still(),
{
    Delta { dx: 0, dy: 0 }
}

fn zero_wide() -> (r: Wide)
    ensures
        r == none_wide(),
{
    Wide { dx: 0, dy: 0 }
}

/// Whether two bins move in opposite directions, or not at all.
fn opposed(a: Delta, b: Delta) -> (r: bool)
    ensures
        r == (dot(a, b) <= 0),
{
    proof {
        assert(-0x4000_0000_0000_0000 <= a.dx * b.dx <= 0x4000_0000_0000_0000) by (nonlinear_arith)
            requires
                -0x8000_0000 <= a.dx <= 0x8000_0000,
                -0x8000_0000 <= b.dx <= 0x8000_0000,
        ;
        assert(-0x4000_0000_0000_0000 <= a.dy * b.dy <= 0x4000_0000_0000_0000) by (nonlinear_arith)
            requires
                -0x8000_0000 <= a.dy <= 0x8000_0000,
                -0x8000_0000 <= b.dy <= 0x8000_0000,
        ;
    }
    let x: i128 = a.dx as i128 * b.dx as i128;
    let y: i128 = a.dy as i128 * b.dy as i128;
    x + y <= 0
}

impl Filter {
    /// The filter of a source that has not sent anything.
    pub fn new() -> (r: Filter)
        ensures
            r == Filter::fresh(),
            r.wf(),
    {
        Filter {
            last_sequence: None,
            discontinuity: false,
            period_us: 0,
            pending: None,
            previous: zero(),
            previous_predicted: false,
            remainder: zero_wide(),
            recent: Recent::Zero,
            last_real: None,
            last_real_source_time_us: None,
            last_real_sequence: None,
            last_real_sampled_at: None,
            prediction_budget: zero_wide(),
            predicted: zero_wide(),
            speculative: zero_wide(),
            missing_ticks: 0,
            immediate: false,
            next_tick: None,
        }
    }

    fn clear_prediction(&mut self)
        requires
            old(self).wf(),
        ensures
            *final(self) == old(self).spec_clear_prediction(),
            final(self).wf(),
    {
        self.prediction_budget = zero_wide();
        self.predicted = zero_wide();
        self.missing_ticks = 0;
    }

    fn start_prediction(&mut self, reach: Reach)
        requires
            old(self).wf(),
            old(self).missing_ticks == 0,
        ensures
            *final(self) == old(self).spec_start_prediction(reach),
            forecast::axis_wf(
                final(self).speculative.dx as int,
                final(self).prediction_budget.dx as int,
                0,
            ),
            forecast::axis_wf(
                final(self).speculative.dy as int,
                final(self).prediction_budget.dy as int,
                0,
            ),
    {
        if let Recent::Three(_, _, last) = self.recent {
            let dx: i64 = budget_for(last.dx, reach.dx, self.speculative.dx);
            let dy: i64 = budget_for(last.dy, reach.dy, self.speculative.dy);
            self.prediction_budget = Wide { dx, dy };
        }
    }

    fn predict(&mut self, reach: Reach) -> (r: Delta)
        requires
            old(self).wf(),
            old(self).pending is None,
        ensures
            (*final(self), r) == old(self).spec_predict(reach),
            final(self).wf(),
    {
        if self.missing_ticks == 0 {
            self.start_prediction(reach);
            self.recent = Recent::Zero;
        }
        let ghost begun = *self;
        self.missing_ticks = self.missing_ticks.saturating_add(1);
        if self.missing_ticks > PREDICTION_TICKS {
            return zero();
        }
        let dx: i64 = target_of(self.prediction_budget.dx, self.missing_ticks);
        let dy: i64 = target_of(self.prediction_budget.dy, self.missing_ticks);
        let step: Delta = Delta {
            dx: (dx - self.predicted.dx) as i32,
            dy: (dy - self.predicted.dy) as i32,
        };
        self.predicted = Wide { dx, dy };
        self.speculative = Wide {
            dx: self.speculative.dx + step.dx as i64,
            dy: self.speculative.dy + step.dy as i64,
        };
        step
    }

    fn reconcile(&mut self, pending: Pending) -> (r: Delta)
        requires
            old(self).wf(),
            old(self).missing_ticks == 0,
        ensures
            (*final(self), r) == old(self).spec_reconcile(pending),
            final(self).wf(),
    {
        let skipped: bool = match self.last_real_sequence {
            Some(last) => pending.sequence > last.saturating_add(1),
            None => false,
        };
        let owed: Wide = if skipped {
            zero_wide()
        } else {
            self.speculative
        };
        let x: i64 = pending.delta.dx as i64;
        let y: i64 = pending.delta.dy as i64;
        let current: Delta = Delta {
            dx: (x - repayment_of(owed.dx, x)) as i32,
            dy: (y - repayment_of(owed.dy, y)) as i32,
        };
        self.speculative = Wide { dx: debt_left(owed.dx, x), dy: debt_left(owed.dy, y) };
        current
    }

    /// Forgets the half of a forecast that was not emitted. It is no debt either.
    fn drop_forecast_tail(&mut self)
        requires
            old(self).wf(),
            old(self).missing_ticks == 0,
        ensures
            *final(self) == Track::without_forecast_tail(*old(self)),
            final(self).wf(),
    {
        if self.previous_predicted {
            let x: i64 = half_outward64(self.previous.dx as i64 + self.remainder.dx);
            let y: i64 = half_outward64(self.previous.dy as i64 + self.remainder.dy);
            self.speculative = Wide {
                dx: debt_less(self.speculative.dx, x),
                dy: debt_less(self.speculative.dy, y),
            };
            self.previous = zero();
            self.previous_predicted = false;
            self.remainder = zero_wide();
        }
    }

    /// One sample: half of the bin before and half of the current one.
    pub fn sample(&mut self, current: Delta, predicted: bool) -> (r: Delta)
        requires
            old(self).wf(),
        ensures
            (*final(self), r) == old(self).spec_sample(current, predicted),
            final(self).wf(),
    {
        let x: i64 = self.previous.dx as i64 + current.dx as i64 + self.remainder.dx;
        let y: i64 = self.previous.dy as i64 + current.dy as i64 + self.remainder.dy;
        let half_x: i64 = half_outward64(x);
        let half_y: i64 = half_outward64(y);
        self.remainder = Wide { dx: x - 2 * half_x, dy: y - 2 * half_y };
        self.previous = current;
        self.previous_predicted = predicted;
        Delta { dx: clamp32(half_x), dy: clamp32(half_y) }
    }
}

impl Filter {
    fn close(&mut self, now: u128) -> (r: Delta)
        requires
            old(self).wf(),
            old(self).missing_ticks == 0,
        ensures
            (*final(self), r) == old(self).spec_close(now),
            final(self).wf(),
    {
        let mut current: Delta = zero();
        if let Some(pending) = self.pending {
            self.pending = None;
            if now <= pending.arrival || now - pending.arrival <= 2 * self.period_us as u128 * 1000 {
                current = self.reconcile(pending);
            }
        }
        self.speculative = zero_wide();
        self.last_real_sequence = None;
        current
    }

    fn drain(&mut self, current: Delta) -> (r: Wide)
        requires
            old(self).wf(),
        ensures
            (*final(self), r) == old(self).spec_drain(current),
            final(self).wf(),
    {
        if self.period_us == 0 {
            return Wide { dx: current.dx as i64, dy: current.dy as i64 };
        }
        let leading: Delta = self.sample(current, false);
        let trailing: Delta = self.sample(zero(), false);
        Wide {
            dx: leading.dx as i64 + trailing.dx as i64,
            dy: leading.dy as i64 + trailing.dy as i64,
        }
    }
}

/// A source of motion.
#[derive(Debug)]
pub struct Source {
    pub filter: Filter,
    pub bin_gaps_us: VecDeque<u64>,
}

impl View for Source {
    type V = Track;

    open spec fn view(&self) -> Track {
        Track { filter: self.filter, gaps: self.bin_gaps_us@ }
    }
}

impl Source {
    pub open spec fn wf(self) -> bool {
        self@.wf()
    }

    pub fn new() -> (r: Source)
        ensures
            r@ == Track::fresh(),
            r.wf(),
    {
        Source { filter: Filter::new(), bin_gaps_us: VecDeque::new() }
    }

    fn clear_filter(&mut self)
        requires
            old(self).wf(),
        ensures
            final(self)@ == old(self)@.clear_filter(),
            final(self).wf(),
    {
        self.filter = Filter {
            last_sequence: self.filter.last_sequence,
            discontinuity: self.filter.discontinuity,
            period_us: self.filter.period_us,
            ..Filter::new()
        };
        self.bin_gaps_us.clear();
    }

    fn record_fresh(&mut self, pending: Pending, now: u128)
        requires
            old(self).wf(),
            now <= LATEST,
        ensures
            final(self)@ == old(self)@.record_fresh(pending, now),
            final(self).wf(),
    {
        if let Some(previous) = self.filter.last_real_source_time_us {
            if pending.source_time_us > previous {
                self.bin_gaps_us.push_back(pending.source_time_us - previous);
                if self.bin_gaps_us.len() > HISTORY {
                    let ghost longer = self.bin_gaps_us@;
                    self.bin_gaps_us.pop_front();
                    proof {
                        assert(self.bin_gaps_us@ =~= longer.drop_first());
                    }
                }
            }
        }
        self.filter.last_real_source_time_us = Some(pending.source_time_us);
        self.filter.last_real_sequence = Some(pending.sequence);
        self.filter.last_real_sampled_at = Some(now);
        self.filter.last_real = Some(pending.delta);
        self.filter.recent = match self.filter.recent {
            Recent::Zero => Recent::One(pending.delta),
            Recent::One(a) => Recent::Two(a, pending.delta),
            Recent::Two(a, b) => Recent::Three(a, b, pending.delta),
            Recent::Three(_, b, c) => Recent::Three(b, c, pending.delta),
        };
    }

    fn patience_us(&self) -> (r: u64)
        requires
            2 <= self@.gaps.len() <= HISTORY,
        ensures
            r == patience_us(self@.gaps, self.filter.period_us as int),
    {
        let mut copied: Vec<u64> = Vec::new();
        let mut i: usize = 0;
        while i < self.bin_gaps_us.len()
            invariant
                i <= self.bin_gaps_us@.len(),
                copied@ =~= self.bin_gaps_us@.take(i as int),
            decreases self.bin_gaps_us@.len() - i,
        {
            copied.push(self.bin_gaps_us[i]);
            i = i + 1;
        }
        assert(copied@ =~= self@.gaps);
        let gaps: Vec<u64> = sort(&copied);
        let middle: u64 = gaps[gaps.len() / 2];
        let mut away: Vec<u64> = Vec::new();
        let mut j: usize = 0;
        while j < copied.len()
            invariant
                j <= copied@.len(),
                away@ =~= distances(copied@, middle).take(j as int),
            decreases copied@.len() - j,
        {
            let gap: u64 = copied[j];
            away.push(
                if gap < middle {
                    middle - gap
                } else {
                    gap - middle
                },
            );
            j = j + 1;
        }
        assert(away@ =~= distances(copied@, middle));
        let deviations: Vec<u64> = sort(&away);
        let spread: u64 = deviations[deviations.len() / 2];
        let upper: u64 = gaps[(19 * gaps.len() + 19) / 20 - 1];
        let robust: u64 = middle.saturating_add(saturating_mul_u64(spread, 2));
        max_u64(robust, upper).saturating_add(self.filter.period_us as u64 / 2)
    }

    fn prediction_deadline(&self) -> (r: Option<u128>)
        requires
            self.wf(),
        ensures
            r is Some == self@.prediction_deadline() is Some,
            r matches Some(due) ==> Some(due as int) == self@.prediction_deadline() && due
                <= HORIZON,
    {
        let three: bool = match self.filter.recent {
            Recent::Three(_, _, _) => true,
            _ => false,
        };
        if !three || self.bin_gaps_us.len() < 2 {
            return None;
        }
        match self.filter.last_real_sampled_at {
            Some(at) => Some(at + self.patience_us() as u128 * 1000),
            None => None,
        }
    }

    fn overdue(&self, now: u128) -> (r: bool)
        requires
            self.wf(),
        ensures
            r == self@.overdue(now),
    {
        match self.prediction_deadline() {
            Some(due) => now >= due,
            None => false,
        }
    }

    /// Takes in a bin that arrived at `now`, in nanoseconds.
    pub fn accept(&mut self, bin: MotionBin, offset: i128, baseline: i128, now: u128)
        requires
            old(self).wf(),
            now <= LATEST,
            -u64::MAX <= offset <= u64::MAX,
            -u64::MAX <= baseline <= u64::MAX,
        ensures
            final(self)@ == old(self)@.accept(bin, offset as int, baseline as int, now),
            final(self).wf(),
    {
        let delta: Delta = Delta { dx: bin.dx, dy: bin.dy };
        if let Some(last) = self.filter.last_sequence {
            if bin.sequence <= last {
                return;
            }
        }
        let gap: bool = match self.filter.last_sequence {
            Some(last) => bin.sequence > last.saturating_add(1),
            None => false,
        };
        self.filter.last_sequence = Some(bin.sequence);
        let cadence: u64 = if bin.period_us == 0 {
            self.filter.period_us as u64
        } else {
            bin.period_us as u64
        };
        let fourfold: u64 = cadence * 4;
        let freshness: u64 = if fourfold < 16_000 {
            16_000
        } else if fourfold > 50_000 {
            50_000
        } else {
            fourfold
        };
        if offset - baseline > freshness as i128 {
            self.filter.discontinuity = true;
            return;
        }
        if gap || self.filter.discontinuity {
            self.clear_filter();
        }
        self.filter.discontinuity = false;
        self.filter.period_us = if bin.period_us < 1000 {
            1000
        } else {
            bin.period_us
        };
        if bin.period_us == 0 {
            self.clear_filter();
            self.filter.period_us = 0;
        }
        if let Some(last) = self.filter.last_real {
            if opposed(last, delta) {
                self.clear_filter();
            }
        }
        self.filter.clear_prediction();
        self.filter.pending = Some(
            Pending {
                delta,
                sequence: bin.sequence,
                source_time_us: bin.source_time_us,
                arrival: now,
            },
        );
        if self.filter.next_tick.is_none() || self.filter.previous == zero() {
            self.filter.next_tick = None;
            self.filter.immediate = true;
        }
    }

    /// The sample of a bin that arrived while the source was at rest.
    pub fn take_immediate(&mut self, now: u128) -> (r: Option<Delta>)
        requires
            old(self).wf(),
            now <= LATEST,
        ensures
            (final(self)@, r) == old(self)@.take_immediate(now),
            final(self).wf(),
    {
        if !self.filter.immediate {
            return None;
        }
        self.filter.immediate = false;
        match self.filter.pending {
            Some(pending) => {
                self.filter.pending = None;
                let current: Delta = self.filter.reconcile(pending);
                self.record_fresh(pending, now);
                if self.filter.period_us == 0 {
                    return Some(current);
                }
                let out: Delta = self.filter.sample(current, false);
                self.filter.next_tick = if self.filter.previous != zero() {
                    Some(now + self.filter.period_us as u128 * 1000)
                } else {
                    None
                };
                Some(out)
            },
            None => None,
        }
    }

    /// Whether a sample is due, and not so late that it is given up.
    fn ticks(&self, now: u128) -> (r: bool)
        requires
            self.wf(),
        ensures
            r == self@.ticks(now),
    {
        match self.filter.next_tick {
            Some(deadline) => now >= deadline && now - deadline <= 2 * self.filter.period_us as u128
                * 1000,
            None => false,
        }
    }

    /// The three bins that a forecast is made from, where the sample at `now`
    /// starts one.
    pub fn starts_forecast(&self, now: u128) -> (r: Option<(Delta, Delta, Delta)>)
        requires
            self.wf(),
        ensures
            r is Some == self@.starts_forecast(now),
            r matches Some((a, b, c)) ==> self.filter.recent == Recent::Three(a, b, c),
    {
        if self.ticks(now) && self.filter.pending.is_none() && self.filter.missing_ticks == 0
            && self.overdue(now) {
            match self.filter.recent {
                Recent::Three(a, b, c) => Some((a, b, c)),
                _ => None,
            }
        } else {
            None
        }
    }

    /// The sample at `now`, if one is due. `reach` bounds a forecast that it
    /// starts.
    pub fn tick(&mut self, now: u128, reach: Reach) -> (r: Option<Delta>)
        requires
            old(self).wf(),
            now <= LATEST,
        ensures
            (final(self)@, r) == old(self)@.tick(now, reach),
            final(self).wf(),
    {
        let ghost before = self@;
        if !self.ticks(now) {
            if let Some(deadline) = self.filter.next_tick {
                if now > deadline {
                    self.clear_filter();
                }
            }
            return None;
        }
        let mut current: Delta = zero();
        let mut predicted: bool = false;
        match self.filter.pending {
            Some(fresh) => {
                self.filter.pending = None;
                current = self.filter.reconcile(fresh);
                self.record_fresh(fresh, now);
            },
            None => {
                if self.filter.missing_ticks != 0 || self.overdue(now) {
                    current = self.filter.predict(reach);
                    predicted = true;
                }
            },
        }
        assert((self@, current, predicted) == before.intake(now, reach));
        let out: Delta = self.filter.sample(current, predicted);
        self.filter.next_tick = if self.filter.previous != zero() {
            Some(now + self.filter.period_us as u128 * 1000)
        } else {
            match self.prediction_deadline() {
                Some(due) => if due > now {
                    Some(due)
                } else {
                    None
                },
                None => None,
            }
        };
        Some(out)
    }

    /// Everything that is still owed, at once; the source is then at rest.
    pub fn flush_at(&mut self, now: u128) -> (r: Wide)
        requires
            old(self).wf(),
            now <= LATEST,
        ensures
            (final(self)@, r) == old(self)@.flush_at(now),
            final(self).wf(),
    {
        self.filter.immediate = false;
        self.filter.next_tick = None;
        self.filter.clear_prediction();
        self.filter.recent = Recent::Zero;
        self.filter.last_real = None;
        self.filter.last_real_source_time_us = None;
        self.filter.last_real_sampled_at = None;
        self.bin_gaps_us.clear();
        self.filter.drop_forecast_tail();
        let current: Delta = self.filter.close(now);
        self.filter.drain(current)
    }
}

/// The samples of a run of bins: the filter after them, and what they emitted.
pub open spec fn run_of_samples(f: Filter, bins: Seq<Delta>) -> (Filter, int, int)
    decreases bins.len(),
{
    if bins.len() == 0 {
        (f, 0, 0)
    } else {
        let (before, x, y) = run_of_samples(f, bins.drop_last());
        let (after, out) = before.spec_sample(bins.last(), false);
        (after, x + out.dx, y + out.dy)
    }
}

pub open spec fn total_dx(bins: Seq<Delta>) -> int
    decreases bins.len(),
{
    if bins.len() == 0 {
        0
    } else {
        total_dx(bins.drop_last()) + bins.last().dx
    }
}

pub open spec fn total_dy(bins: Seq<Delta>) -> int
    decreases bins.len(),
{
    if bins.len() == 0 {
        0
    } else {
        total_dy(bins.drop_last()) + bins.last().dy
    }
}

/// A bin whose samples cannot saturate.
pub open spec fn moderate(bin: Delta) -> bool {
    -0x7fff_fffe <= bin.dx <= 0x7fff_fffe && -0x7fff_fffe <= bin.dy <= 0x7fff_fffe
}

proof fn lemma_run_of_samples(f: Filter, bins: Seq<Delta>)
    requires
        f.wf(),
        f.previous == still(),
        f.remainder == none_wide(),
        forall|i: int| 0 <= i < bins.len() ==> moderate(#[trigger] bins[i]),
    ensures
        ({
            let (after, x, y) = run_of_samples(f, bins);
            &&& after.previous == (if bins.len() == 0 {
                still()
            } else {
                bins.last()
            })
            &&& small(after.remainder.dx as int)
            &&& small(after.remainder.dy as int)
            &&& 2 * x + after.previous.dx + after.remainder.dx == 2 * total_dx(bins)
            &&& 2 * y + after.previous.dy + after.remainder.dy == 2 * total_dy(bins)
        }),
    decreases bins.len(),
{
    if bins.len() > 0 {
        assert forall|i: int| 0 <= i < bins.drop_last().len() implies moderate(
            #[trigger] bins.drop_last()[i],
        ) by {
            assert(moderate(bins[i]));
        }
        lemma_run_of_samples(f, bins.drop_last());
        assert(moderate(bins.last()));
        if bins.len() > 1 {
            assert(moderate(bins[bins.len() - 2]));
        }
    }
}

/// Sampling neither loses nor invents displacement: a run of bins from rest and
/// one empty sample after it emit exactly what the bins hold. A bin within two
/// counts of the 32-bit limits is left out, since its sample may saturate.
pub proof fn law_sampling_conserves_displacement(f: Filter, bins: Seq<Delta>)
    requires
        f.wf(),
        f.previous == still(),
        f.remainder == none_wide(),
        forall|i: int| 0 <= i < bins.len() ==> moderate(#[trigger] bins[i]),
    ensures
        ({
            let (after, x, y) = run_of_samples(f, bins.push(still()));
            &&& x == total_dx(bins)
            &&& y == total_dy(bins)
            &&& after.previous == still()
            &&& after.remainder == none_wide()
        }),
{
    let longer = bins.push(still());
    assert(longer.drop_last() =~= bins);
    assert forall|i: int| 0 <= i < longer.len() implies moderate(#[trigger] longer[i]) by {
        if i < bins.len() {
            assert(moderate(bins[i]));
        }
    }
    lemma_run_of_samples(f, longer);
    assert(total_dx(longer) == total_dx(bins));
    assert(total_dy(longer) == total_dy(bins));
}

/// A flush leaves the source at rest: nothing is due, nothing waits, and no
/// forecast is owed.
pub proof fn law_flush_leaves_the_source_at_rest(t: Track, now: u128)
    requires
        t.wf(),
    ensures
        ({
            let (after, _) = t.flush_at(now);
            &&& after.wf()
            &&& after.filter.pending is None
            &&& after.filter.next_tick is None
            &&& !after.filter.immediate
            &&& after.filter.speculative == none_wide()
            &&& after.filter.missing_ticks == 0
            &&& after.prediction_deadline() is None
            &&& after.filter.last_sequence == t.filter.last_sequence
            &&& after.filter.period_us > 0 ==> after.filter.previous == still()
        }),
{
}

/// A flush from rest emits the pending bin whole, where it has not waited for
/// more than two periods.
pub proof fn law_flush_emits_the_pending_bin(t: Track, now: u128)
    requires
        t.wf(),
        t.filter.previous == still(),
        t.filter.remainder == none_wide(),
        t.filter.speculative == none_wide(),
        t.filter.pending matches Some(pending) && now - pending.arrival <= nanos(
            2 * t.filter.period_us,
        ) && moderate(pending.delta),
    ensures
        t.flush_at(now).1.dx == t.filter.pending->0.delta.dx,
        t.flush_at(now).1.dy == t.filter.pending->0.delta.dy,
{
}

/// A flush during a forecast, such as a click makes, does not emit the half of
/// the forecast that was held back.
pub proof fn law_flush_drops_the_forecast_tail(t: Track, now: u128)
    requires
        t.wf(),
        t.filter.previous_predicted,
        t.filter.pending is None,
    ensures
        t.flush_at(now).1 == none_wide(),
{
}

/// A reversal inherits neither the tail of the motion before it nor its
/// forecast: the new bin waits in a filter at rest.
pub proof fn law_reversal_inherits_nothing(
    t: Track,
    bin: MotionBin,
    offset: int,
    baseline: int,
    now: u128,
)
    requires
        t.wf(),
        !t.repeated(bin),
        !t.stale(bin, offset, baseline),
        t.filter.last_real matches Some(last) && dot(last, Delta { dx: bin.dx, dy: bin.dy }) <= 0,
    ensures
        ({
            let after = t.accept(bin, offset, baseline, now);
            &&& after.gaps.len() == 0
            &&& after.filter.previous == still()
            &&& after.filter.remainder == none_wide()
            &&& after.filter.speculative == none_wide()
            &&& after.filter.recent is Zero
            &&& after.filter.immediate
            &&& after.filter.next_tick is None
            &&& after.filter.pending matches Some(pending) && pending.delta == (Delta {
                dx: bin.dx,
                dy: bin.dy,
            })
        }),
{
}

/// The bins that a forecast is not started for do not depend on its reach.
pub proof fn law_reach_matters_only_where_a_forecast_starts(
    t: Track,
    now: u128,
    one: Reach,
    other: Reach,
)
    requires
        t.wf(),
        !t.starts_forecast(now),
    ensures
        t.tick(now, one) == t.tick(now, other),
{
}

/// Twice what a source still owes to the right: the half that is held back of the last
/// sample, the bin that waits, less what a forecast has moved already.
pub open spec fn owed_x(t: Track) -> int {
    t.filter.previous.dx + t.filter.remainder.dx + 2 * (match t.filter.pending {
        Some(pending) => pending.delta.dx as int,
        None => 0,
    }) - 2 * t.filter.speculative.dx
}

/// Twice what a source still owes downwards.
pub open spec fn owed_y(t: Track) -> int {
    t.filter.previous.dy + t.filter.remainder.dy + 2 * (match t.filter.pending {
        Some(pending) => pending.delta.dy as int,
        None => 0,
    }) - 2 * t.filter.speculative.dy
}

/// A source in a state that it can get into: what it holds back is a whole number of
/// counts, and nothing is held back without a cadence.
pub open spec fn balanced(t: Track) -> bool {
    &&& t.wf()
    &&& (t.filter.previous.dx + t.filter.remainder.dx) % 2 == 0
    &&& (t.filter.previous.dy + t.filter.remainder.dy) % 2 == 0
    &&& t.filter.period_us == 0 ==> t.filter.previous == still() && t.filter.remainder
        == none_wide() && t.filter.next_tick is None
    &&& moderate(t.filter.previous)
    &&& t.filter.pending matches Some(pending) ==> moderate(pending.delta)
}

/// Whether a bin repays a forecast on an axis, or owes nothing there.
pub open spec fn repays(debt: int, moved: int) -> bool {
    debt == 0 || moved == 0 || (debt > 0 && moved > 0) || (debt < 0 && moved < 0)
}

/// Whether no forecast is forgiven by the bin that waits: no bin was skipped before it,
/// and on each axis it goes the way of the forecast, if there was one.
pub open spec fn repays_forecast(f: Filter) -> bool {
    f.pending matches Some(pending) ==> {
        &&& f.speculative == none_wide() || f.last_real_sequence is None || pending.sequence
            == f.last_real_sequence->0 + 1
        &&& repays(f.speculative.dx as int, pending.delta.dx as int)
        &&& repays(f.speculative.dy as int, pending.delta.dy as int)
    }
}

/// A bin in sequence, of a known cadence, that goes on in the direction of the one before
/// it and is no more than 16 ms late, is owed in full on top of what was owed before. The
/// bin before it must have been sampled.
pub proof fn law_accepted_bins_are_owed(
    t: Track,
    bin: MotionBin,
    offset: int,
    baseline: int,
    now: u128,
)
    requires
        balanced(t),
        moderate(Delta { dx: bin.dx, dy: bin.dy }),
        now <= LATEST,
        t.filter.pending is None,
        t.filter.last_sequence matches Some(last) ==> bin.sequence == last + 1,
        !t.filter.discontinuity,
        bin.period_us > 0,
        t.filter.last_real matches Some(last) ==> last.dx * bin.dx + last.dy * bin.dy > 0,
        offset - baseline <= 16_000,
    ensures
        ({
            let after = t.accept(bin, offset, baseline, now);
            &&& owed_x(after) == owed_x(t) + 2 * bin.dx
            &&& owed_y(after) == owed_y(t) + 2 * bin.dy
            &&& balanced(after)
            &&& after.filter.last_sequence == Some(bin.sequence)
            &&& after.filter.speculative == t.filter.speculative
            &&& after.filter.pending matches Some(pending) && pending.delta.dx == bin.dx
                && pending.delta.dy == bin.dy && pending.sequence == bin.sequence
                && pending.source_time_us == bin.source_time_us && pending.arrival == now
            &&& after.filter.period_us == (if bin.period_us < 1000 {
                1000
            } else {
                bin.period_us as int
            })
        }),
{
}

/// A bin without a cadence, or one after a break, is owed in full, and nothing from
/// before it is. It is sampled at once.
pub proof fn law_bins_after_a_break_start_over(
    t: Track,
    bin: MotionBin,
    offset: int,
    baseline: int,
    now: u128,
)
    requires
        t.wf(),
        moderate(Delta { dx: bin.dx, dy: bin.dy }),
        now <= LATEST,
        t.filter.last_sequence matches Some(last) ==> bin.sequence > last,
        t.filter.discontinuity || bin.period_us == 0 || (t.filter.last_sequence matches Some(last)
            && bin.sequence > last + 1) || (t.filter.last_real matches Some(last) && last.dx
            * bin.dx + last.dy * bin.dy <= 0),
        offset - baseline <= 16_000,
    ensures
        ({
            let after = t.accept(bin, offset, baseline, now);
            &&& owed_x(after) == 2 * bin.dx
            &&& owed_y(after) == 2 * bin.dy
            &&& balanced(after)
            &&& after.filter.immediate
            &&& after.filter.next_tick is None
            &&& after.filter.last_sequence == Some(bin.sequence)
        }),
{
}

/// A bin is dropped as too old where it is later than the best packet of its source by
/// more than four periods, but never below 16 ms and always beyond 50 ms; the next one
/// then starts over.
pub proof fn law_late_bins_are_dropped(
    t: Track,
    bin: MotionBin,
    offset: int,
    baseline: int,
    now: u128,
)
    requires
        t.wf(),
        t.filter.last_sequence matches Some(last) ==> bin.sequence > last,
        bin.period_us > 0,
    ensures
        ({
            let after = t.accept(bin, offset, baseline, now);
            let late = offset - baseline;
            let dropped = late > 50_000 || (late > 16_000 && late > 4 * bin.period_us);
            &&& dropped ==> after == (Track {
                filter: Filter {
                    last_sequence: Some(bin.sequence),
                    discontinuity: true,
                    ..t.filter
                },
                ..t
            })
            &&& !dropped ==> (after.filter.pending matches Some(pending) && pending.delta.dx
                == bin.dx && pending.delta.dy == bin.dy) && !after.filter.discontinuity
        }),
{
}

/// A sample moves by half of what it takes in and held back before, rounded away from
/// zero, and holds the other half back: nothing is lost on either axis.
pub proof fn law_samples_halve_the_motion(f: Filter, current: Delta, predicted: bool)
    requires
        f.wf(),
        moderate(f.previous),
        moderate(current),
    ensures
        ({
            let (after, out) = f.spec_sample(current, predicted);
            let x = f.previous.dx + current.dx + f.remainder.dx;
            let y = f.previous.dy + current.dy + f.remainder.dy;
            &&& 2 * out.dx == x || (x > 0 && 2 * out.dx == x + 1) || (x < 0 && 2 * out.dx == x - 1)
            &&& 2 * out.dy == y || (y > 0 && 2 * out.dy == y + 1) || (y < 0 && 2 * out.dy == y - 1)
            &&& 2 * out.dx + after.remainder.dx == x
            &&& 2 * out.dy + after.remainder.dy == y
            &&& after.previous == current
            &&& after.previous_predicted == predicted
        }),
{
}

/// The movement of a sample that may not have been taken.
pub open spec fn dx_of(sample: Option<Delta>) -> int {
    match sample {
        Some(delta) => delta.dx as int,
        None => 0,
    }
}

pub open spec fn dy_of(sample: Option<Delta>) -> int {
    match sample {
        Some(delta) => delta.dy as int,
        None => 0,
    }
}

/// A sample at a tick pays exactly what it moves of what is owed, on each axis, whether
/// it takes in a bin, a forecast or nothing. Left out is a tick that is given up as too
/// late, and a bin that forgives a forecast.
pub proof fn law_ticks_pay_what_is_owed(t: Track, now: u128, reach: Reach)
    requires
        balanced(t),
        now <= LATEST,
        t.filter.next_tick matches Some(due) ==> now <= due + 2000 * t.filter.period_us,
        repays_forecast(t.filter),
    ensures
        ({
            let (after, sample) = t.tick(now, reach);
            &&& 2 * dx_of(sample) + owed_x(after) == owed_x(t)
            &&& 2 * dy_of(sample) + owed_y(after) == owed_y(t)
            &&& sample is Some <==> (t.filter.next_tick matches Some(due) && due <= now)
            &&& sample is None ==> after == t
            &&& balanced(after)
        }),
{
    if t.ticks(now) {
        let (taken, current, predicted) = t.intake(now, reach);
        lemma_intake(t, now, reach);
        lemma_sampled_balanced(taken, current, predicted);
        let after = taken.with(taken.filter.spec_sample(current, predicted).0);
        lemma_deadline_in_range(after);
    }
}

proof fn lemma_sampled_balanced(t: Track, current: Delta, predicted: bool)
    requires
        t.wf(),
        t.filter.pending is None,
        t.filter.period_us > 0,
        moderate(t.filter.previous),
        moderate(current),
        (t.filter.previous.dx + t.filter.remainder.dx) % 2 == 0,
        (t.filter.previous.dy + t.filter.remainder.dy) % 2 == 0,
    ensures
        ({
            let (sampled, out) = t.filter.spec_sample(current, predicted);
            &&& 2 * out.dx + sampled.previous.dx + sampled.remainder.dx == t.filter.previous.dx
                + t.filter.remainder.dx + 2 * current.dx
            &&& 2 * out.dy + sampled.previous.dy + sampled.remainder.dy == t.filter.previous.dy
                + t.filter.remainder.dy + 2 * current.dy
            &&& sampled.speculative == t.filter.speculative
            &&& sampled.pending is None
            &&& sampled.period_us == t.filter.period_us
            &&& balanced(t.with(sampled))
        }),
{
    law_samples_halve_the_motion(t.filter, current, predicted);
}

proof fn lemma_deadline_in_range(t: Track)
    requires
        t.wf(),
    ensures
        t.prediction_deadline() matches Some(due) ==> 0 <= due <= HORIZON,
{
}

proof fn lemma_intake(t: Track, now: u128, reach: Reach)
    requires
        balanced(t),
        now <= LATEST,
        repays_forecast(t.filter),
    ensures
        ({
            let (taken, current, predicted) = t.intake(now, reach);
            let (before, after) = (t.filter, taken.filter);
            &&& taken.wf()
            &&& moderate(current)
            &&& after.previous == before.previous
            &&& after.remainder == before.remainder
            &&& after.period_us == before.period_us
            &&& after.pending is None
            &&& 2 * current.dx - 2 * after.speculative.dx == owed_x(t) - before.previous.dx
                - before.remainder.dx
            &&& 2 * current.dy - 2 * after.speculative.dy == owed_y(t) - before.previous.dy
                - before.remainder.dy
        }),
{
    lemma_repaid(t.filter);
    if t.filter.pending is None && (t.filter.missing_ticks != 0 || t.overdue(now)) {
        lemma_predicted_step(t.filter, reach);
    }
}

/// What a bin repays of a forecast is taken from the bin and from the debt alike.
proof fn lemma_repaid(f: Filter)
    requires
        f.wf(),
        repays_forecast(f),
    ensures
        f.pending matches Some(pending) ==> ({
            let (paid, current) = Filter { pending: None, ..f }.spec_reconcile(pending);
            &&& current.dx - paid.speculative.dx == pending.delta.dx - f.speculative.dx
            &&& current.dy - paid.speculative.dy == pending.delta.dy - f.speculative.dy
            &&& moderate(pending.delta) ==> moderate(current)
        }),
{
}

proof fn lemma_predicted_step(f: Filter, reach: Reach)
    requires
        f.wf(),
        f.pending is None,
    ensures
        ({
            let (ahead, step) = f.spec_predict(reach);
            &&& ahead.speculative.dx == f.speculative.dx + step.dx
            &&& ahead.speculative.dy == f.speculative.dy + step.dy
            &&& ahead.previous == f.previous
            &&& ahead.remainder == f.remainder
            &&& ahead.pending is None
            &&& moderate(step)
        }),
{
}

/// The sample of a bin that arrived at rest pays exactly what it moves of what is owed.
#[verifier::rlimit(60)]
#[verifier::spinoff_prover]
pub proof fn law_immediate_samples_pay_what_is_owed(t: Track, now: u128)
    requires
        balanced(t),
        now <= LATEST,
        repays_forecast(t.filter),
    ensures
        ({
            let (after, sample) = t.take_immediate(now);
            &&& 2 * dx_of(sample) + owed_x(after) == owed_x(t)
            &&& 2 * dy_of(sample) + owed_y(after) == owed_y(t)
            &&& sample is Some <==> t.filter.immediate && t.filter.pending is Some
            &&& balanced(after)
        }),
{
    lemma_repaid(t.filter);
}

/// A flush pays everything that is owed, at once and in full, where the bin that waits is
/// no older than two periods and no forecast is involved.
pub proof fn law_flushes_pay_everything(t: Track, now: u128)
    requires
        balanced(t),
        now <= LATEST,
        t.filter.speculative == none_wide(),
        !t.filter.previous_predicted,
        t.filter.pending matches Some(pending) ==> now <= pending.arrival + 2000
            * t.filter.period_us,
    ensures
        ({
            let (after, out) = t.flush_at(now);
            &&& 2 * out.dx == owed_x(t)
            &&& 2 * out.dy == owed_y(t)
            &&& owed_x(after) == 0
            &&& owed_y(after) == 0
            &&& balanced(after)
        }),
{
    let settled = t.settled();
    let (closed, current) = settled.spec_close(now);
    assert(settled.pending == t.filter.pending && settled.previous == t.filter.previous
        && settled.remainder == t.filter.remainder && settled.speculative == none_wide()
        && settled.period_us == t.filter.period_us);
    assert(current == match t.filter.pending {
        Some(pending) => pending.delta,
        None => still(),
    });
    assert(closed.wf());
    lemma_drained_in_full(closed, current);
}

proof fn lemma_drained_in_full(f: Filter, current: Delta)
    requires
        f.wf(),
        f.pending is None,
        f.speculative == none_wide(),
        f.missing_ticks == 0,
        f.next_tick is None,
        moderate(f.previous),
        moderate(current),
        (f.previous.dx + f.remainder.dx) % 2 == 0,
        (f.previous.dy + f.remainder.dy) % 2 == 0,
        f.period_us == 0 ==> f.previous == still() && f.remainder == none_wide(),
    ensures
        ({
            let (after, out) = f.spec_drain(current);
            &&& 2 * out.dx == f.previous.dx + f.remainder.dx + 2 * current.dx
            &&& 2 * out.dy == f.previous.dy + f.remainder.dy + 2 * current.dy
            &&& after.previous == still()
            &&& after.remainder == none_wide()
            &&& after.speculative == none_wide()
            &&& after.pending is None
            &&& after.next_tick is None
            &&& after.wf()
        }),
{
    if f.period_us > 0 {
        let (first, leading) = f.spec_sample(current, false);
        law_samples_halve_the_motion(f, current, false);
        law_samples_halve_the_motion(first, still(), false);
    }
}

/// A sample that moves on, or has just taken in motion, is followed by another one exactly
/// one period later. A sample of nothing is followed by none, unless a bin may still turn
/// out to be missing later.
pub proof fn law_samples_keep_the_cadence(t: Track, now: u128, reach: Reach)
    requires
        balanced(t),
        now <= LATEST,
        t.tick(now, reach).1 is Some,
    ensures
        ({
            let after = t.tick(now, reach).0.filter;
            &&& after.previous != still() ==> after.next_tick == Some(
                (now + 1000 * t.filter.period_us) as u128,
            )
            &&& after.previous == still() ==> (after.next_tick matches Some(due) ==> due > now)
            &&& after.period_us == t.filter.period_us
            &&& after.pending is None
        }),
{
}

/// The first sample after rest comes at once, and the next one exactly one period later.
/// Without a cadence the bin is passed on whole, and no other sample follows.
pub proof fn law_motion_starts_at_once(t: Track, now: u128)
    requires
        balanced(t),
        now <= LATEST,
        t.filter.immediate,
        t.filter.pending is Some,
        t.filter.speculative == none_wide(),
    ensures
        ({
            let (after, sample) = t.take_immediate(now);
            let delta = t.filter.pending->0.delta;
            &&& sample is Some
            &&& !after.filter.immediate
            &&& after.filter.pending is None
            &&& t.filter.period_us == 0 ==> sample == Some(delta) && after.filter.next_tick is None
            &&& t.filter.period_us > 0 && delta != still() ==> after.filter.next_tick == Some(
                (now + 1000 * t.filter.period_us) as u128,
            ) && after.filter.previous == delta
            &&& t.filter.period_us > 0 && delta == still() ==> after.filter.next_tick is None
        }),
{
    lemma_repaid(t.filter);
}

/// A tick that comes more than two periods late is given up: what was held back is
/// dropped with it, and only the numbering and the cadence are kept.
pub proof fn law_missed_ticks_start_over(t: Track, now: u128, reach: Reach, due: u128)
    requires
        t.wf(),
        t.filter.next_tick == Some(due),
        now > due + 2000 * t.filter.period_us,
    ensures
        ({
            let (after, sample) = t.tick(now, reach);
            &&& sample is None
            &&& after.filter.last_sequence == t.filter.last_sequence
            &&& after.filter.period_us == t.filter.period_us
            &&& after.filter.discontinuity == t.filter.discontinuity
            &&& owed_x(after) == 0
            &&& owed_y(after) == 0
            &&& after.filter.pending is None
            &&& after.filter.next_tick is None
            &&& after.filter.recent is Zero
            &&& after.gaps.len() == 0
        }),
{
}

/// A bin that comes while samples are being taken waits for the next of them, and one
/// that comes at rest is sampled at once.
pub proof fn law_bins_wait_for_the_next_sample(
    t: Track,
    bin: MotionBin,
    offset: int,
    baseline: int,
    now: u128,
)
    requires
        t.wf(),
        t.filter.last_sequence matches Some(last) ==> bin.sequence == last + 1,
        !t.filter.discontinuity,
        bin.period_us > 0,
        t.filter.last_real matches Some(last) ==> last.dx * bin.dx + last.dy * bin.dy > 0,
        offset - baseline <= 16_000,
    ensures
        ({
            let after = t.accept(bin, offset, baseline, now).filter;
            let moving = t.filter.next_tick is Some && t.filter.previous != still();
            &&& moving ==> after.next_tick == t.filter.next_tick && after.immediate
                == t.filter.immediate
            &&& !moving ==> after.next_tick is None && after.immediate
            &&& after.previous == t.filter.previous
            &&& after.recent == t.filter.recent
            &&& after.missing_ticks == 0
        }),
        t.accept(bin, offset, baseline, now).gaps == t.gaps,
{
}

/// A sampled bin is the newest of the three that a forecast is made from, and the time
/// since the bin before it is the newest of the last 31 gaps.
pub proof fn law_sampled_bins_are_remembered(t: Track, now: u128, reach: Reach, bin: Pending)
    requires
        balanced(t),
        now <= LATEST,
        t.filter.pending == Some(bin),
        t.tick(now, reach).1 is Some,
    ensures
        ({
            let after = t.tick(now, reach).0;
            &&& match (t.filter.recent, after.filter.recent) {
                (Recent::Zero, Recent::One(a)) => a == bin.delta,
                (Recent::One(a), Recent::Two(b, c)) => a == b && c == bin.delta,
                (Recent::Two(a, b), Recent::Three(c, d, e)) => a == c && b == d && e == bin.delta,
                (Recent::Three(_, a, b), Recent::Three(c, d, e)) => a == c && b == d && e
                    == bin.delta,
                _ => false,
            }
            &&& after.filter.last_real == Some(bin.delta)
            &&& after.filter.last_real_sequence == Some(bin.sequence)
            &&& after.filter.last_real_source_time_us == Some(bin.source_time_us)
            &&& after.filter.last_real_sampled_at == Some(now)
            &&& match t.filter.last_real_source_time_us {
                Some(before) if bin.source_time_us > before => {
                    &&& after.gaps.len() == (if t.gaps.len() < 31 {
                        t.gaps.len() + 1
                    } else {
                        31
                    })
                    &&& after.gaps.last() == bin.source_time_us - before
                    &&& t.gaps.len() < 31 ==> after.gaps.drop_last() == t.gaps
                    &&& t.gaps.len() == 31 ==> after.gaps.drop_last() == t.gaps.skip(1)
                },
                _ => after.gaps == t.gaps,
            }
        }),
{
    let longer = match t.filter.last_real_source_time_us {
        Some(before) if bin.source_time_us > before => t.gaps.push(
            (bin.source_time_us - before) as u64,
        ),
        _ => t.gaps,
    };
    if longer.len() > t.gaps.len() {
        assert(longer.drop_last() =~= t.gaps);
        if t.gaps.len() > 0 {
            assert(longer.drop_first().drop_last() =~= t.gaps.skip(1));
        }
    }
}

/// A forecast is sampled only where no bin waits and either one is under way, or three
/// bins and two gaps are known and the next bin has been missing beyond all patience.
pub proof fn law_forecasts_wait_for_missing_bins(t: Track, now: u128, reach: Reach)
    requires
        balanced(t),
        now <= LATEST,
        t.tick(now, reach).1 is Some,
    ensures
        t.tick(now, reach).0.filter.previous_predicted <==> t.filter.pending is None && (
        t.filter.missing_ticks > 0 || (t.filter.recent is Three && t.gaps.len() >= 2 && (
        t.filter.last_real_sampled_at matches Some(at) && now >= at + 1000 * patience_us(
            t.gaps,
            t.filter.period_us as int,
        )))),
{
}

/// The patience with a source: in an ordered list of its gaps, the middle one and twice the
/// middle distance from it, or the one that 95 in 100 do not exceed where that is longer,
/// and half a period more.
pub proof fn law_patience_follows_the_gaps(
    gaps: Seq<u64>,
    ordered: Seq<u64>,
    spread: Seq<u64>,
    apart: Seq<u64>,
    period_us: u32,
)
    requires
        gaps.len() > 0,
        forall|i: int| 0 <= i < gaps.len() ==> #[trigger] gaps[i] <= 0x1000_0000_0000_0000,
        ordered.to_multiset() == gaps.to_multiset(),
        forall|i: int, j: int| 0 <= i < j < ordered.len() ==> ordered[i] <= ordered[j],
        apart.len() == gaps.len(),
        forall|i: int|
            0 <= i < gaps.len() ==> #[trigger] apart[i] == (if gaps[i] >= ordered[(gaps.len() / 2) as int] {
                gaps[i] - ordered[(gaps.len() / 2) as int]
            } else {
                ordered[(gaps.len() / 2) as int] - gaps[i]
            }),
        spread.to_multiset() == apart.to_multiset(),
        forall|i: int, j: int| 0 <= i < j < spread.len() ==> spread[i] <= spread[j],
    ensures
        ({
            let n = gaps.len();
            let usual = ordered[(n / 2) as int] + 2 * spread[(n / 2) as int];
            let upper = ordered[(19 * n + 19) / 20 - 1];
            patience_us(gaps, period_us as int) == (if usual >= upper {
                usual
            } else {
                upper as int
            }) + period_us / 2
        }),
{
    assert(vstd::relations::sorted_by(ordered, num::at_most()));
    assert(vstd::relations::sorted_by(spread, num::at_most()));
    num::lemma_ascending_unique(gaps, ordered);
    num::lemma_ascending(gaps);
    let middle = num::median(gaps);
    assert(gaps.contains(middle));
    assert(distances(gaps, middle) =~= apart);
    num::lemma_ascending_unique(apart, spread);
    num::lemma_ascending(apart);
    let mid = (gaps.len() / 2) as int;
    assert(apart.contains(spread[mid]));
    let k = choose|k: int| 0 <= k < apart.len() && apart[k] == spread[mid];
    assert(apart[k] <= 0x1000_0000_0000_0000) by {
        assert(gaps[k] <= 0x1000_0000_0000_0000);
    }
    let last = (19 * gaps.len() + 19) / 20 - 1;
    assert(0 <= last < gaps.len());
    assert(gaps.contains(ordered[last]));
}

/// The first missing bin is forecast by half of the way that the newest bin went, or of
/// the reach where that is shorter, rounded up; the second brings it to three quarters;
/// and the third is not forecast any more. Both axes go by themselves.
pub proof fn law_forecasts_fade_out(f: Filter, newest: Delta, reach: Reach, w: int, h: int)
    requires
        f.wf(),
        f.pending is None,
        f.missing_ticks == 0,
        f.speculative == none_wide(),
        f.recent matches Recent::Three(_, _, last) && last == newest,
        w == (if newest.dx >= 0 { newest.dx as int } else { -newest.dx }),
        h == (if newest.dy >= 0 { newest.dy as int } else { -newest.dy }),
    ensures
        ({
            let (first, one) = f.spec_predict(reach);
            let (second, two) = first.spec_predict(reach);
            let (third, three) = second.spec_predict(reach);
            let x = if reach.dx < w { reach.dx as int } else { w };
            let y = if reach.dy < h { reach.dy as int } else { h };
            &&& newest.dx >= 0 ==> one.dx == (x + 1) / 2 && one.dx + two.dx == (3 * x + 3) / 4
            &&& newest.dx < 0 ==> -one.dx == (x + 1) / 2 && -(one.dx + two.dx) == (3 * x + 3) / 4
            &&& newest.dy >= 0 ==> one.dy == (y + 1) / 2 && one.dy + two.dy == (3 * y + 3) / 4
            &&& newest.dy < 0 ==> -one.dy == (y + 1) / 2 && -(one.dy + two.dy) == (3 * y + 3) / 4
            &&& three == still()
            &&& first.recent is Zero
            &&& third.speculative.dx == one.dx + two.dx
            &&& third.speculative.dy == one.dy + two.dy
        }),
{
}

/// A bin after a forecast gives up to half of itself for what was forecast the same way,
/// and the debt is less by as much. A bin the other way is passed on whole, and ends the
/// debt; so does a bin that others are missing before.
pub proof fn law_bins_repay_forecasts(f: Filter, bin: Pending)
    requires
        f.wf(),
    ensures
        ({
            let (after, current) = f.spec_reconcile(bin);
            let skipped = f.last_real_sequence matches Some(last) && bin.sequence > last + 1;
            let (d, m) = (f.speculative.dx as int, bin.delta.dx as int);
            let (e, n) = (f.speculative.dy as int, bin.delta.dy as int);
            &&& skipped ==> current == bin.delta && after.speculative == none_wide()
            &&& !skipped ==> {
                &&& d > 0 && m > 0 ==> m - current.dx == (if d < m / 2 { d } else { m / 2 })
                    && after.speculative.dx == d - (m - current.dx)
                &&& d < 0 && m < 0 ==> current.dx - m == (if -d < (-m) / 2 { -d } else { (-m) / 2 })
                    && after.speculative.dx == d - (m - current.dx)
                &&& d == 0 || m == 0 ==> current.dx == m && after.speculative.dx == d
                &&& d > 0 && m < 0 || d < 0 && m > 0 ==> current.dx == m && after.speculative.dx
                    == 0
                &&& e > 0 && n > 0 ==> n - current.dy == (if e < n / 2 { e } else { n / 2 })
                    && after.speculative.dy == e - (n - current.dy)
                &&& e < 0 && n < 0 ==> current.dy - n == (if -e < (-n) / 2 { -e } else { (-n) / 2 })
                    && after.speculative.dy == e - (n - current.dy)
                &&& e == 0 || n == 0 ==> current.dy == n && after.speculative.dy == e
                &&& e > 0 && n < 0 || e < 0 && n > 0 ==> current.dy == n && after.speculative.dy
                    == 0
            }
        }),
{
}

pub open spec fn exchanged_delta(d: Delta) -> Delta {
    Delta { dx: d.dy, dy: d.dx }
}

pub open spec fn exchanged_wide(d: Wide) -> Wide {
    Wide { dx: d.dy, dy: d.dx }
}

pub open spec fn exchanged_sample(d: Option<Delta>) -> Option<Delta> {
    match d {
        Some(d) => Some(exchanged_delta(d)),
        None => None,
    }
}

/// A filter whose two axes are exchanged.
pub open spec fn exchanged_filter(f: Filter) -> Filter {
    Filter {
        pending: match f.pending {
            Some(p) => Some(Pending { delta: exchanged_delta(p.delta), ..p }),
            None => None,
        },
        previous: exchanged_delta(f.previous),
        remainder: exchanged_wide(f.remainder),
        recent: match f.recent {
            Recent::Zero => Recent::Zero,
            Recent::One(a) => Recent::One(exchanged_delta(a)),
            Recent::Two(a, b) => Recent::Two(exchanged_delta(a), exchanged_delta(b)),
            Recent::Three(a, b, c) => Recent::Three(
                exchanged_delta(a),
                exchanged_delta(b),
                exchanged_delta(c),
            ),
        },
        last_real: match f.last_real {
            Some(d) => Some(exchanged_delta(d)),
            None => None,
        },
        prediction_budget: exchanged_wide(f.prediction_budget),
        predicted: exchanged_wide(f.predicted),
        speculative: exchanged_wide(f.speculative),
        ..f
    }
}

pub open spec fn exchanged(t: Track) -> Track {
    Track { filter: exchanged_filter(t.filter), ..t }
}

proof fn lemma_sampled_alike(f: Filter, current: Delta, predicted: bool)
    ensures
        exchanged_filter(f).spec_sample(exchanged_delta(current), predicted) == (
            exchanged_filter(f.spec_sample(current, predicted).0),
            exchanged_delta(f.spec_sample(current, predicted).1),
        ),
{
}

proof fn lemma_repaid_alike(f: Filter, p: Pending)
    ensures
        exchanged_filter(f).spec_reconcile(Pending { delta: exchanged_delta(p.delta), ..p }) == (
            exchanged_filter(f.spec_reconcile(p).0),
            exchanged_delta(f.spec_reconcile(p).1),
        ),
{
}

proof fn lemma_predicted_alike(f: Filter, reach: Reach)
    ensures
        exchanged_filter(f).spec_predict(Reach { dx: reach.dy, dy: reach.dx }) == (
            exchanged_filter(f.spec_predict(reach).0),
            exchanged_delta(f.spec_predict(reach).1),
        ),
{
}

proof fn lemma_recorded_alike(t: Track, p: Pending, now: u128)
    ensures
        exchanged(t).record_fresh(Pending { delta: exchanged_delta(p.delta), ..p }, now)
            == exchanged(t.record_fresh(p, now)),
{
}

/// Both axes of the bins that arrive are treated alike: exchanging them there exchanges
/// them in the filter, and does nothing else.
pub proof fn law_axes_are_accepted_alike(
    t: Track,
    bin: MotionBin,
    offset: int,
    baseline: int,
    now: u128,
)
    ensures
        exchanged(t).accept(MotionBin { dx: bin.dy, dy: bin.dx, ..bin }, offset, baseline, now)
            == exchanged(t.accept(bin, offset, baseline, now)),
{
}

/// Both axes are sampled alike at rest.
pub proof fn law_axes_start_alike(t: Track, now: u128)
    ensures
        exchanged(t).take_immediate(now) == (
            exchanged(t.take_immediate(now).0),
            exchanged_sample(t.take_immediate(now).1),
        ),
{
    if let Some(p) = t.filter.pending {
        let f = Filter { pending: None, immediate: false, ..t.filter };
        lemma_repaid_alike(f, p);
        let (paid, current) = f.spec_reconcile(p);
        lemma_recorded_alike(t.with(paid), p, now);
        let recorded = t.with(paid).record_fresh(p, now);
        lemma_sampled_alike(recorded.filter, current, false);
        assert(exchanged(t).with(exchanged_filter(paid)) == exchanged(t.with(paid)));
    }
}

/// Both axes are sampled and forecast alike at a tick.
pub proof fn law_axes_tick_alike(t: Track, now: u128, reach: Reach)
    ensures
        exchanged(t).tick(now, Reach { dx: reach.dy, dy: reach.dx }) == (
            exchanged(t.tick(now, reach).0),
            exchanged_sample(t.tick(now, reach).1),
        ),
{
    let there = Reach { dx: reach.dy, dy: reach.dx };
    assert(exchanged(t).ticks(now) == t.ticks(now));
    assert(exchanged(t).overdue(now) == t.overdue(now));
    let (taken, current, predicted) = t.intake(now, reach);
    assert(exchanged(t).intake(now, there) == (
        exchanged(taken),
        exchanged_delta(current),
        predicted,
    )) by {
        match t.filter.pending {
            Some(p) => {
                let f = Filter { pending: None, ..t.filter };
                lemma_repaid_alike(f, p);
                lemma_recorded_alike(t.with(f.spec_reconcile(p).0), p, now);
            },
            None => {
                lemma_predicted_alike(t.filter, reach);
            },
        }
    }
    lemma_sampled_alike(taken.filter, current, predicted);
    let after = taken.with(taken.filter.spec_sample(current, predicted).0);
    assert(exchanged(after).prediction_deadline() == after.prediction_deadline());
    assert((exchanged_delta(current) == still()) == (current == still()));
}

/// Both axes are flushed alike.
pub proof fn law_axes_are_flushed_alike(t: Track, now: u128)
    ensures
        exchanged(t).flush_at(now) == (
            exchanged(t.flush_at(now).0),
            exchanged_wide(t.flush_at(now).1),
        ),
{
    let settled = t.settled();
    assert(exchanged(t).settled() == exchanged_filter(settled));
    if let Some(p) = settled.pending {
        lemma_repaid_alike(Filter { pending: None, ..settled }, p);
    }
    let (closed, current) = settled.spec_close(now);
    assert(exchanged_filter(settled).spec_close(now) == (
        exchanged_filter(closed),
        exchanged_delta(current),
    ));
    lemma_sampled_alike(closed, current, false);
    lemma_sampled_alike(closed.spec_sample(current, false).0, still(), false);
    assert(exchanged_delta(still()) == still());
}

/// A flush moves by no more than two samples.
pub proof fn lemma_flush_is_bounded(t: Track, now: u128)
    ensures
        -0x1_0000_0000 <= t.flush_at(now).1.dx <= 0x1_0000_0000,
        -0x1_0000_0000 <= t.flush_at(now).1.dy <= 0x1_0000_0000,
{
}

} // verus!
