//! Samples the motion of every source, and merges the samples into mouse reports.
use crate::clock::{self, ClockBaseline};
use crate::filter::{self, Delta, MotionBin, Reach, Recent, Source, Track, Wide, LATEST};
use crate::num::{self, clamp32, saturating_add64};
use vstd::prelude::*;

verus! {

/// What the pointer does at once.
#[derive(Clone, Copy, Debug, PartialEq, Eq, Structural)]
pub struct MouseOutput {
    pub buttons: u8,
    pub dx: i32,
    pub dy: i32,
    pub wheel: i32,
}

/// How far the forecast that a source starts may go.
#[derive(Clone, Copy, Debug, PartialEq, Eq, Structural)]
pub struct Forecast {
    pub source_id: u32,
    pub reach: Reach,
}

/// A source that starts a forecast, and the bins that its confidence rests on.
#[derive(Clone, Copy, Debug, PartialEq, Eq, Structural)]
pub struct ForecastRequest {
    pub source_id: u32,
    pub oldest: Delta,
    pub middle: Delta,
    pub newest: Delta,
}

#[derive(Debug)]
pub struct Entry {
    pub id: u32,
    pub source: Source,
}

pub open spec fn wide_sum(total: Wide, dx: int, dy: int) -> Wide {
    Wide {
        dx: num::clamped(total.dx + dx, i64::MIN as int, i64::MAX as int) as i64,
        dy: num::clamped(total.dy + dy, i64::MIN as int, i64::MAX as int) as i64,
    }
}

/// What the samples of all sources add up to.
pub open spec fn sum_of_samples(samples: Seq<Option<Delta>>) -> Wide
    decreases samples.len(),
{
    if samples.len() == 0 {
        filter::none_wide()
    } else {
        let before = sum_of_samples(samples.drop_last());
        match samples.last() {
            Some(delta) => wide_sum(before, delta.dx as int, delta.dy as int),
            None => before,
        }
    }
}

pub open spec fn sum_of_flushes(flushes: Seq<Wide>) -> Wide
    decreases flushes.len(),
{
    if flushes.len() == 0 {
        filter::none_wide()
    } else {
        wide_sum(
            sum_of_flushes(flushes.drop_last()),
            flushes.last().dx as int,
            flushes.last().dy as int,
        )
    }
}

/// A report of `delta`, none where nothing moves.
pub open spec fn report(buttons: u8, delta: Wide) -> Option<MouseOutput> {
    if delta == filter::none_wide() {
        None
    } else {
        Some(
            MouseOutput {
                buttons,
                dx: num::clamped32(delta.dx as int),
                dy: num::clamped32(delta.dy as int),
                wheel: 0,
            },
        )
    }
}

/// The reach that `forecasts` gives a source, nothing where it names none.
pub open spec fn reach_of(forecasts: Seq<Forecast>, id: u32) -> Reach
    decreases forecasts.len(),
{
    if forecasts.len() == 0 {
        Reach { dx: 0, dy: 0 }
    } else if forecasts[0].source_id == id {
        forecasts[0].reach
    } else {
        reach_of(forecasts.drop_first(), id)
    }
}

/// The forecasts that the samples at `now` start, in the order of the sources.
pub open spec fn requests(sources: Seq<(u32, Track)>, now: u128) -> Seq<ForecastRequest>
    decreases sources.len(),
{
    if sources.len() == 0 {
        seq![]
    } else {
        let before = requests(sources.drop_last(), now);
        let (source_id, track) = sources.last();
        match track.filter.recent {
            Recent::Three(oldest, middle, newest) if track.starts_forecast(now) => before.push(
                ForecastRequest { source_id, oldest, middle, newest },
            ),
            _ => before,
        }
    }
}

/// The sampler: the state of the buttons, the sources in order of appearance,
/// the clock's offsets, and the instant that arrival times count from.
#[verifier::ext_equal]
pub struct Sampling {
    pub buttons: u8,
    pub sources: Seq<(u32, Track)>,
    pub clock: Seq<(u64, i128)>,
    pub start: Option<u128>,
}

impl Sampling {
    pub open spec fn empty() -> Sampling {
        Sampling { buttons: 0, sources: seq![], clock: seq![], start: None }
    }

    pub open spec fn knows(self, id: u32) -> bool {
        exists|i: int| 0 <= i < self.sources.len() && #[trigger] self.sources[i].0 == id
    }

    /// Where a known source stands.
    pub open spec fn place(self, id: u32) -> int {
        choose|i: int| 0 <= i < self.sources.len() && #[trigger] self.sources[i].0 == id
    }

    pub open spec fn track(self, id: u32) -> Track {
        if self.knows(id) {
            self.sources[self.place(id)].1
        } else {
            Track::fresh()
        }
    }

    pub open spec fn with_track(self, id: u32, track: Track) -> Sampling {
        Sampling {
            sources: if self.knows(id) {
                self.sources.update(self.place(id), (id, track))
            } else {
                self.sources.push((id, track))
            },
            ..self
        }
    }

    pub open spec fn distinct(self) -> bool {
        forall|i: int, j: int|
            0 <= i < j < self.sources.len() ==> #[trigger] self.sources[i].0
                != #[trigger] self.sources[j].0
    }

    /// Microseconds since the first observation.
    pub open spec fn arrival_us(self, now: u128) -> u64 {
        match self.start {
            Some(start) if now > start => (((now - start) / 1000) % 0x1_0000_0000_0000_0000) as u64,
            _ => 0,
        }
    }

    pub open spec fn started(self, now: u128) -> Sampling {
        Sampling {
            start: Some(
                match self.start {
                    Some(start) => start,
                    None => now,
                },
            ),
            ..self
        }
    }

    /// The baseline that a packet is held against.
    pub open spec fn baseline(self, arrival_us: u64, offset: int) -> int {
        let kept = clock::pruned(self.clock, arrival_us);
        let fallback = offset as i128;
        (choose|low: i128| #[trigger] clock::is_baseline(kept, fallback, low)) as int
    }

    pub open spec fn accept_bin(self, bin: MotionBin, now: u128) -> Sampling {
        if self.track(bin.source_id).repeated(bin) {
            self
        } else {
            let ready = self.started(now);
            let arrival = ready.arrival_us(now);
            let offset = clock::clock_offset(arrival, bin.source_time_us);
            let baseline = ready.baseline(arrival, offset);
            Sampling {
                clock: clock::after_motion(ready.clock, arrival, offset, baseline),
                ..ready.with_track(
                    bin.source_id,
                    ready.track(bin.source_id).accept(bin, offset, baseline, now),
                )
            }
        }
    }

    pub open spec fn observe_clock(self, host_time_us: u64, now: u128) -> Sampling {
        let ready = self.started(now);
        let arrival = ready.arrival_us(now);
        Sampling {
            clock: clock::observed(
                clock::pruned(ready.clock, arrival),
                arrival,
                clock::clock_offset(arrival, host_time_us),
            ),
            ..ready
        }
    }

    /// The earliest deadline of a source.
    pub open spec fn is_next_tick(self, at: Option<u128>) -> bool {
        match at {
            Some(at) => {
                &&& exists|i: int|
                    0 <= i < self.sources.len() && #[trigger] self.sources[i].1.filter.next_tick
                        == Some(at)
                &&& forall|i: int|
                    0 <= i < self.sources.len() ==> (#[trigger] self.sources[i].1.filter.next_tick
                        matches Some(other) ==> at <= other)
            },
            None => forall|i: int|
                0 <= i < self.sources.len() ==> #[trigger] self.sources[i].1.filter.next_tick
                    is None,
        }
    }

    pub open spec fn take_immediate(self, now: u128) -> (Sampling, Option<MouseOutput>) {
        let steps = Seq::new(self.sources.len(), |i: int| self.sources[i].1.take_immediate(now));
        (
            Sampling {
                sources: Seq::new(self.sources.len(), |i: int| (self.sources[i].0, steps[i].0)),
                ..self
            },
            report(
                self.buttons,
                sum_of_samples(Seq::new(self.sources.len(), |i: int| steps[i].1)),
            ),
        )
    }

    pub open spec fn tick(self, now: u128, forecasts: Seq<Forecast>) -> (
        Sampling,
        Option<MouseOutput>,
    ) {
        let steps = Seq::new(
            self.sources.len(),
            |i: int| self.sources[i].1.tick(now, reach_of(forecasts, self.sources[i].0)),
        );
        (
            Sampling {
                sources: Seq::new(self.sources.len(), |i: int| (self.sources[i].0, steps[i].0)),
                ..self
            },
            report(
                self.buttons,
                sum_of_samples(Seq::new(self.sources.len(), |i: int| steps[i].1)),
            ),
        )
    }

    pub open spec fn flush_at(self, now: u128) -> (Sampling, Option<MouseOutput>) {
        let steps = Seq::new(self.sources.len(), |i: int| self.sources[i].1.flush_at(now));
        (
            Sampling {
                sources: Seq::new(self.sources.len(), |i: int| (self.sources[i].0, steps[i].0)),
                ..self
            },
            report(
                self.buttons,
                sum_of_flushes(Seq::new(self.sources.len(), |i: int| steps[i].1)),
            ),
        )
    }
}

/// The sources of motion and the state of the buttons.
#[derive(Debug)]
pub struct MotionSampler {
    pub buttons: u8,
    pub sources: Vec<Entry>,
    pub clock: ClockBaseline,
    pub start: Option<u128>,
}

impl View for MotionSampler {
    type V = Sampling;

    open spec fn view(&self) -> Sampling {
        Sampling {
            buttons: self.buttons,
            sources: self.sources@.map_values(|e: Entry| (e.id, e.source@)),
            clock: self.clock@,
            start: self.start,
        }
    }
}

fn add(total: Wide, dx: i64, dy: i64) -> (r: Wide)
    ensures
        r == wide_sum(total, dx as int, dy as int),
{
    Wide { dx: saturating_add64(total.dx, dx), dy: saturating_add64(total.dy, dy) }
}

fn find_reach(forecasts: &[Forecast], id: u32) -> (r: Reach)
    ensures
        r == reach_of(forecasts@, id),
{
    let mut i: usize = 0;
    assert(forecasts@.skip(0) =~= forecasts@);
    while i < forecasts.len()
        invariant
            i <= forecasts@.len(),
            reach_of(forecasts@, id) == reach_of(forecasts@.skip(i as int), id),
        decreases forecasts@.len() - i,
    {
        proof {
            assert(forecasts@.skip(i as int).drop_first() =~= forecasts@.skip(i + 1));
        }
        if forecasts[i].source_id == id {
            return forecasts[i].reach;
        }
        i = i + 1;
    }
    Reach { dx: 0, dy: 0 }
}

impl MotionSampler {
    pub open spec fn wf(self) -> bool {
        &&& self.clock.wf()
        &&& self@.distinct()
        &&& forall|i: int| 0 <= i < self.sources@.len() ==> (#[trigger] self.sources@[i]).source.wf()
    }

    pub fn new() -> (r: MotionSampler)
        ensures
            r.wf(),
            r@ == Sampling::empty(),
    {
        let r = MotionSampler {
            buttons: 0,
            sources: Vec::new(),
            clock: ClockBaseline::new(),
            start: None,
        };
        assert(r@ =~= Sampling::empty());
        r
    }

    /// Forgets everything.
    pub fn reset(&mut self)
        ensures
            final(self).wf(),
            final(self)@ == Sampling::empty(),
    {
        *self = MotionSampler::new();
    }

    fn find(&self, id: u32) -> (r: Option<usize>)
        requires
            self.wf(),
        ensures
            r is Some == self@.knows(id),
            r matches Some(i) ==> i < self.sources@.len() && i == self@.place(id)
                && self.sources@[i as int].id == id,
    {
        let mut i: usize = 0;
        while i < self.sources.len()
            invariant
                self.wf(),
                i <= self.sources@.len(),
                forall|j: int| 0 <= j < i ==> (#[trigger] self.sources@[j]).id != id,
            decreases self.sources@.len() - i,
        {
            if self.sources[i].id == id {
                proof {
                    assert(self@.sources[i as int].0 == id);
                }
                return Some(i);
            }
            i = i + 1;
        }
        proof {
            if self@.knows(id) {
                let j = self@.place(id);
                assert(self.sources@[j].id == id);
            }
        }
        None
    }

    fn begin(&mut self, now: u128) -> (r: u64)
        requires
            old(self).wf(),
        ensures
            final(self).wf(),
            final(self)@ == old(self)@.started(now),
            final(self).sources == old(self).sources,
            r == final(self)@.arrival_us(now),
    {
        let start: u128 = match self.start {
            Some(start) => start,
            None => now,
        };
        self.start = Some(start);
        if now > start {
            (((now - start) / 1000) % 0x1_0000_0000_0000_0000) as u64
        } else {
            0
        }
    }

    /// Takes in a bin that arrived at `now`, in nanoseconds.
    pub fn accept_bin(&mut self, bin: MotionBin, now: u128)
        requires
            old(self).wf(),
            now <= LATEST,
        ensures
            final(self).wf(),
            final(self)@ == old(self)@.accept_bin(bin, now),
    {
        let ghost before = self@;
        let found: Option<usize> = self.find(bin.source_id);
        if let Some(at) = found {
            if let Some(last) = self.sources[at].source.filter.last_sequence {
                if bin.sequence <= last {
                    return;
                }
            }
        }
        let arrival: u64 = self.begin(now);
        let ghost ready = self@;
        proof {
            assert(ready.sources =~= before.sources);
        }
        let (offset, baseline) = self.clock.observe_motion(arrival, bin.source_time_us);
        proof {
            let kept = clock::pruned(ready.clock, arrival);
            let low = choose|low: i128| #[trigger] clock::is_baseline(kept, offset, low);
            clock::lemma_baseline_unique(kept, offset, baseline, low);
            assert(baseline == ready.baseline(arrival, offset as int));
        }
        match found {
            Some(at) => {
                self.sources[at].source.accept(bin, offset, baseline, now);
            },
            None => {
                let mut source: Source = Source::new();
                source.accept(bin, offset, baseline, now);
                self.sources.push(Entry { id: bin.source_id, source });
            },
        }
        proof {
            let want = before.accept_bin(bin, now);
            assert(self@.sources =~= want.sources);
            assert forall|i: int, j: int| 0 <= i < j < self@.sources.len() implies #[trigger] self@.sources[i].0
                != #[trigger] self@.sources[j].0 by {
                if j < before.sources.len() {
                    assert(before.sources[i].0 != before.sources[j].0);
                } else {
                    assert(before.sources[i].0 != bin.source_id);
                }
            }
        }
    }

    /// Takes in the source's clock as a heartbeat shows it.
    pub fn observe_clock(&mut self, host_time_us: u64, now: u128)
        requires
            old(self).wf(),
        ensures
            final(self).wf(),
            final(self)@ == old(self)@.observe_clock(host_time_us, now),
    {
        let arrival: u64 = self.begin(now);
        self.clock.observe_heartbeat(arrival, host_time_us);
    }

    /// The instant of the earliest sample that is due.
    pub fn next_tick(&self) -> (r: Option<u128>)
        ensures
            self@.is_next_tick(r),
    {
        let mut soonest: Option<u128> = None;
        let mut i: usize = 0;
        while i < self.sources.len()
            invariant
                i <= self.sources@.len(),
                soonest matches Some(at) ==> exists|j: int|
                    0 <= j < i && #[trigger] self@.sources[j].1.filter.next_tick == Some(at),
                forall|j: int|
                    0 <= j < i ==> (#[trigger] self@.sources[j].1.filter.next_tick matches Some(
                        other,
                    ) ==> soonest matches Some(at) && at <= other),
            decreases self.sources@.len() - i,
        {
            let ghost entry = self@.sources[i as int];
            if let Some(at) = self.sources[i].source.filter.next_tick {
                assert(entry.1.filter.next_tick == Some(at));
                let sooner: bool = match soonest {
                    Some(other) => at < other,
                    None => true,
                };
                if sooner {
                    soonest = Some(at);
                }
            }
            i = i + 1;
        }
        soonest
    }

    fn output(&self, delta: Wide) -> (r: Option<MouseOutput>)
        ensures
            r == report(self.buttons, delta),
    {
        if delta.dx == 0 && delta.dy == 0 {
            None
        } else {
            Some(
                MouseOutput {
                    buttons: self.buttons,
                    dx: clamp32(delta.dx),
                    dy: clamp32(delta.dy),
                    wheel: 0,
                },
            )
        }
    }

    /// The samples of the bins that arrived while their sources were at rest.
    pub fn take_immediate(&mut self, now: u128) -> (r: Option<MouseOutput>)
        requires
            old(self).wf(),
            now <= LATEST,
        ensures
            final(self).wf(),
            (final(self)@, r) == old(self)@.take_immediate(now),
    {
        let ghost before = self@;
        let ghost outs = Seq::new(
            before.sources.len(),
            |i: int| before.sources[i].1.take_immediate(now).1,
        );
        let mut total: Wide = Wide { dx: 0, dy: 0 };
        let mut i: usize = 0;
        while i < self.sources.len()
            invariant
                i <= self.sources@.len(),
                now <= LATEST,
                self.sources@.len() == before.sources.len() == outs.len(),
                self.clock.wf(),
                self.buttons == before.buttons,
                self.clock@ == before.clock,
                self.start == before.start,
                outs == Seq::new(
                    before.sources.len(),
                    |i: int| before.sources[i].1.take_immediate(now).1,
                ),
                forall|j: int|
                    0 <= j < self.sources@.len() ==> (#[trigger] self.sources@[j]).source.wf()
                        && self.sources@[j].id == before.sources[j].0,
                forall|j: int|
                    0 <= j < i ==> (#[trigger] self.sources@[j]).source@
                        == before.sources[j].1.take_immediate(now).0,
                forall|j: int|
                    i <= j < self.sources@.len() ==> (#[trigger] self.sources@[j]).source@
                        == before.sources[j].1,
                total == sum_of_samples(outs.take(i as int)),
            decreases self.sources@.len() - i,
        {
            let delta: Option<Delta> = self.sources[i].source.take_immediate(now);
            proof {
                assert(outs.take(i + 1).drop_last() =~= outs.take(i as int));
                assert(outs.take(i + 1).last() == delta);
            }
            if let Some(delta) = delta {
                total = self::add(total, delta.dx as i64, delta.dy as i64);
            }
            i = i + 1;
        }
        proof {
            assert(outs.take(i as int) =~= outs);
            let want = before.take_immediate(now);
            assert(self@.sources =~= want.0.sources);
            let steps = Seq::new(
                before.sources.len(),
                |i: int| before.sources[i].1.take_immediate(now),
            );
            assert(outs =~= Seq::new(before.sources.len(), |i: int| steps[i].1));
            assert(self@.distinct()) by {
                assert forall|i: int, j: int| 0 <= i < j < self@.sources.len() implies #[trigger] self@.sources[i].0
                    != #[trigger] self@.sources[j].0 by {
                    assert(before.sources[i].0 != before.sources[j].0);
                }
            }
        }
        self.output(total)
    }

    /// The forecasts that the samples at `now` start.
    pub fn forecasts_due(&self, now: u128) -> (r: Vec<ForecastRequest>)
        requires
            self.wf(),
        ensures
            r@ == requests(self@.sources, now),
    {
        let mut due: Vec<ForecastRequest> = Vec::new();
        let mut i: usize = 0;
        let ghost sources = self@.sources;
        while i < self.sources.len()
            invariant
                self.wf(),
                sources == self@.sources,
                i <= self.sources@.len(),
                due@ == requests(sources.take(i as int), now),
            decreases self.sources@.len() - i,
        {
            proof {
                assert(sources.take(i + 1).drop_last() =~= sources.take(i as int));
                assert(sources.take(i + 1).last() == (
                    self.sources@[i as int].id,
                    self.sources@[i as int].source@,
                ));
            }
            let id: u32 = self.sources[i].id;
            if let Some((oldest, middle, newest)) = self.sources[i].source.starts_forecast(now) {
                due.push(ForecastRequest { source_id: id, oldest, middle, newest });
            }
            i = i + 1;
        }
        assert(sources.take(i as int) =~= sources);
        due
    }

    /// The samples that are due at `now`.
    pub fn tick(&mut self, now: u128, forecasts: &[Forecast]) -> (r: Option<MouseOutput>)
        requires
            old(self).wf(),
            now <= LATEST,
        ensures
            final(self).wf(),
            (final(self)@, r) == old(self)@.tick(now, forecasts@),
    {
        let ghost before = self@;
        let ghost outs = Seq::new(
            before.sources.len(),
            |i: int| before.sources[i].1.tick(now, reach_of(forecasts@, before.sources[i].0)).1,
        );
        let mut total: Wide = Wide { dx: 0, dy: 0 };
        let mut i: usize = 0;
        while i < self.sources.len()
            invariant
                i <= self.sources@.len(),
                now <= LATEST,
                self.sources@.len() == before.sources.len() == outs.len(),
                self.clock.wf(),
                self.buttons == before.buttons,
                self.clock@ == before.clock,
                self.start == before.start,
                outs == Seq::new(
                    before.sources.len(),
                    |i: int|
                        before.sources[i].1.tick(now, reach_of(forecasts@, before.sources[i].0)).1,
                ),
                forall|j: int|
                    0 <= j < self.sources@.len() ==> (#[trigger] self.sources@[j]).source.wf()
                        && self.sources@[j].id == before.sources[j].0,
                forall|j: int|
                    0 <= j < i ==> (#[trigger] self.sources@[j]).source@
                        == before.sources[j].1.tick(
                        now,
                        reach_of(forecasts@, before.sources[j].0),
                    ).0,
                forall|j: int|
                    i <= j < self.sources@.len() ==> (#[trigger] self.sources@[j]).source@
                        == before.sources[j].1,
                total == sum_of_samples(outs.take(i as int)),
            decreases self.sources@.len() - i,
        {
            let reach: Reach = find_reach(forecasts, self.sources[i].id);
            let delta: Option<Delta> = self.sources[i].source.tick(now, reach);
            proof {
                assert(outs.take(i + 1).drop_last() =~= outs.take(i as int));
                assert(outs.take(i + 1).last() == delta);
            }
            if let Some(delta) = delta {
                total = self::add(total, delta.dx as i64, delta.dy as i64);
            }
            i = i + 1;
        }
        proof {
            assert(outs.take(i as int) =~= outs);
            let want = before.tick(now, forecasts@);
            assert(self@.sources =~= want.0.sources);
            let steps = Seq::new(
                before.sources.len(),
                |i: int| before.sources[i].1.tick(now, reach_of(forecasts@, before.sources[i].0)),
            );
            assert(outs =~= Seq::new(before.sources.len(), |i: int| steps[i].1));
            assert(self@.distinct()) by {
                assert forall|i: int, j: int| 0 <= i < j < self@.sources.len() implies #[trigger] self@.sources[i].0
                    != #[trigger] self@.sources[j].0 by {
                    assert(before.sources[i].0 != before.sources[j].0);
                }
            }
        }
        self.output(total)
    }

    /// Everything that the sources still owe.
    pub fn flush_at(&mut self, now: u128) -> (r: Option<MouseOutput>)
        requires
            old(self).wf(),
            now <= LATEST,
        ensures
            final(self).wf(),
            (final(self)@, r) == old(self)@.flush_at(now),
    {
        let ghost before = self@;
        let ghost outs = Seq::new(
            before.sources.len(),
            |i: int| before.sources[i].1.flush_at(now).1,
        );
        let mut total: Wide = Wide { dx: 0, dy: 0 };
        let mut i: usize = 0;
        while i < self.sources.len()
            invariant
                i <= self.sources@.len(),
                now <= LATEST,
                self.sources@.len() == before.sources.len() == outs.len(),
                self.clock.wf(),
                self.buttons == before.buttons,
                self.clock@ == before.clock,
                self.start == before.start,
                outs == Seq::new(
                    before.sources.len(),
                    |i: int| before.sources[i].1.flush_at(now).1,
                ),
                forall|j: int|
                    0 <= j < self.sources@.len() ==> (#[trigger] self.sources@[j]).source.wf()
                        && self.sources@[j].id == before.sources[j].0,
                forall|j: int|
                    0 <= j < i ==> (#[trigger] self.sources@[j]).source@
                        == before.sources[j].1.flush_at(now).0,
                forall|j: int|
                    i <= j < self.sources@.len() ==> (#[trigger] self.sources@[j]).source@
                        == before.sources[j].1,
                total == sum_of_flushes(outs.take(i as int)),
            decreases self.sources@.len() - i,
        {
            let delta: Wide = self.sources[i].source.flush_at(now);
            proof {
                assert(outs.take(i + 1).drop_last() =~= outs.take(i as int));
                assert(outs.take(i + 1).last() == delta);
            }
            total = self::add(total, delta.dx, delta.dy);
            i = i + 1;
        }
        proof {
            assert(outs.take(i as int) =~= outs);
            let want = before.flush_at(now);
            assert(self@.sources =~= want.0.sources);
            let steps = Seq::new(before.sources.len(), |i: int| before.sources[i].1.flush_at(now));
            assert(outs =~= Seq::new(before.sources.len(), |i: int| steps[i].1));
            assert(self@.distinct()) by {
                assert forall|i: int, j: int| 0 <= i < j < self@.sources.len() implies #[trigger] self@.sources[i].0
                    != #[trigger] self@.sources[j].0 by {
                    assert(before.sources[i].0 != before.sources[j].0);
                }
            }
        }
        self.output(total)
    }

    /// A report that does not come from a sample.
    pub fn discrete(&mut self, buttons: u8, dx: i32, dy: i32, wheel: i32) -> (r: MouseOutput)
        requires
            old(self).wf(),
        ensures
            final(self).wf(),
            final(self)@ == (Sampling { buttons, ..old(self)@ }),
            r == (MouseOutput { buttons, dx, dy, wheel }),
    {
        self.buttons = buttons;
        MouseOutput { buttons, dx, dy, wheel }
    }
}

/// A bin whose sequence its source has passed changes nothing, not even the
/// clock's baseline.
pub proof fn law_repeated_bin_changes_nothing(s: Sampling, bin: MotionBin, now: u128)
    requires
        s.knows(bin.source_id),
        s.track(bin.source_id).filter.last_sequence matches Some(last) && bin.sequence <= last,
    ensures
        s.accept_bin(bin, now) == s,
{
}

/// A bin touches its own source only.
pub proof fn law_sources_are_independent(s: Sampling, bin: MotionBin, now: u128, other: u32)
    requires
        s.distinct(),
        other != bin.source_id,
    ensures
        s.accept_bin(bin, now).track(other) == s.track(other),
        s.accept_bin(bin, now).buttons == s.buttons,
{
    let after = s.accept_bin(bin, now);
    if !s.track(bin.source_id).repeated(bin) {
        let ready = s.started(now);
        assert(ready.sources == s.sources);
        assert(ready.knows(bin.source_id) == s.knows(bin.source_id));
        if s.knows(other) {
            let i = s.place(other);
            assert(after.sources[i].0 == other);
            let j = after.place(other);
            assert(after.sources[j].0 == other);
            if j < s.sources.len() {
                assert(s.sources[j].0 == other);
                assert(i == j);
            }
        } else if after.knows(other) {
            let j = after.place(other);
            assert(after.sources[j].0 == other);
            if j < s.sources.len() {
                assert(s.sources[j].0 == other);
            }
        }
    }
}

/// A sampler that has been reset reports no motion until a bin arrives.
pub proof fn law_reset_sampler_is_silent(now: u128, forecasts: Seq<Forecast>)
    ensures
        Sampling::empty().take_immediate(now).1 is None,
        Sampling::empty().tick(now, forecasts).1 is None,
        Sampling::empty().flush_at(now).1 is None,
        Sampling::empty().is_next_tick(None),
{
}

/// A bin that comes both ways, over the fast path and in the ordered stream, counts
/// once.
pub proof fn law_copies_of_a_bin_count_once(s: Sampling, bin: MotionBin, now: u128, later: u128)
    requires
        s.distinct(),
    ensures
        s.accept_bin(bin, now).accept_bin(bin, later) == s.accept_bin(bin, now),
{
    let id = bin.source_id;
    let after = s.accept_bin(bin, now);
    if !s.track(id).repeated(bin) {
        let ready = s.started(now);
        let at = if ready.knows(id) {
            ready.place(id)
        } else {
            ready.sources.len() as int
        };
        assert(ready.sources == s.sources);
        if s.knows(id) {
            assert(ready.sources[s.place(id)].0 == id);
            assert(ready.place(id) == s.place(id));
            assert(ready.track(id) == s.track(id));
        }
        assert(after.sources[at].0 == id);
        assert(after.knows(id));
        assert(after.place(id) == at) by {
            let found = after.place(id);
            if found != at {
                assert(after.sources[found] == ready.sources[found]);
            }
        }
        assert(after.track(id).filter.last_sequence == Some(bin.sequence));
    }
}

/// How far some samples move to the right in all.
pub open spec fn moved_x(samples: Seq<Option<Delta>>) -> int
    decreases samples.len(),
{
    if samples.len() == 0 {
        0
    } else {
        moved_x(samples.drop_last()) + filter::dx_of(samples.last())
    }
}

/// How far some samples move down in all.
pub open spec fn moved_y(samples: Seq<Option<Delta>>) -> int
    decreases samples.len(),
{
    if samples.len() == 0 {
        0
    } else {
        moved_y(samples.drop_last()) + filter::dy_of(samples.last())
    }
}

pub open spec fn flushed_x(flushes: Seq<Wide>) -> int
    decreases flushes.len(),
{
    if flushes.len() == 0 {
        0
    } else {
        flushed_x(flushes.drop_last()) + flushes.last().dx
    }
}

pub open spec fn flushed_y(flushes: Seq<Wide>) -> int
    decreases flushes.len(),
{
    if flushes.len() == 0 {
        0
    } else {
        flushed_y(flushes.drop_last()) + flushes.last().dy
    }
}

/// Whether a report tells of a movement by `x` and `y`: none where nothing moves, and
/// otherwise one with the buttons, no turn of the wheel, and on each axis the movement,
/// up to the 32-bit limits.
pub open spec fn tells(report: Option<MouseOutput>, buttons: u8, x: int, y: int) -> bool {
    match report {
        None => x == 0 && y == 0,
        Some(out) => {
            &&& x != 0 || y != 0
            &&& out.buttons == buttons
            &&& out.wheel == 0
            &&& i32::MIN <= x <= i32::MAX ==> out.dx == x
            &&& x > i32::MAX ==> out.dx == i32::MAX
            &&& x < i32::MIN ==> out.dx == i32::MIN
            &&& i32::MIN <= y <= i32::MAX ==> out.dy == y
            &&& y > i32::MAX ==> out.dy == i32::MAX
            &&& y < i32::MIN ==> out.dy == i32::MIN
        },
    }
}

proof fn lemma_sum_of_samples(samples: Seq<Option<Delta>>)
    requires
        samples.len() <= 0x1000_0000,
    ensures
        sum_of_samples(samples).dx == moved_x(samples),
        sum_of_samples(samples).dy == moved_y(samples),
        -0x8000_0000 * samples.len() <= moved_x(samples) <= 0x8000_0000 * samples.len(),
        -0x8000_0000 * samples.len() <= moved_y(samples) <= 0x8000_0000 * samples.len(),
    decreases samples.len(),
{
    if samples.len() > 0 {
        lemma_sum_of_samples(samples.drop_last());
    }
}

proof fn lemma_sum_of_flushes(flushes: Seq<Wide>)
    requires
        flushes.len() <= 0x1000_0000,
        forall|i: int|
            0 <= i < flushes.len() ==> -0x1_0000_0000 <= (#[trigger] flushes[i]).dx <= 0x1_0000_0000
                && -0x1_0000_0000 <= flushes[i].dy <= 0x1_0000_0000,
    ensures
        sum_of_flushes(flushes).dx == flushed_x(flushes),
        sum_of_flushes(flushes).dy == flushed_y(flushes),
        -0x1_0000_0000 * flushes.len() <= flushed_x(flushes) <= 0x1_0000_0000 * flushes.len(),
        -0x1_0000_0000 * flushes.len() <= flushed_y(flushes) <= 0x1_0000_0000 * flushes.len(),
    decreases flushes.len(),
{
    if flushes.len() > 0 {
        let before = flushes.drop_last();
        assert forall|i: int| 0 <= i < before.len() implies -0x1_0000_0000 <= (
        #[trigger] before[i]).dx <= 0x1_0000_0000 && -0x1_0000_0000 <= before[i].dy
            <= 0x1_0000_0000 by {
            assert(before[i] == flushes[i]);
        }
        lemma_sum_of_flushes(before);
        assert(flushes[flushes.len() - 1] == flushes.last());
    }
}

/// What the sources sample at a tick.
pub open spec fn ticked(s: Sampling, now: u128, forecasts: Seq<Forecast>) -> Seq<Option<Delta>> {
    Seq::new(
        s.sources.len(),
        |i: int| s.sources[i].1.tick(now, reach_of(forecasts, s.sources[i].0)).1,
    )
}

/// What the sources sample of the bins that arrived at rest.
pub open spec fn begun(s: Sampling, now: u128) -> Seq<Option<Delta>> {
    Seq::new(s.sources.len(), |i: int| s.sources[i].1.take_immediate(now).1)
}

/// What the sources flush.
pub open spec fn flushed(s: Sampling, now: u128) -> Seq<Wide> {
    Seq::new(s.sources.len(), |i: int| s.sources[i].1.flush_at(now).1)
}

/// The report of a tick moves by the sum of what the sources sampled, on each axis, and
/// every source has gone on by its own tick.
pub proof fn law_ticks_report_every_sample(s: Sampling, now: u128, forecasts: Seq<Forecast>)
    requires
        s.sources.len() <= 0x1000_0000,
    ensures
        ({
            let (after, report) = s.tick(now, forecasts);
            let samples = ticked(s, now, forecasts);
            &&& tells(report, s.buttons, moved_x(samples), moved_y(samples))
            &&& after.buttons == s.buttons
            &&& after.clock == s.clock
            &&& after.start == s.start
            &&& after.sources.len() == s.sources.len()
            &&& forall|i: int|
                0 <= i < s.sources.len() ==> (#[trigger] after.sources[i]).0 == s.sources[i].0
                    && after.sources[i].1 == s.sources[i].1.tick(
                    now,
                    reach_of(forecasts, s.sources[i].0),
                ).0
        }),
{
    let steps = Seq::new(
        s.sources.len(),
        |i: int| s.sources[i].1.tick(now, reach_of(forecasts, s.sources[i].0)),
    );
    assert(Seq::new(s.sources.len(), |i: int| steps[i].1) =~= ticked(s, now, forecasts));
    lemma_sum_of_samples(ticked(s, now, forecasts));
}

/// The report of the bins that arrived at rest moves by the sum of their samples, on each
/// axis, and every source has gone on by itself.
pub proof fn law_first_samples_are_all_reported(s: Sampling, now: u128)
    requires
        s.sources.len() <= 0x1000_0000,
    ensures
        ({
            let (after, report) = s.take_immediate(now);
            let samples = begun(s, now);
            &&& tells(report, s.buttons, moved_x(samples), moved_y(samples))
            &&& after.buttons == s.buttons
            &&& after.clock == s.clock
            &&& after.start == s.start
            &&& after.sources.len() == s.sources.len()
            &&& forall|i: int|
                0 <= i < s.sources.len() ==> (#[trigger] after.sources[i]).0 == s.sources[i].0
                    && after.sources[i].1 == s.sources[i].1.take_immediate(now).0
        }),
{
    let steps = Seq::new(s.sources.len(), |i: int| s.sources[i].1.take_immediate(now));
    assert(Seq::new(s.sources.len(), |i: int| steps[i].1) =~= begun(s, now));
    lemma_sum_of_samples(begun(s, now));
}

/// The report of a flush moves by the sum of what the sources owed, on each axis, and
/// every source is flushed.
pub proof fn law_flushes_are_all_reported(s: Sampling, now: u128)
    requires
        s.sources.len() <= 0x1000_0000,
    ensures
        ({
            let (after, report) = s.flush_at(now);
            let flushes = flushed(s, now);
            &&& tells(report, s.buttons, flushed_x(flushes), flushed_y(flushes))
            &&& after.buttons == s.buttons
            &&& after.clock == s.clock
            &&& after.start == s.start
            &&& after.sources.len() == s.sources.len()
            &&& forall|i: int|
                0 <= i < s.sources.len() ==> (#[trigger] after.sources[i]).0 == s.sources[i].0
                    && after.sources[i].1 == s.sources[i].1.flush_at(now).0
        }),
{
    let steps = Seq::new(s.sources.len(), |i: int| s.sources[i].1.flush_at(now));
    let flushes = flushed(s, now);
    assert(Seq::new(s.sources.len(), |i: int| steps[i].1) =~= flushes);
    assert forall|i: int| 0 <= i < flushes.len() implies -0x1_0000_0000 <= (
    #[trigger] flushes[i]).dx <= 0x1_0000_0000 && -0x1_0000_0000 <= flushes[i].dy
        <= 0x1_0000_0000 by {
        filter::lemma_flush_is_bounded(s.sources[i].1, now);
    }
    lemma_sum_of_flushes(flushes);
}

/// A source starts its forecast with the reach that it was given first, and without one
/// it does not forecast at all.
pub proof fn law_each_source_has_its_reach(forecasts: Seq<Forecast>, id: u32, i: int)
    ensures
        0 <= i < forecasts.len() && forecasts[i].source_id == id && (forall|j: int|
            0 <= j < i ==> (#[trigger] forecasts[j]).source_id != id) ==> reach_of(forecasts, id)
            == forecasts[i].reach,
        (forall|j: int|
            0 <= j < forecasts.len() ==> (#[trigger] forecasts[j]).source_id != id) ==> reach_of(
            forecasts,
            id,
        ) == (Reach { dx: 0, dy: 0 }),
    decreases forecasts.len(),
{
    if forecasts.len() > 0 {
        let rest = forecasts.drop_first();
        law_each_source_has_its_reach(rest, id, i - 1);
        assert forall|j: int| 0 <= j < rest.len() implies rest[j] == forecasts[j + 1] by {}
        if 0 < i < forecasts.len() && forecasts[i].source_id == id && (forall|j: int|
            0 <= j < i ==> (#[trigger] forecasts[j]).source_id != id) {
            assert(rest[i - 1] == forecasts[i]);
            assert forall|j: int| 0 <= j < i - 1 implies (#[trigger] rest[j]).source_id != id by {
                assert(forecasts[j + 1].source_id != id);
            }
        }
        if forall|j: int| 0 <= j < forecasts.len() ==> (#[trigger] forecasts[j]).source_id != id {
            assert forall|j: int| 0 <= j < rest.len() implies (#[trigger] rest[j]).source_id
                != id by {
                assert(forecasts[j + 1].source_id != id);
            }
        }
    }
}

/// What happens to a sampler.
pub enum Turn {
    Bin { bin: MotionBin, now: u128 },
    Immediate { now: u128 },
    Tick { now: u128, forecasts: Seq<Forecast> },
    Flush { now: u128 },
}

pub open spec fn take_turn(s: Sampling, turn: Turn) -> (Sampling, Option<MouseOutput>) {
    match turn {
        Turn::Bin { bin, now } => (s.accept_bin(bin, now), None),
        Turn::Immediate { now } => s.take_immediate(now),
        Turn::Tick { now, forecasts } => s.tick(now, forecasts),
        Turn::Flush { now } => s.flush_at(now),
    }
}

/// The sampler after some turns.
pub open spec fn after_turns(s: Sampling, turns: Seq<Turn>) -> Sampling
    decreases turns.len(),
{
    if turns.len() == 0 {
        s
    } else {
        take_turn(after_turns(s, turns.drop_last()), turns.last()).0
    }
}

/// How far the reports of some turns move to the right and down in all.
pub open spec fn reported(s: Sampling, turns: Seq<Turn>) -> (int, int)
    decreases turns.len(),
{
    if turns.len() == 0 {
        (0, 0)
    } else {
        let (x, y) = reported(s, turns.drop_last());
        match take_turn(after_turns(s, turns.drop_last()), turns.last()).1 {
            Some(out) => (x + out.dx, y + out.dy),
            None => (x, y),
        }
    }
}

/// How far the bins among some turns move to the right and down in all.
pub open spec fn arrived(turns: Seq<Turn>) -> (int, int)
    decreases turns.len(),
{
    if turns.len() == 0 {
        (0, 0)
    } else {
        let (x, y) = arrived(turns.drop_last());
        match turns.last() {
            Turn::Bin { bin, .. } => (x + bin.dx, y + bin.dy),
            _ => (x, y),
        }
    }
}

/// Whether a source owes nothing, and nothing waits.
pub open spec fn rests(t: Track) -> bool {
    &&& t.filter.pending is None
    &&& t.filter.previous == filter::still()
    &&& t.filter.remainder == filter::none_wide()
    &&& t.filter.speculative == filter::none_wide()
}

/// Whether a bin goes on where its source is, or the source is at rest: then nothing is
/// dropped for it.
pub open spec fn goes_on(t: Track, bin: MotionBin) -> bool {
    &&& t.filter.pending is None
    &&& filter::moderate(Delta { dx: bin.dx, dy: bin.dy })
    &&& t.filter.last_sequence matches Some(last) ==> bin.sequence > last
    &&& rests(t) || {
        &&& t.filter.last_sequence matches Some(last) ==> bin.sequence == last + 1
        &&& !t.filter.discontinuity
        &&& bin.period_us > 0
        &&& t.filter.last_real matches Some(last) ==> last.dx * bin.dx + last.dy * bin.dy > 0
    }
}

/// Whether a bin is no more than 16 ms later than any packet that the clock remembers.
pub open spec fn in_time(s: Sampling, bin: MotionBin, now: u128) -> bool {
    let arrival = s.started(now).arrival_us(now);
    forall|i: int|
        0 <= i < s.clock.len() ==> arrival - bin.source_time_us - (#[trigger] s.clock[i]).1
            <= 16_000
}

/// Whether a turn drops nothing, forgives no forecast, and reaches no limit of a report.
pub open spec fn undisturbed(s: Sampling, turn: Turn) -> bool {
    match turn {
        Turn::Bin { bin, now } => now <= LATEST && goes_on(s.track(bin.source_id), bin) && in_time(
            s,
            bin,
            now,
        ),
        Turn::Immediate { now } => {
            &&& now <= LATEST
            &&& i32::MIN <= moved_x(begun(s, now)) <= i32::MAX
            &&& i32::MIN <= moved_y(begun(s, now)) <= i32::MAX
            &&& forall|i: int|
                0 <= i < s.sources.len() ==> filter::repays_forecast(
                    (#[trigger] s.sources[i]).1.filter,
                )
        },
        Turn::Tick { now, forecasts } => {
            &&& now <= LATEST
            &&& i32::MIN <= moved_x(ticked(s, now, forecasts)) <= i32::MAX
            &&& i32::MIN <= moved_y(ticked(s, now, forecasts)) <= i32::MAX
            &&& forall|i: int|
                0 <= i < s.sources.len() ==> {
                    let f = (#[trigger] s.sources[i]).1.filter;
                    &&& filter::repays_forecast(f)
                    &&& f.next_tick matches Some(due) ==> now <= due + 2000 * f.period_us
                }
        },
        Turn::Flush { now } => {
            &&& now <= LATEST
            &&& i32::MIN <= flushed_x(flushed(s, now)) <= i32::MAX
            &&& i32::MIN <= flushed_y(flushed(s, now)) <= i32::MAX
            &&& forall|i: int|
                0 <= i < s.sources.len() ==> {
                    let f = (#[trigger] s.sources[i]).1.filter;
                    &&& f.speculative == filter::none_wide()
                    &&& !f.previous_predicted
                    &&& f.pending matches Some(pending) ==> now <= pending.arrival + 2000
                        * f.period_us
                }
        },
    }
}

/// Whether every one of some turns is undisturbed.
pub open spec fn all_undisturbed(s: Sampling, turns: Seq<Turn>) -> bool
    decreases turns.len(),
{
    turns.len() == 0 || (all_undisturbed(s, turns.drop_last()) && undisturbed(
        after_turns(s, turns.drop_last()),
        turns.last(),
    ))
}

/// Twice what all sources still owe to the right and down.
pub open spec fn all_owed(sources: Seq<(u32, Track)>) -> (int, int)
    decreases sources.len(),
{
    if sources.len() == 0 {
        (0, 0)
    } else {
        let (x, y) = all_owed(sources.drop_last());
        (x + filter::owed_x(sources.last().1), y + filter::owed_y(sources.last().1))
    }
}

/// Sources in states that they can get into.
pub open spec fn sound(s: Sampling) -> bool {
    &&& s.distinct()
    &&& forall|i: int| 0 <= i < s.sources.len() ==> filter::balanced((#[trigger] s.sources[i]).1)
}

/// Whether a source has paid exactly this movement of what it owed, and can go on.
#[verifier::opaque]
pub open spec fn pays(before: Track, after: Track, dx: int, dy: int) -> bool {
    &&& 2 * dx + filter::owed_x(after) == filter::owed_x(before)
    &&& 2 * dy + filter::owed_y(after) == filter::owed_y(before)
    &&& filter::balanced(after)
}

/// All sources have paid their samples.
proof fn lemma_owed_by_samples(
    before: Seq<(u32, Track)>,
    after: Seq<(u32, Track)>,
    samples: Seq<Option<Delta>>,
)
    requires
        before.len() == after.len() == samples.len(),
        forall|i: int|
            0 <= i < before.len() ==> pays(
                before[i].1,
                (#[trigger] after[i]).1,
                filter::dx_of(samples[i]),
                filter::dy_of(samples[i]),
            ),
    ensures
        2 * moved_x(samples) + all_owed(after).0 == all_owed(before).0,
        2 * moved_y(samples) + all_owed(after).1 == all_owed(before).1,
        forall|i: int| 0 <= i < after.len() ==> filter::balanced((#[trigger] after[i]).1),
    decreases before.len(),
{
    reveal(pays);
    if before.len() > 0 {
        let (b, a, s) = (before.drop_last(), after.drop_last(), samples.drop_last());
        assert forall|i: int| 0 <= i < b.len() implies pays(
            b[i].1,
            (#[trigger] a[i]).1,
            filter::dx_of(s[i]),
            filter::dy_of(s[i]),
        ) by {
            assert(a[i] == after[i]);
        }
        lemma_owed_by_samples(b, a, s);
        let n = before.len() - 1;
        assert(after[n] == after.last());
    }
}

/// All sources have paid what they flushed.
proof fn lemma_owed_by_flushes(
    before: Seq<(u32, Track)>,
    after: Seq<(u32, Track)>,
    flushes: Seq<Wide>,
)
    requires
        before.len() == after.len() == flushes.len(),
        forall|i: int|
            0 <= i < before.len() ==> pays(
                before[i].1,
                (#[trigger] after[i]).1,
                flushes[i].dx as int,
                flushes[i].dy as int,
            ),
    ensures
        2 * flushed_x(flushes) + all_owed(after).0 == all_owed(before).0,
        2 * flushed_y(flushes) + all_owed(after).1 == all_owed(before).1,
        forall|i: int| 0 <= i < after.len() ==> filter::balanced((#[trigger] after[i]).1),
    decreases before.len(),
{
    reveal(pays);
    if before.len() > 0 {
        let (b, a, s) = (before.drop_last(), after.drop_last(), flushes.drop_last());
        assert forall|i: int| 0 <= i < b.len() implies pays(
            b[i].1,
            (#[trigger] a[i]).1,
            s[i].dx as int,
            s[i].dy as int,
        ) by {
            assert(a[i] == after[i]);
        }
        lemma_owed_by_flushes(b, a, s);
        let n = before.len() - 1;
        assert(after[n] == after.last());
    }
}

proof fn lemma_owed_updated(sources: Seq<(u32, Track)>, at: int, entry: (u32, Track))
    requires
        0 <= at < sources.len(),
    ensures
        all_owed(sources.update(at, entry)).0 == all_owed(sources).0 - filter::owed_x(
            sources[at].1,
        ) + filter::owed_x(entry.1),
        all_owed(sources.update(at, entry)).1 == all_owed(sources).1 - filter::owed_y(
            sources[at].1,
        ) + filter::owed_y(entry.1),
    decreases sources.len(),
{
    let changed = sources.update(at, entry);
    if at == sources.len() - 1 {
        assert(changed.drop_last() =~= sources.drop_last());
    } else {
        lemma_owed_updated(sources.drop_last(), at, entry);
        assert(changed.drop_last() =~= sources.drop_last().update(at, entry));
    }
}

proof fn lemma_pruned_entries(offsets: Seq<(u64, i128)>, arrival_us: u64, i: int)
    requires
        0 <= i < clock::pruned(offsets, arrival_us).len(),
    ensures
        exists|j: int|
            0 <= j < offsets.len() && #[trigger] offsets[j] == clock::pruned(
                offsets,
                arrival_us,
            )[i],
    decreases offsets.len(),
{
    if offsets.len() > 0 && clock::expired(arrival_us, offsets[0].0) {
        let rest = offsets.drop_first();
        lemma_pruned_entries(rest, arrival_us, i);
        let j = choose|j: int|
            0 <= j < rest.len() && #[trigger] rest[j] == clock::pruned(rest, arrival_us)[i];
        assert(offsets[j + 1] == rest[j]);
    } else {
        assert(offsets[i] == clock::pruned(offsets, arrival_us)[i]);
    }
}

/// A bin that is in time by every packet that is remembered is in time by the baseline.
proof fn lemma_in_time(s: Sampling, bin: MotionBin, now: u128)
    requires
        in_time(s, bin, now),
    ensures
        ({
            let ready = s.started(now);
            let arrival = ready.arrival_us(now);
            let offset = clock::clock_offset(arrival, bin.source_time_us);
            offset - ready.baseline(arrival, offset) <= 16_000
        }),
{
    let ready = s.started(now);
    let arrival = ready.arrival_us(now);
    let offset = clock::clock_offset(arrival, bin.source_time_us);
    let kept = clock::pruned(ready.clock, arrival);
    let fallback = offset as i128;
    clock::lemma_baseline_exists(kept, fallback);
    let low = choose|low: i128| #[trigger] clock::is_baseline(kept, fallback, low);
    assert(clock::is_baseline(kept, fallback, low));
    if kept.len() > 0 {
        let i = choose|i: int| 0 <= i < kept.len() && #[trigger] kept[i].1 == low;
        lemma_pruned_entries(ready.clock, arrival, i);
        let j = choose|j: int| 0 <= j < ready.clock.len() && #[trigger] ready.clock[j] == kept[i];
        assert(s.clock[j].1 == low);
    }
}

proof fn lemma_bin_owed(s: Sampling, bin: MotionBin, now: u128)
    requires
        sound(s),
        undisturbed(s, Turn::Bin { bin, now }),
    ensures
        ({
            let after = s.accept_bin(bin, now);
            &&& sound(after)
            &&& after.sources.len() <= s.sources.len() + 1
            &&& all_owed(after.sources).0 == all_owed(s.sources).0 + 2 * bin.dx
            &&& all_owed(after.sources).1 == all_owed(s.sources).1 + 2 * bin.dy
        }),
{
    let id = bin.source_id;
    let ready = s.started(now);
    let arrival = ready.arrival_us(now);
    let offset = clock::clock_offset(arrival, bin.source_time_us);
    let baseline = ready.baseline(arrival, offset);
    lemma_in_time(s, bin, now);
    assert(ready.sources == s.sources);
    assert(ready.knows(id) == s.knows(id));
    assert(ready.place(id) == s.place(id));
    let t = s.track(id);
    assert(filter::balanced(t)) by {
        if s.knows(id) {
            assert(s.sources[s.place(id)].0 == id);
        }
    }
    let next = t.accept(bin, offset, baseline, now);
    assert(filter::balanced(next) && filter::owed_x(next) == filter::owed_x(t) + 2 * bin.dx
        && filter::owed_y(next) == filter::owed_y(t) + 2 * bin.dy) by {
        let starts_over = t.filter.discontinuity || bin.period_us == 0 || (
        t.filter.last_sequence matches Some(last) && bin.sequence > last + 1) || (
        t.filter.last_real matches Some(last) && last.dx * bin.dx + last.dy * bin.dy <= 0);
        if starts_over {
            filter::law_bins_after_a_break_start_over(t, bin, offset, baseline, now);
        } else {
            filter::law_accepted_bins_are_owed(t, bin, offset, baseline, now);
        }
    }
    let after = s.accept_bin(bin, now);
    if s.knows(id) {
        let at = s.place(id);
        assert(s.sources[at].0 == id);
        assert(after.sources =~= s.sources.update(at, (id, next)));
        lemma_owed_updated(s.sources, at, (id, next));
    } else {
        assert(after.sources =~= s.sources.push((id, next)));
        assert(after.sources.drop_last() =~= s.sources);
        assert(filter::owed_x(t) == 0 && filter::owed_y(t) == 0);
    }
    assert forall|i: int, j: int| 0 <= i < j < after.sources.len() implies #[trigger] after.sources[i].0
        != #[trigger] after.sources[j].0 by {
        if j < s.sources.len() {
            assert(s.sources[i].0 != s.sources[j].0);
        } else {
            assert(s.sources[i].0 != id);
        }
    }
    assert forall|i: int| 0 <= i < after.sources.len() implies filter::balanced(
        (#[trigger] after.sources[i]).1,
    ) by {
        if i < s.sources.len() {
            assert(filter::balanced(s.sources[i].1));
        }
    }
}

proof fn lemma_tick_owed(s: Sampling, now: u128, forecasts: Seq<Forecast>)
    requires
        sound(s),
        s.sources.len() <= 0x1000_0000,
        undisturbed(s, Turn::Tick { now, forecasts }),
    ensures
        ({
            let (after, _) = s.tick(now, forecasts);
            let samples = ticked(s, now, forecasts);
            &&& sound(after)
            &&& 2 * moved_x(samples) + all_owed(after.sources).0 == all_owed(s.sources).0
            &&& 2 * moved_y(samples) + all_owed(after.sources).1 == all_owed(s.sources).1
        }),
{
    let after = s.tick(now, forecasts).0;
    let samples = ticked(s, now, forecasts);
    assert forall|i: int| 0 <= i < s.sources.len() implies pays(
        s.sources[i].1,
        (#[trigger] after.sources[i]).1,
        filter::dx_of(samples[i]),
        filter::dy_of(samples[i]),
    ) by {
        lemma_source_ticks(s, now, forecasts, i);
    }
    lemma_owed_by_samples(s.sources, after.sources, samples);
    lemma_same_ids(s, after);
}

proof fn lemma_source_ticks(s: Sampling, now: u128, forecasts: Seq<Forecast>, i: int)
    requires
        0 <= i < s.sources.len(),
        now <= LATEST,
        filter::balanced(s.sources[i].1),
        filter::repays_forecast(s.sources[i].1.filter),
        s.sources[i].1.filter.next_tick matches Some(due) ==> now <= due + 2000
            * s.sources[i].1.filter.period_us,
    ensures
        pays(
            s.sources[i].1,
            s.tick(now, forecasts).0.sources[i].1,
            filter::dx_of(ticked(s, now, forecasts)[i]),
            filter::dy_of(ticked(s, now, forecasts)[i]),
        ),
{
    reveal(pays);
    filter::law_ticks_pay_what_is_owed(
        s.sources[i].1,
        now,
        reach_of(forecasts, s.sources[i].0),
    );
}

proof fn lemma_immediate_owed(s: Sampling, now: u128)
    requires
        sound(s),
        s.sources.len() <= 0x1000_0000,
        undisturbed(s, Turn::Immediate { now }),
    ensures
        ({
            let (after, _) = s.take_immediate(now);
            let samples = begun(s, now);
            &&& sound(after)
            &&& 2 * moved_x(samples) + all_owed(after.sources).0 == all_owed(s.sources).0
            &&& 2 * moved_y(samples) + all_owed(after.sources).1 == all_owed(s.sources).1
        }),
{
    let after = s.take_immediate(now).0;
    let samples = begun(s, now);
    assert forall|i: int| 0 <= i < s.sources.len() implies pays(
        s.sources[i].1,
        (#[trigger] after.sources[i]).1,
        filter::dx_of(samples[i]),
        filter::dy_of(samples[i]),
    ) by {
        reveal(pays);
        filter::law_immediate_samples_pay_what_is_owed(s.sources[i].1, now);
    }
    lemma_owed_by_samples(s.sources, after.sources, samples);
    lemma_same_ids(s, after);
}

proof fn lemma_same_ids(s: Sampling, after: Sampling)
    requires
        s.distinct(),
        after.sources.len() == s.sources.len(),
        forall|i: int|
            0 <= i < s.sources.len() ==> (#[trigger] after.sources[i]).0 == s.sources[i].0,
    ensures
        after.distinct(),
{
    assert forall|i: int, j: int| 0 <= i < j < after.sources.len() implies #[trigger] after.sources[i].0
        != #[trigger] after.sources[j].0 by {
        assert(s.sources[i].0 != s.sources[j].0);
    }
}

proof fn lemma_flush_owed(s: Sampling, now: u128)
    requires
        sound(s),
        s.sources.len() <= 0x1000_0000,
        undisturbed(s, Turn::Flush { now }),
    ensures
        ({
            let (after, _) = s.flush_at(now);
            let flushes = flushed(s, now);
            &&& sound(after)
            &&& 2 * flushed_x(flushes) + all_owed(after.sources).0 == all_owed(s.sources).0
            &&& 2 * flushed_y(flushes) + all_owed(after.sources).1 == all_owed(s.sources).1
            &&& all_owed(after.sources) == (0int, 0int)
        }),
{
    let after = s.flush_at(now).0;
    let flushes = flushed(s, now);
    assert forall|i: int| 0 <= i < s.sources.len() implies pays(
        s.sources[i].1,
        (#[trigger] after.sources[i]).1,
        flushes[i].dx as int,
        flushes[i].dy as int,
    ) && filter::owed_x(after.sources[i].1) == 0 && filter::owed_y(after.sources[i].1) == 0 by {
        lemma_source_flushes(s, now, i);
    }
    lemma_owed_by_flushes(s.sources, after.sources, flushes);
    lemma_nothing_owed(after.sources);
    lemma_same_ids(s, after);
}

proof fn lemma_source_flushes(s: Sampling, now: u128, i: int)
    requires
        0 <= i < s.sources.len(),
        now <= LATEST,
        filter::balanced(s.sources[i].1),
        s.sources[i].1.filter.speculative == filter::none_wide(),
        !s.sources[i].1.filter.previous_predicted,
        s.sources[i].1.filter.pending matches Some(pending) ==> now <= pending.arrival + 2000
            * s.sources[i].1.filter.period_us,
    ensures
        pays(
            s.sources[i].1,
            s.flush_at(now).0.sources[i].1,
            flushed(s, now)[i].dx as int,
            flushed(s, now)[i].dy as int,
        ),
        filter::owed_x(s.flush_at(now).0.sources[i].1) == 0,
        filter::owed_y(s.flush_at(now).0.sources[i].1) == 0,
{
    reveal(pays);
    filter::law_flushes_pay_everything(s.sources[i].1, now);
}

proof fn lemma_nothing_owed(sources: Seq<(u32, Track)>)
    requires
        forall|i: int|
            0 <= i < sources.len() ==> filter::owed_x((#[trigger] sources[i]).1) == 0
                && filter::owed_y(sources[i].1) == 0,
    ensures
        all_owed(sources) == (0int, 0int),
    decreases sources.len(),
{
    if sources.len() > 0 {
        let before = sources.drop_last();
        assert forall|i: int| 0 <= i < before.len() implies filter::owed_x(
            (#[trigger] before[i]).1,
        ) == 0 && filter::owed_y(before[i].1) == 0 by {
            assert(before[i] == sources[i]);
        }
        lemma_nothing_owed(before);
        assert(sources[sources.len() - 1] == sources.last());
    }
}

/// Over any undisturbed run of bins, samples and flushes, on each axis, what the reports
/// moved and what is still owed add up to what was owed before and what arrived.
pub proof fn law_runs_conserve_motion(s: Sampling, turns: Seq<Turn>)
    requires
        sound(s),
        s.sources.len() + turns.len() <= 0x1000_0000,
        all_undisturbed(s, turns),
    ensures
        ({
            let after = after_turns(s, turns);
            &&& sound(after)
            &&& after.sources.len() <= s.sources.len() + turns.len()
            &&& 2 * reported(s, turns).0 + all_owed(after.sources).0 == all_owed(s.sources).0 + 2
                * arrived(turns).0
            &&& 2 * reported(s, turns).1 + all_owed(after.sources).1 == all_owed(s.sources).1 + 2
                * arrived(turns).1
        }),
    decreases turns.len(),
{
    if turns.len() > 0 {
        let before = after_turns(s, turns.drop_last());
        law_runs_conserve_motion(s, turns.drop_last());
        match turns.last() {
            Turn::Bin { bin, now } => {
                lemma_bin_owed(before, bin, now);
            },
            Turn::Immediate { now } => {
                lemma_immediate_owed(before, now);
                law_first_samples_are_all_reported(before, now);
            },
            Turn::Tick { now, forecasts } => {
                lemma_tick_owed(before, now, forecasts);
                law_ticks_report_every_sample(before, now, forecasts);
            },
            Turn::Flush { now } => {
                lemma_flush_owed(before, now);
                law_flushes_are_all_reported(before, now);
            },
        }
    }
}

/// From a new sampler to a flush at the end of an undisturbed run, the reports move by
/// exactly what arrived, on each axis.
pub proof fn law_reports_add_up_to_the_bins(turns: Seq<Turn>, now: u128)
    requires
        turns.len() < 0x1000_0000,
        all_undisturbed(Sampling::empty(), turns.push(Turn::Flush { now })),
    ensures
        reported(Sampling::empty(), turns.push(Turn::Flush { now })) == arrived(turns),
{
    let s = Sampling::empty();
    let all = turns.push(Turn::Flush { now });
    assert(all.drop_last() =~= turns);
    law_runs_conserve_motion(s, all);
    law_runs_conserve_motion(s, turns);
    let before = after_turns(s, turns);
    lemma_flush_owed(before, now);
    assert(arrived(all) == arrived(turns));
}

/// The arrival of a packet is the time since the first one, in whole microseconds.
pub proof fn law_arrivals_count_from_the_first_packet(s: Sampling, now: u128, first: u128)
    requires
        s.start is None,
        first <= now < first + 1000 * 0x1_0000_0000_0000_0000,
    ensures
        s.started(first).arrival_us(first) == 0,
        s.started(first).started(now).start == Some(first),
        1000 * s.started(first).arrival_us(now) <= now - first < 1000 * (s.started(
            first,
        ).arrival_us(now) + 1),
{
}

/// A bin that goes on in time waits at its own source, with all that it holds.
pub proof fn law_bins_wait_at_their_source(s: Sampling, bin: MotionBin, now: u128)
    requires
        sound(s),
        undisturbed(s, Turn::Bin { bin, now }),
    ensures
        ({
            let after = s.accept_bin(bin, now);
            &&& after.knows(bin.source_id)
            &&& after.track(bin.source_id).filter.pending matches Some(pending) && pending.delta.dx
                == bin.dx && pending.delta.dy == bin.dy && pending.sequence == bin.sequence
                && pending.source_time_us == bin.source_time_us && pending.arrival == now
            &&& after.track(bin.source_id).filter.last_sequence == Some(bin.sequence)
            &&& after.buttons == s.buttons
        }),
{
    let id = bin.source_id;
    let ready = s.started(now);
    lemma_in_time(s, bin, now);
    assert(ready.sources == s.sources);
    assert(ready.knows(id) == s.knows(id));
    assert(ready.place(id) == s.place(id));
    let after = s.accept_bin(bin, now);
    let at = if s.knows(id) {
        s.place(id)
    } else {
        s.sources.len() as int
    };
    if s.knows(id) {
        assert(s.sources[at].0 == id);
    }
    assert(after.sources[at].0 == id);
    assert(after.knows(id));
    assert(after.place(id) == at) by {
        let found = after.place(id);
        assert(after.sources[found].0 == id);
        if found != at {
            assert(s.sources[found].0 == id);
        }
    }
}

/// A bin that is more than 50 ms later than a packet of the last five seconds moves
/// nothing: its source only notes the break.
pub proof fn law_late_bins_move_nothing(s: Sampling, bin: MotionBin, now: u128, i: int)
    requires
        s.distinct(),
        s.knows(bin.source_id),
        s.track(bin.source_id).filter.last_sequence matches Some(last) ==> bin.sequence > last,
        0 <= i < s.clock.len(),
        ({
            let arrival = s.started(now).arrival_us(now);
            &&& arrival <= s.clock[i].0 + 5_000_000
            &&& arrival - bin.source_time_us - s.clock[i].1 > 50_000
        }),
    ensures
        ({
            let before = s.track(bin.source_id);
            let after = s.accept_bin(bin, now).track(bin.source_id);
            &&& after.filter.discontinuity
            &&& after.filter.last_sequence == Some(bin.sequence)
            &&& after.filter.pending == before.filter.pending
            &&& after.filter.next_tick == before.filter.next_tick
            &&& filter::owed_x(after) == filter::owed_x(before)
            &&& filter::owed_y(after) == filter::owed_y(before)
        }),
{
    let id = bin.source_id;
    let ready = s.started(now);
    let arrival = ready.arrival_us(now);
    let offset = clock::clock_offset(arrival, bin.source_time_us);
    let kept = clock::pruned(ready.clock, arrival);
    let fallback = offset as i128;
    clock::lemma_baseline_exists(kept, fallback);
    let low = choose|low: i128| #[trigger] clock::is_baseline(kept, fallback, low);
    clock::law_packets_are_held_against_the_best(
        ready.clock,
        arrival,
        bin.source_time_us,
        low,
        i,
    );
    assert(ready.sources == s.sources);
    assert(ready.knows(id) == s.knows(id));
    assert(ready.place(id) == s.place(id));
    let after = s.accept_bin(bin, now);
    let at = s.place(id);
    assert(s.sources[at].0 == id);
    assert(after.sources[at].0 == id);
    assert(after.place(id) == at) by {
        let found = after.place(id);
        assert(after.sources[found].0 == id);
        if found != at {
            assert(s.sources[found].0 == id);
        }
    }
}

} // verus!
