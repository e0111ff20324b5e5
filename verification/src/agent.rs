//! The agent on the device: what it does with each packet, and when it samples.
use crate::filter::{MotionBin, LATEST};
use crate::hid::{self, mouse_hid_reports};
use crate::packet::{self, Packet, READY, WATCHDOG_SECS};
use crate::sampler::{self, Forecast, ForecastRequest, MotionSampler, MouseOutput, Sampling};
use crate::text::{self, decimal_text};
use crate::uhid;
use vstd::prelude::*;
use vstd::string::*;

verus! {

/// What arrives at an agent: a packet of the ordered stream or its end, or a bin
/// of the fast path.
#[derive(Debug)]
pub enum Input {
    Adb(Option<Packet>),
    Udp { epoch: u64, bin: MotionBin },
}

/// What an agent is to do, in order.
#[derive(Debug, PartialEq, Eq)]
pub enum Action {
    /// Give the virtual keyboard this report.
    Keyboard([u8; 8]),
    /// Give the virtual mouse this report.
    MouseReport([u8; 6]),
    /// Give the virtual mouse the reports of this movement.
    Mouse(MouseOutput),
    /// Listen for datagrams under this key.
    StartUdp([u8; 32]),
    /// Tell the desktop that this request was carried out.
    Acknowledge(u64),
}

/// What follows from one input.
#[derive(Debug, PartialEq, Eq)]
pub struct Outcome {
    /// Whether the agent goes on.
    pub running: bool,
    /// Whether the input shows that the desktop is alive.
    pub progress: bool,
    pub actions: Vec<Action>,
}

/// What an agent waits for.
#[derive(Clone, Copy, Debug, PartialEq, Eq, Structural)]
pub enum Wait {
    /// Nothing: look for input and sample again.
    No,
    /// Input, or this instant.
    Until(u128),
    /// Input.
    Forever,
}

/// The state of an agent: whether input is forwarded, for which epoch, whether
/// the fast path is still to be started, and the sampler.
#[verifier::ext_equal]
pub struct SessionView {
    pub armed: bool,
    pub epoch: u64,
    pub udp_ready: bool,
    pub sampling: Sampling,
}

pub open spec fn no_keys() -> [u8; 8] {
    [0, 0, 0, 0, 0, 0, 0, 0]
}

pub open spec fn no_motion() -> [u8; 6] {
    [0, 0, 0, 0, 0, 0]
}

pub open spec fn moves(output: Option<MouseOutput>) -> Seq<Action> {
    match output {
        Some(output) => seq![Action::Mouse(output)],
        None => seq![],
    }
}

impl SessionView {
    pub open spec fn fresh(udp_ready: bool) -> SessionView {
        SessionView { armed: false, epoch: 0, udp_ready, sampling: Sampling::empty() }
    }

    pub open spec fn with_bin(self, bin: MotionBin, now: u128) -> SessionView {
        SessionView { sampling: self.sampling.accept_bin(bin, now), ..self }
    }

    /// The state after a packet, and what the agent does.
    pub open spec fn take_packet(self, packet: Packet, now: u128) -> (SessionView, Seq<Action>) {
        match packet {
            Packet::Heartbeat { source_time_us } => (
                SessionView { sampling: self.sampling.observe_clock(source_time_us, now), ..self },
                seq![],
            ),
            Packet::Stop => (self, seq![]),
            Packet::UdpKey(key) => (
                SessionView { udp_ready: false, ..self },
                if self.udp_ready {
                    seq![Action::StartUdp(key)]
                } else {
                    seq![]
                },
            ),
            Packet::Arm { epoch, control_id, source_time_us } => (
                SessionView {
                    armed: true,
                    epoch,
                    sampling: Sampling::empty().observe_clock(source_time_us, now),
                    ..self
                },
                seq![
                    Action::Keyboard(no_keys()),
                    Action::MouseReport(no_motion()),
                    Action::Acknowledge(control_id),
                ],
            ),
            Packet::Release { epoch, control_id } => (
                SessionView { armed: false, epoch, sampling: Sampling::empty(), ..self },
                seq![
                    Action::Keyboard(no_keys()),
                    Action::MouseReport(no_motion()),
                    Action::Acknowledge(control_id),
                ],
            ),
            Packet::Keyboard { control_id, report } => (
                self,
                if self.armed {
                    seq![Action::Keyboard(report), Action::Acknowledge(control_id)]
                } else {
                    seq![Action::Acknowledge(control_id)]
                },
            ),
            Packet::Mouse { control_id, buttons, dx, dy, wheel, .. } => if self.armed {
                let (flushed, owed) = self.sampling.flush_at(now);
                (
                    SessionView { sampling: Sampling { buttons, ..flushed }, ..self },
                    moves(owed).push(
                        Action::Mouse(MouseOutput { buttons, dx, dy, wheel }),
                    ).push(Action::Acknowledge(control_id)),
                )
            } else {
                (self, seq![Action::Acknowledge(control_id)])
            },
            Packet::MotionBin { source_id, sequence, period_us, source_time_us, dx, dy } => (
                if self.armed {
                    self.with_bin(
                        MotionBin { source_id, sequence, period_us, source_time_us, dx, dy },
                        now,
                    )
                } else {
                    self
                },
                seq![],
            ),
        }
    }

    pub open spec fn handles(
        self,
        input: Input,
        now: u128,
        after: SessionView,
        outcome: Outcome,
    ) -> bool {
        match input {
            // The ordered stream carries the same sequence of bins.
            Input::Udp { epoch, bin } => {
                &&& after == (if self.armed && epoch == self.epoch {
                    self.with_bin(bin, now)
                } else {
                    self
                })
                &&& outcome.running
                &&& !outcome.progress
                &&& outcome.actions@ == Seq::<Action>::empty()
            },
            Input::Adb(None) => {
                &&& after == self
                &&& !outcome.running
                &&& !outcome.progress
                &&& outcome.actions@ == Seq::<Action>::empty()
            },
            Input::Adb(Some(packet)) => {
                &&& outcome.progress
                &&& outcome.running == !(packet is Stop)
                &&& after == self.take_packet(packet, now).0
                &&& outcome.actions@ == self.take_packet(packet, now).1
            },
        }
    }
}

/// The session of an agent.
#[derive(Debug)]
pub struct Session {
    pub armed: bool,
    pub epoch: u64,
    pub udp_ready: bool,
    pub sampler: MotionSampler,
}

impl View for Session {
    type V = SessionView;

    open spec fn view(&self) -> SessionView {
        SessionView {
            armed: self.armed,
            epoch: self.epoch,
            udp_ready: self.udp_ready,
            sampling: self.sampler@,
        }
    }
}

impl Session {
    pub open spec fn wf(self) -> bool {
        self.sampler.wf()
    }

    /// A session that forwards nothing yet. `udp_ready` tells whether there is a
    /// socket for the fast path.
    pub fn new(udp_ready: bool) -> (r: Session)
        ensures
            r.wf(),
            r@ == SessionView::fresh(udp_ready),
    {
        Session { armed: false, epoch: 0, udp_ready, sampler: MotionSampler::new() }
    }

    /// Takes in one input that arrived at `now`, in nanoseconds.
    pub fn handle_input(&mut self, input: Input, now: u128) -> (r: Outcome)
        requires
            old(self).wf(),
            now <= LATEST,
        ensures
            final(self).wf(),
            old(self)@.handles(input, now, final(self)@, r),
    {
        let mut actions: Vec<Action> = Vec::new();
        let packet: Packet = match input {
            Input::Udp { epoch, bin } => {
                if self.armed && epoch == self.epoch {
                    self.sampler.accept_bin(bin, now);
                }
                return Outcome { running: true, progress: false, actions };
            },
            Input::Adb(None) => {
                return Outcome { running: false, progress: false, actions };
            },
            Input::Adb(Some(packet)) => packet,
        };
        let ghost before = self@;
        let mut running: bool = true;
        match packet {
            Packet::Heartbeat { source_time_us } => {
                self.sampler.observe_clock(source_time_us, now);
            },
            Packet::Stop => {
                running = false;
            },
            Packet::UdpKey(key) => {
                if self.udp_ready {
                    self.udp_ready = false;
                    actions.push(Action::StartUdp(key));
                }
            },
            Packet::Arm { epoch, control_id, source_time_us } => {
                self.sampler.reset();
                self.sampler.observe_clock(source_time_us, now);
                self.epoch = epoch;
                self.armed = true;
                actions.push(Action::Keyboard([0, 0, 0, 0, 0, 0, 0, 0]));
                actions.push(Action::MouseReport([0, 0, 0, 0, 0, 0]));
                actions.push(Action::Acknowledge(control_id));
            },
            Packet::Release { epoch, control_id } => {
                self.armed = false;
                self.epoch = epoch;
                self.sampler.reset();
                actions.push(Action::Keyboard([0, 0, 0, 0, 0, 0, 0, 0]));
                actions.push(Action::MouseReport([0, 0, 0, 0, 0, 0]));
                actions.push(Action::Acknowledge(control_id));
            },
            Packet::Keyboard { control_id, report } => {
                if self.armed {
                    actions.push(Action::Keyboard(report));
                }
                actions.push(Action::Acknowledge(control_id));
            },
            Packet::Mouse { control_id, buttons, dx, dy, wheel, .. } => {
                if self.armed {
                    if let Some(output) = self.sampler.flush_at(now) {
                        actions.push(Action::Mouse(output));
                    }
                    let output: MouseOutput = self.sampler.discrete(buttons, dx, dy, wheel);
                    actions.push(Action::Mouse(output));
                }
                actions.push(Action::Acknowledge(control_id));
            },
            Packet::MotionBin { source_id, sequence, period_us, source_time_us, dx, dy } => {
                if self.armed {
                    self.sampler.accept_bin(
                        MotionBin { source_id, sequence, period_us, source_time_us, dx, dy },
                        now,
                    );
                }
            },
        }
        proof {
            let want = before.take_packet(packet, now);
            assert(self@ =~= want.0);
            assert(actions@ =~= want.1);
        }
        Outcome { running, progress: true, actions }
    }

    /// The movement of the bins that arrived at rest.
    pub fn immediate(&mut self, now: u128) -> (r: Option<MouseOutput>)
        requires
            old(self).wf(),
            now <= LATEST,
        ensures
            final(self).wf(),
            final(self)@ == (SessionView {
                sampling: old(self)@.sampling.take_immediate(now).0,
                ..old(self)@
            }),
            r == old(self)@.sampling.take_immediate(now).1,
    {
        self.sampler.take_immediate(now)
    }

    /// The forecasts that `advance` at `now` starts.
    pub fn forecasts_due(&self, now: u128) -> (r: Vec<ForecastRequest>)
        requires
            self.wf(),
        ensures
            r@ == sampler::requests(self@.sampling.sources, now),
    {
        self.sampler.forecasts_due(now)
    }

    /// Takes the sample that is due, if one is, and says what to wait for.
    pub fn advance(&mut self, now: u128, forecasts: &[Forecast]) -> (r: (
        Option<MouseOutput>,
        Wait,
    ))
        requires
            old(self).wf(),
            now <= LATEST,
        ensures
            final(self).wf(),
            exists|due: Option<u128>|
                #![trigger old(self)@.sampling.is_next_tick(due)]
                {
                    &&& old(self)@.sampling.is_next_tick(due)
                    &&& match due {
                        Some(deadline) if now >= deadline => {
                            &&& final(self)@ == (SessionView {
                                sampling: old(self)@.sampling.tick(now, forecasts@).0,
                                ..old(self)@
                            })
                            &&& r == (old(self)@.sampling.tick(now, forecasts@).1, Wait::No)
                        },
                        Some(deadline) => final(self)@ == old(self)@ && r == (
                            None::<MouseOutput>,
                            Wait::Until(deadline),
                        ),
                        None => final(self)@ == old(self)@ && r == (
                            None::<MouseOutput>,
                            Wait::Forever,
                        ),
                    }
                },
    {
        let due: Option<u128> = self.sampler.next_tick();
        assert(old(self)@.sampling.is_next_tick(due));
        match due {
            Some(deadline) => if now >= deadline {
                (self.sampler.tick(now, forecasts), Wait::No)
            } else {
                (None, Wait::Until(deadline))
            },
            None => (None, Wait::Forever),
        }
    }
}

/// The events of a movement, one for each report.
pub open spec fn is_mouse_events(output: MouseOutput, events: Seq<Vec<u8>>) -> bool {
    exists|reports: Seq<[u8; 6]>|
        {
            &&& #[trigger] hid::is_mouse_reports(
                output.buttons,
                output.dx as int,
                output.dy as int,
                output.wheel as int,
                reports,
            )
            &&& events.len() == reports.len()
            &&& forall|i: int|
                0 <= i < events.len() ==> (#[trigger] events[i])@ == uhid::input_event(reports[i]@)
        }
}

/// The events that move the virtual mouse.
pub fn mouse_events(output: MouseOutput) -> (r: Vec<Vec<u8>>)
    ensures
        is_mouse_events(output, r@),
{
    let reports: Vec<[u8; 6]> = mouse_hid_reports(
        output.buttons,
        output.dx,
        output.dy,
        output.wheel,
    );
    let mut events: Vec<Vec<u8>> = Vec::new();
    let mut i: usize = 0;
    while i < reports.len()
        invariant
            i <= reports@.len(),
            events@.len() == i,
            forall|j: int|
                0 <= j < i ==> (#[trigger] events@[j])@ == uhid::input_event(reports@[j]@),
        decreases reports@.len() - i,
    {
        let event: Vec<u8> = uhid::input(reports[i].as_slice());
        events.push(event);
        i = i + 1;
    }
    proof {
        assert(hid::is_mouse_reports(
            output.buttons,
            output.dx as int,
            output.dy as int,
            output.wheel as int,
            reports@,
        ));
    }
    events
}

/// Whether the input stream has been silent for too long. Times are in seconds
/// since the agent began.
pub fn watchdog_expired(elapsed: u64, last: u64) -> (r: bool)
    ensures
        r == expires(elapsed, last),
        r == (elapsed - last >= WATCHDOG_SECS),
{
    elapsed.saturating_sub(last) >= WATCHDOG_SECS
}

/// The greeting of an agent, with the port of its fast path, or zero.
pub fn greeting(udp_port: u16) -> (r: String)
    ensures
        r@ == greeting_line(udp_port),
        r@ == READY@ + " "@ + text::decimal(udp_port as nat),
{
    let mut out: String = text::text(READY);
    out.append(" ");
    let port: String = decimal_text(udp_port as u64);
    out.append(port.as_str());
    out
}

/// The line that acknowledges a request.
pub fn acknowledgement(control_id: u64) -> (r: String)
    ensures
        r@ == acknowledging_line(control_id),
        r@ == "ACK "@ + text::decimal(control_id as nat),
{
    let mut out: String = text::text("ACK ");
    let id: String = decimal_text(control_id);
    out.append(id.as_str());
    out
}

/// An agent that is not armed gives its devices nothing but releases: no key and
/// no movement reaches them.
pub proof fn law_unarmed_agent_forwards_nothing(s: SessionView, packet: Packet, now: u128, i: int)
    requires
        !s.armed,
        0 <= i < s.take_packet(packet, now).1.len(),
    ensures
        match s.take_packet(packet, now).1[i] {
            Action::Keyboard(report) => report == no_keys(),
            Action::MouseReport(report) => report == no_motion(),
            Action::Mouse(_) => false,
            _ => true,
        },
{
}

/// Arming and releasing both begin with releases on both devices, and leave no
/// motion behind from before.
pub proof fn law_switching_releases_everything(s: SessionView, packet: Packet, now: u128)
    requires
        packet is Arm || packet is Release,
    ensures
        ({
            let (after, actions) = s.take_packet(packet, now);
            &&& actions.len() == 3
            &&& actions[0] == Action::Keyboard(no_keys())
            &&& actions[1] == Action::MouseReport(no_motion())
            &&& after.sampling.sources.len() == 0
            &&& after.sampling.buttons == 0
            &&& after.armed == (packet is Arm)
        }),
{
}

/// Every request with a control number is acknowledged, last, and once.
pub proof fn law_requests_are_acknowledged(s: SessionView, packet: Packet, now: u128, id: u64)
    requires
        match packet {
            Packet::Arm { control_id, .. } => control_id == id,
            Packet::Release { control_id, .. } => control_id == id,
            Packet::Keyboard { control_id, .. } => control_id == id,
            Packet::Mouse { control_id, .. } => control_id == id,
            _ => false,
        },
    ensures
        ({
            let actions = s.take_packet(packet, now).1;
            &&& actions.len() > 0
            &&& actions.last() == Action::Acknowledge(id)
            &&& forall|i: int| 0 <= i < actions.len() - 1 ==> !(#[trigger] actions[i] is Acknowledge)
        }),
{
    let actions = s.take_packet(packet, now).1;
    assert forall|i: int| 0 <= i < actions.len() - 1 implies !(#[trigger] actions[i] is Acknowledge) by {
        assert(actions[i] == actions.drop_last()[i]);
    }
}

/// The fast path is started at most once.
pub proof fn law_fast_path_starts_once(s: SessionView, key: [u8; 32], other: [u8; 32], now: u128)
    ensures
        s.take_packet(Packet::UdpKey(key), now).0.take_packet(Packet::UdpKey(other), now).1.len()
            == 0,
{
}

/// Datagrams of another epoch move nothing, and neither do those that come while
/// the agent is not armed.
pub proof fn law_stale_datagrams_move_nothing(
    s: SessionView,
    epoch: u64,
    bin: MotionBin,
    now: u128,
    after: SessionView,
    outcome: Outcome,
)
    requires
        !s.armed || epoch != s.epoch,
        s.handles(Input::Udp { epoch, bin }, now, after, outcome),
    ensures
        after == s,
        outcome.actions@.len() == 0,
{
}

/// A bin over the fast path does what the same bin in the ordered stream does, and
/// the second copy does nothing.
pub proof fn law_both_paths_agree(s: SessionView, bin: MotionBin, now: u128, later: u128)
    requires
        s.armed,
        s.sampling.distinct(),
    ensures
        ({
            let packet = Packet::MotionBin {
                source_id: bin.source_id,
                sequence: bin.sequence,
                period_us: bin.period_us,
                source_time_us: bin.source_time_us,
                dx: bin.dx,
                dy: bin.dy,
            };
            &&& s.take_packet(packet, now).0 == s.with_bin(bin, now)
            &&& s.with_bin(bin, now).take_packet(packet, later).0 == s.with_bin(bin, now)
            &&& s.take_packet(packet, now).0.with_bin(bin, later) == s.take_packet(packet, now).0
        }),
{
    sampler::law_copies_of_a_bin_count_once(s.sampling, bin, now, later);
}

/// An armed agent gives the virtual keyboard exactly the report of a keyboard packet,
/// once, and then acknowledges the packet. Nothing else changes.
pub proof fn law_typed_keys_reach_the_keyboard(
    s: SessionView,
    control_id: u64,
    report: [u8; 8],
    now: u128,
    after: SessionView,
    outcome: Outcome,
)
    requires
        s.armed,
        s.handles(
            Input::Adb(Some(Packet::Keyboard { control_id, report })),
            now,
            after,
            outcome,
        ),
    ensures
        outcome.actions@.len() == 2,
        outcome.actions@[0] == Action::Keyboard(report),
        outcome.actions@[1] == Action::Acknowledge(control_id),
        outcome.running,
        outcome.progress,
        after == s,
{
}

/// An armed agent carries a mouse packet out with exactly its buttons, movement and
/// wheel, once and right before the acknowledgement. Before it comes at most what the
/// samples still owed, with the buttons as they were, and the sources are then at rest.
pub proof fn law_clicks_reach_the_mouse(
    s: SessionView,
    packet: Packet,
    now: u128,
    after: SessionView,
    outcome: Outcome,
)
    requires
        s.armed,
        packet is Mouse,
        s.handles(Input::Adb(Some(packet)), now, after, outcome),
    ensures
        ({
            let actions = outcome.actions@;
            let n = actions.len() as int;
            &&& packet matches Packet::Mouse { control_id, buttons, dx, dy, wheel, .. } && {
                &&& 2 <= n <= 3
                &&& actions[n - 1] == Action::Acknowledge(control_id)
                &&& actions[n - 2] matches Action::Mouse(out) && out.buttons == buttons && out.dx
                    == dx && out.dy == dy && out.wheel == wheel
                &&& after.sampling.buttons == buttons
            }
            &&& n == 3 <==> s.sampling.flush_at(now).1 is Some
            &&& n == 3 ==> (actions[0] matches Action::Mouse(owed) && s.sampling.flush_at(now).1
                == Some(owed) && owed.buttons == s.sampling.buttons && owed.wheel == 0)
            &&& after.sampling.sources == s.sampling.flush_at(now).0.sources
            &&& after.armed
            &&& after.epoch == s.epoch
            &&& after.udp_ready == s.udp_ready
            &&& outcome.running
            &&& outcome.progress
        }),
{
}

/// An agent that is not armed only acknowledges keys and clicks, and stays as it is.
pub proof fn law_unarmed_agent_only_acknowledges(
    s: SessionView,
    packet: Packet,
    now: u128,
    after: SessionView,
    outcome: Outcome,
)
    requires
        !s.armed,
        packet is Keyboard || packet is Mouse,
        s.handles(Input::Adb(Some(packet)), now, after, outcome),
    ensures
        outcome.actions@.len() == 1,
        outcome.actions@[0] is Acknowledge,
        packet matches Packet::Keyboard { control_id, .. } ==> outcome.actions@[0]
            == Action::Acknowledge(control_id),
        packet matches Packet::Mouse { control_id, .. } ==> outcome.actions@[0]
            == Action::Acknowledge(control_id),
        after == s,
{
}

/// Arming forwards input from then on, for the epoch of the packet, and releasing stops
/// it. Either way both virtual devices are first told that nothing is down and nothing
/// moves, byte for byte, and the packet is acknowledged by its number.
pub proof fn law_arming_and_releasing_switch(
    s: SessionView,
    packet: Packet,
    now: u128,
    after: SessionView,
    outcome: Outcome,
)
    requires
        packet is Arm || packet is Release,
        s.handles(Input::Adb(Some(packet)), now, after, outcome),
    ensures
        outcome.actions@.len() == 3,
        outcome.actions@[0] matches Action::Keyboard(keys) && forall|i: int|
            0 <= i < 8 ==> #[trigger] keys@[i] == 0,
        outcome.actions@[1] matches Action::MouseReport(report) && forall|i: int|
            0 <= i < 6 ==> #[trigger] report@[i] == 0,
        outcome.actions@[2] is Acknowledge,
        packet matches Packet::Arm { epoch, control_id, .. } ==> after.armed && after.epoch == epoch
            && outcome.actions@[2] == Action::Acknowledge(control_id),
        packet matches Packet::Release { epoch, control_id } ==> !after.armed && after.epoch
            == epoch && outcome.actions@[2] == Action::Acknowledge(control_id),
        after.sampling.sources.len() == 0,
        after.sampling.buttons == 0,
        after.udp_ready == s.udp_ready,
        outcome.running,
        outcome.progress,
{
}

/// The clock of a packet that arms is the first that is observed: the baseline is then
/// the offset between its time and its arrival.
pub proof fn law_arming_observes_the_clock(
    s: SessionView,
    epoch: u64,
    control_id: u64,
    source_time_us: u64,
    now: u128,
    after: SessionView,
    outcome: Outcome,
)
    requires
        s.handles(
            Input::Adb(Some(Packet::Arm { epoch, control_id, source_time_us })),
            now,
            after,
            outcome,
        ),
    ensures
        after.sampling.start == Some(now),
        after.sampling.clock.len() == 1,
        after.sampling.clock[0].0 == 0,
        after.sampling.clock[0].1 == -source_time_us,
{
}

/// The key of the fast path is used as it came, while the fast path was not started, and
/// it needs no acknowledgement.
pub proof fn law_fast_path_uses_its_key(
    s: SessionView,
    key: [u8; 32],
    now: u128,
    after: SessionView,
    outcome: Outcome,
)
    requires
        s.handles(Input::Adb(Some(Packet::UdpKey(key))), now, after, outcome),
    ensures
        s.udp_ready ==> outcome.actions@.len() == 1 && outcome.actions@[0] == Action::StartUdp(key),
        !s.udp_ready ==> outcome.actions@.len() == 0,
        !after.udp_ready,
        after.armed == s.armed,
        after.epoch == s.epoch,
        after.sampling == s.sampling,
        outcome.running,
{
}

/// An agent ends when the stream ends or says stop, and at nothing else. Only packets of
/// the ordered stream show that the desktop is alive.
pub proof fn law_agent_runs_until_told(
    s: SessionView,
    input: Input,
    now: u128,
    after: SessionView,
    outcome: Outcome,
)
    requires
        s.handles(input, now, after, outcome),
    ensures
        !outcome.running <==> (input matches Input::Adb(None) || input matches Input::Adb(
            Some(Packet::Stop),
        )),
        outcome.progress <==> (input matches Input::Adb(Some(_))),
        !outcome.running ==> outcome.actions@.len() == 0 && after == s,
{
}

/// Motion of the ordered stream reaches the sampler of an armed agent with all of its
/// fields, and so does motion of the fast path for the same epoch. Neither does anything
/// else.
pub proof fn law_motion_reaches_the_sampler(
    s: SessionView,
    bin: MotionBin,
    now: u128,
    after: SessionView,
    outcome: Outcome,
    udp: bool,
)
    requires
        s.armed,
        s.handles(
            if udp {
                Input::Udp { epoch: s.epoch, bin }
            } else {
                Input::Adb(
                    Some(
                        Packet::MotionBin {
                            source_id: bin.source_id,
                            sequence: bin.sequence,
                            period_us: bin.period_us,
                            source_time_us: bin.source_time_us,
                            dx: bin.dx,
                            dy: bin.dy,
                        },
                    ),
                )
            },
            now,
            after,
            outcome,
        ),
    ensures
        outcome.actions@.len() == 0,
        outcome.running,
        after.sampling == s.sampling.accept_bin(bin, now),
        after.armed,
        after.epoch == s.epoch,
        after.udp_ready == s.udp_ready,
{
}

/// A heartbeat does nothing but show the clock of the desktop to the sampler.
pub proof fn law_heartbeats_only_show_the_clock(
    s: SessionView,
    source_time_us: u64,
    now: u128,
    after: SessionView,
    outcome: Outcome,
)
    requires
        s.handles(Input::Adb(Some(Packet::Heartbeat { source_time_us })), now, after, outcome),
    ensures
        outcome.actions@.len() == 0,
        outcome.running,
        after.armed == s.armed,
        after.epoch == s.epoch,
        after.udp_ready == s.udp_ready,
        after.sampling == s.sampling.observe_clock(source_time_us, now),
        after.sampling.sources == s.sampling.sources,
        after.sampling.buttons == s.sampling.buttons,
{
}

/// What is left of a movement in the events that go to the virtual mouse: each event is
/// the number 12 in four bytes and the length 6 in two, and then a report, and the
/// reports move the pointer by exactly the movement.
pub proof fn law_mouse_events_carry_the_movement(output: MouseOutput, events: Seq<Vec<u8>>)
    requires
        is_mouse_events(output, events),
    ensures
        exists|reports: Seq<[u8; 6]>|
            {
                &&& #[trigger] hid::moved_right(reports) == output.dx
                &&& hid::moved_down(reports) == output.dy
                &&& hid::turned(reports) == output.wheel
                &&& reports.len() == events.len() >= 1
                &&& forall|i: int|
                    0 <= i < events.len() ==> {
                        let event = (#[trigger] events[i])@;
                        &&& event.len() == 12
                        &&& event[0] == 12 && event[1] == 0 && event[2] == 0 && event[3] == 0
                        &&& event[4] == 6 && event[5] == 0
                        &&& event[6] == output.buttons
                        &&& event.skip(6) == reports[i]@
                    }
            },
{
    let reports = choose|reports: Seq<[u8; 6]>|
        {
            &&& #[trigger] hid::is_mouse_reports(
                output.buttons,
                output.dx as int,
                output.dy as int,
                output.wheel as int,
                reports,
            )
            &&& events.len() == reports.len()
            &&& forall|i: int|
                0 <= i < events.len() ==> (#[trigger] events[i])@ == uhid::input_event(reports[i]@)
        };
    hid::law_report_bytes_add_up(
        output.buttons,
        output.dx as int,
        output.dy as int,
        output.wheel as int,
        reports,
    );
    assert forall|i: int| 0 <= i < events.len() implies {
        let event = (#[trigger] events[i])@;
        &&& event.len() == 12
        &&& event[0] == 12 && event[1] == 0 && event[2] == 0 && event[3] == 0
        &&& event[4] == 6 && event[5] == 0
        &&& event[6] == output.buttons
        &&& event.skip(6) == reports[i]@
    } by {
        let event = events[i]@;
        let report = reports[i]@;
        assert(event == uhid::input_event(report));
        uhid::law_reports_travel_whole(report);
        assert(event[6 + 0int] == report[0]);
        assert forall|j: int| 0 <= j < 6 implies event.skip(6)[j] == report[j] by {
            assert(event[6 + j] == report[j]);
        }
        assert(event.skip(6) =~= report);
    }
    assert(hid::moved_right(reports) == output.dx);
}

/// Whether the agent gives up on a desktop from which nothing came for so long.
pub open spec fn expires(elapsed: u64, last: u64) -> bool {
    elapsed - last >= WATCHDOG_SECS
}

/// What the agent says when it is ready.
pub open spec fn greeting_line(udp_port: u16) -> Seq<char> {
    READY@ + " "@ + text::decimal(udp_port as nat)
}

/// How the agent says that a request was carried out.
pub open spec fn acknowledging_line(control_id: u64) -> Seq<char> {
    "ACK "@ + text::decimal(control_id as nat)
}

/// The agent waits for five seconds of silence, and not longer, from whenever the last
/// packet came.
pub proof fn law_silence_ends_the_session(last: u64, silent: u64)
    requires
        last + silent <= u64::MAX,
    ensures
        expires((last + silent) as u64, last) <==> silent >= 5,
{
}

/// What the agent says when it is ready tells the port that it listens on, as the desktop
/// understands it.
pub proof fn law_greetings_tell_the_port(udp_port: u16)
    ensures
        crate::adb::greeted(greeting_line(udp_port)) == Some(udp_port as nat),
{
    crate::adb::law_greetings_are_understood(udp_port as nat);
}

/// An acknowledgement names the request, in digits after one word, and no two requests share
/// one.
pub proof fn law_acknowledgements_name_the_request(a: u64, b: u64)
    ensures
        acknowledging_line(a).take(4) == seq!['A', 'C', 'K', ' '],
        acknowledging_line(a).skip(4) == text::decimal(a as nat),
        acknowledging_line(a) == acknowledging_line(b) ==> a == b,
{
    reveal_strlit("ACK ");
    assert(acknowledging_line(a).take(4) =~= seq!['A', 'C', 'K', ' ']);
    assert(acknowledging_line(a).skip(4) =~= text::decimal(a as nat));
    assert(acknowledging_line(b).skip(4) =~= text::decimal(b as nat));
    text::lemma_decimal_shape(a as nat);
    text::lemma_decimal_shape(b as nat);
}

} // verus!
