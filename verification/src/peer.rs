//! Both ends of the motion fast path: what the agent does with a datagram, and
//! what the desktop sends.
use crate::filter::MotionBin;
use crate::udp::{Datagram, Direction, Payload, KEY_LEN};
use vstd::prelude::*;

verus! {

/// An IPv4 address and port that datagrams come from.
#[derive(Clone, Copy, Debug, PartialEq, Eq, Structural)]
pub struct Origin {
    pub ip: u32,
    pub port: u16,
}

/// How long the desktop waits for the agent to answer on the fast path.
pub const REACH_US: u64 = 400_000;

/// What follows from a datagram that was received.
#[derive(Debug, PartialEq, Eq)]
pub enum Reception {
    Ignore,
    /// Answer with this datagram.
    Answer(Datagram),
    /// Hand this bin on, for this epoch.
    Deliver { epoch: u64, bin: MotionBin },
    /// No counter is left to answer with.
    Exhausted,
}

/// What an agent does with bytes that were received.
#[derive(Debug, PartialEq, Eq)]
pub enum Reply {
    Ignore,
    /// Send these bytes back.
    Send(Vec<u8>),
    Deliver { epoch: u64, bin: MotionBin },
    Exhausted,
}

/// The agent's end. The first authentic greeting fixes the peer.
#[derive(Clone, Copy, Debug, PartialEq, Eq, Structural)]
pub struct Ingress {
    pub peer: Option<Origin>,
    pub last_host_counter: Option<u64>,
    pub device_counter: u64,
}

impl Ingress {
    pub open spec fn spec_new() -> Ingress {
        Ingress { peer: None, last_host_counter: None, device_counter: 0 }
    }

    pub fn new() -> (r: Ingress)
        ensures
            r == Ingress::spec_new(),
    {
        Ingress { peer: None, last_host_counter: None, device_counter: 0 }
    }

    /// Whether the host's counter has passed this datagram.
    pub open spec fn repeated(self, datagram: Datagram) -> bool {
        self.last_host_counter matches Some(last) && datagram.counter <= last
    }

    pub open spec fn spec_accept(self, from: Origin, datagram: Datagram) -> (Ingress, Reception) {
        if self.repeated(datagram) {
            (self, Reception::Ignore)
        } else {
            match datagram.payload {
                Payload::Hello { nonce } if self.peer is None || self.peer == Some(from) => {
                    let known = Ingress {
                        peer: Some(from),
                        last_host_counter: Some(datagram.counter),
                        ..self
                    };
                    if self.device_counter == u64::MAX {
                        (known, Reception::Exhausted)
                    } else {
                        let counter = (self.device_counter + 1) as u64;
                        (
                            Ingress { device_counter: counter, ..known },
                            Reception::Answer(
                                Datagram {
                                    counter,
                                    epoch: datagram.epoch,
                                    payload: Payload::Ack { nonce },
                                },
                            ),
                        )
                    }
                },
                Payload::MotionBin {
                    source_id,
                    sequence,
                    period_us,
                    source_time_us,
                    dx,
                    dy,
                } if self.peer == Some(from) => (
                    Ingress { last_host_counter: Some(datagram.counter), ..self },
                    Reception::Deliver {
                        epoch: datagram.epoch,
                        bin: MotionBin { source_id, sequence, period_us, source_time_us, dx, dy },
                    },
                ),
                _ => (self, Reception::Ignore),
            }
        }
    }

    /// Takes in an authentic datagram.
    pub fn accept(&mut self, from: Origin, datagram: Datagram) -> (r: Reception)
        ensures
            (*final(self), r) == old(self).spec_accept(from, datagram),
    {
        if let Some(last) = self.last_host_counter {
            if datagram.counter <= last {
                return Reception::Ignore;
            }
        }
        let from_peer: bool = match self.peer {
            Some(peer) => peer == from,
            None => false,
        };
        match datagram.payload {
            Payload::Hello { nonce } => {
                if self.peer.is_none() || from_peer {
                    self.peer = Some(from);
                    self.last_host_counter = Some(datagram.counter);
                    if self.device_counter == u64::MAX {
                        return Reception::Exhausted;
                    }
                    self.device_counter = self.device_counter + 1;
                    Reception::Answer(
                        Datagram {
                            counter: self.device_counter,
                            epoch: datagram.epoch,
                            payload: Payload::Ack { nonce },
                        },
                    )
                } else {
                    Reception::Ignore
                }
            },
            Payload::MotionBin { source_id, sequence, period_us, source_time_us, dx, dy } => {
                if from_peer {
                    self.last_host_counter = Some(datagram.counter);
                    Reception::Deliver {
                        epoch: datagram.epoch,
                        bin: MotionBin { source_id, sequence, period_us, source_time_us, dx, dy },
                    }
                } else {
                    Reception::Ignore
                }
            },
            Payload::Ack { .. } => Reception::Ignore,
        }
    }

    /// What happens to bytes from `from`: those that hold no authentic datagram
    /// of the host are ignored, and an answer is sealed.
    pub open spec fn replies(self, key: Seq<u8>, from: Origin, data: Seq<u8>, after: Ingress, reply: Reply) -> bool {
        match Datagram::opened(key, Direction::HostToDevice, data) {
            None => after == self && reply == Reply::Ignore,
            Some(datagram) => {
                let (next, reception) = self.spec_accept(from, datagram);
                &&& after == next
                &&& match reception {
                    Reception::Ignore => reply == Reply::Ignore,
                    Reception::Answer(answer) => reply matches Reply::Send(sent) && sent@
                        == answer.sealed(key, Direction::DeviceToHost),
                    Reception::Deliver { epoch, bin } => reply == (Reply::Deliver { epoch, bin }),
                    Reception::Exhausted => reply == Reply::Exhausted,
                }
            },
        }
    }

    /// Takes in the bytes of one datagram.
    pub fn receive(&mut self, key: &[u8; KEY_LEN], from: Origin, data: &[u8]) -> (r: Reply)
        ensures
            old(self).replies(key@, from, data@, *final(self), r),
    {
        match Datagram::decode(key, Direction::HostToDevice, data) {
            None => Reply::Ignore,
            Some(datagram) => match self.accept(from, datagram) {
                Reception::Ignore => Reply::Ignore,
                Reception::Answer(answer) => Reply::Send(
                    answer.encode(key, Direction::DeviceToHost),
                ),
                Reception::Deliver { epoch, bin } => Reply::Deliver { epoch, bin },
                Reception::Exhausted => Reply::Exhausted,
            },
        }
    }
}

/// The desktop's end.
#[derive(Clone, Copy, Debug)]
pub struct MotionUdp {
    pub key: [u8; KEY_LEN],
    pub next_host_counter: u64,
}

impl MotionUdp {
    /// An end that has sent nothing.
    pub fn new(key: [u8; KEY_LEN]) -> (r: MotionUdp)
        ensures
            r.key == key,
            r.next_host_counter == 1,
    {
        MotionUdp { key, next_host_counter: 1 }
    }

    /// The datagram that carries a challenge.
    pub open spec fn challenge(self, nonce: u64) -> Datagram {
        Datagram { counter: self.next_host_counter, epoch: 0, payload: Payload::Hello { nonce } }
    }

    /// The datagram that carries a payload.
    pub open spec fn carrier(self, epoch: u64, payload: Payload) -> Datagram {
        Datagram { counter: self.next_host_counter, epoch, payload }
    }

    /// Whether the agent is challenged once more after this long.
    pub open spec fn tries_after(elapsed_us: u64) -> bool {
        elapsed_us < REACH_US
    }

    /// Whether to challenge the agent once more, this long after the first time.
    pub fn keeps_trying(elapsed_us: u64) -> (r: bool)
        ensures
            r == MotionUdp::tries_after(elapsed_us),
            r == (elapsed_us < REACH_US),
    {
        elapsed_us < REACH_US
    }

    /// The next reachability challenge.
    pub fn hello(&mut self, nonce: u64) -> (r: Vec<u8>)
        requires
            old(self).next_host_counter < u64::MAX,
        ensures
            final(self).key == old(self).key,
            final(self).next_host_counter == old(self).next_host_counter + 1,
            r@ == old(self).challenge(nonce).sealed(old(self).key@, Direction::HostToDevice),
            r@ == (Datagram {
                counter: old(self).next_host_counter,
                epoch: 0,
                payload: Payload::Hello { nonce },
            }).sealed(old(self).key@, Direction::HostToDevice),
    {
        let datagram = Datagram {
            counter: self.next_host_counter,
            epoch: 0,
            payload: Payload::Hello { nonce },
        };
        self.next_host_counter = self.next_host_counter + 1;
        datagram.encode(&self.key, Direction::HostToDevice)
    }

    /// Whether a datagram answers the challenge.
    pub open spec fn answers(nonce: u64, answer: Option<Datagram>) -> bool {
        answer matches Some(datagram) && datagram.counter > 0 && datagram.epoch == 0
            && datagram.payload == (Payload::Ack { nonce })
    }

    pub fn is_answer(nonce: u64, answer: Option<Datagram>) -> (r: bool)
        ensures
            r == MotionUdp::answers(nonce, answer),
    {
        match answer {
            Some(datagram) => match datagram.payload {
                Payload::Ack { nonce: received } => datagram.epoch == 0 && received == nonce
                    && datagram.counter > 0,
                _ => false,
            },
            None => false,
        }
    }

    /// Whether the bytes that came back show that the agent can be reached.
    pub fn acknowledged(&self, nonce: u64, data: &[u8]) -> (r: bool)
        ensures
            r == MotionUdp::answers(
                nonce,
                Datagram::opened(self.key@, Direction::DeviceToHost, data@),
            ),
    {
        MotionUdp::is_answer(nonce, Datagram::decode(&self.key, Direction::DeviceToHost, data))
    }

    /// The datagram for a payload, none once the counters are used up. The
    /// ordered stream carries a copy, so a lost datagram needs no retry.
    pub fn send_motion(&mut self, epoch: u64, payload: Payload) -> (r: Option<Vec<u8>>)
        ensures
            final(self).key == old(self).key,
            old(self).next_host_counter == u64::MAX ==> r is None && *final(self) == *old(self),
            r matches Some(sent) ==> sent@ == old(self).carrier(epoch, payload).sealed(
                old(self).key@,
                Direction::HostToDevice,
            ),
            old(self).next_host_counter < u64::MAX ==> {
                &&& final(self).next_host_counter == old(self).next_host_counter + 1
                &&& r matches Some(sent) && sent@ == (Datagram {
                    counter: old(self).next_host_counter,
                    epoch,
                    payload,
                }).sealed(old(self).key@, Direction::HostToDevice)
            },
    {
        match self.next_host_counter.checked_add(1) {
            None => None,
            Some(next) => {
                let datagram = Datagram { counter: self.next_host_counter, epoch, payload };
                self.next_host_counter = next;
                Some(datagram.encode(&self.key, Direction::HostToDevice))
            },
        }
    }
}

/// A datagram that was acted on is ignored ever after, and so is every datagram
/// with a lower counter.
pub proof fn law_replays_are_ignored(
    state: Ingress,
    from: Origin,
    datagram: Datagram,
    again: Datagram,
    other: Origin,
)
    requires
        state.spec_accept(from, datagram).1 != Reception::Ignore,
        again.counter <= datagram.counter,
    ensures
        state.spec_accept(from, datagram).0.spec_accept(other, again) == (
            state.spec_accept(from, datagram).0,
            Reception::Ignore,
        ),
{
}

/// The highest counter that was acted on, and the agent's own counter, never fall.
pub proof fn law_counters_never_fall(state: Ingress, from: Origin, datagram: Datagram)
    ensures
        ({
            let after = state.spec_accept(from, datagram).0;
            &&& after.device_counter >= state.device_counter
            &&& state.last_host_counter matches Some(last) ==> after.last_host_counter matches Some(
                next,
            ) && next >= last
        }),
{
}

/// Every answer carries a counter that no answer before it carried.
pub proof fn law_answers_have_fresh_counters(state: Ingress, from: Origin, datagram: Datagram)
    ensures
        state.spec_accept(from, datagram).1 matches Reception::Answer(answer) ==> {
            &&& answer.counter > state.device_counter
            &&& state.spec_accept(from, datagram).0.device_counter == answer.counter
        },
{
}

/// Once a peer is known it stays the same, and nobody else is heard.
pub proof fn law_peer_is_pinned(state: Ingress, from: Origin, datagram: Datagram)
    requires
        state.peer is Some,
    ensures
        state.spec_accept(from, datagram).0.peer == state.peer,
        state.peer != Some(from) ==> state.spec_accept(from, datagram) == (state, Reception::Ignore),
{
}

/// No motion is delivered before an authentic greeting.
pub proof fn law_greeting_precedes_motion(state: Ingress, from: Origin, datagram: Datagram)
    requires
        state.peer is None,
    ensures
        !(state.spec_accept(from, datagram).1 is Deliver),
{
}

/// The agent's answer to a challenge satisfies the desktop that sent it.
pub proof fn law_answer_satisfies_the_challenge(state: Ingress, from: Origin, counter: u64, nonce: u64)
    requires
        state.peer is None || state.peer == Some(from),
        state.device_counter < u64::MAX,
        state.last_host_counter matches Some(last) ==> counter > last,
    ensures
        state.spec_accept(
            from,
            Datagram { counter, epoch: 0, payload: Payload::Hello { nonce } },
        ).1 matches Reception::Answer(answer) && MotionUdp::answers(nonce, Some(answer)),
{
}

/// Motion from the peer, under a counter that was not used yet, is handed on as it
/// was sent.
pub proof fn law_fresh_motion_is_delivered(state: Ingress, from: Origin, datagram: Datagram)
    requires
        state.peer == Some(from),
        !state.repeated(datagram),
        datagram.payload is MotionBin,
    ensures
        state.spec_accept(from, datagram).1 matches Reception::Deliver { epoch, bin } && epoch
            == datagram.epoch && datagram.payload == (Payload::MotionBin {
            source_id: bin.source_id,
            sequence: bin.sequence,
            period_us: bin.period_us,
            source_time_us: bin.source_time_us,
            dx: bin.dx,
            dy: bin.dy,
        }),
{
}

/// What an agent sends or hands on for bytes is what the datagram in them calls for: a
/// challenge is answered, sealed toward the desktop under the same key, with its own nonce
/// and epoch and the next counter; motion is handed on with its epoch and all of its
/// fields; and bytes without an authentic datagram of the desktop do nothing.
pub proof fn law_datagrams_are_answered_in_kind(
    state: Ingress,
    key: Seq<u8>,
    from: Origin,
    data: Seq<u8>,
    after: Ingress,
    reply: Reply,
)
    requires
        state.replies(key, from, data, after, reply),
        state.device_counter < u64::MAX,
    ensures
        ({
            let opened = Datagram::opened(key, Direction::HostToDevice, data);
            &&& opened is None ==> reply == Reply::Ignore && after == state
            &&& opened matches Some(d) ==> {
                let fresh = state.last_host_counter is None || d.counter
                    > state.last_host_counter->0;
                let known = state.peer == Some(from);
                &&& !fresh ==> reply == Reply::Ignore && after == state
                &&& d.payload matches Payload::Hello { nonce } ==> (fresh && (known
                    || state.peer is None) ==> {
                    &&& reply matches Reply::Send(sent) && sent@ == (Datagram {
                        counter: (state.device_counter + 1) as u64,
                        epoch: d.epoch,
                        payload: Payload::Ack { nonce },
                    }).sealed(key, Direction::DeviceToHost)
                    &&& after.peer == Some(from)
                    &&& after.last_host_counter == Some(d.counter)
                    &&& after.device_counter == state.device_counter + 1
                })
                &&& d.payload matches Payload::MotionBin {
                    source_id,
                    sequence,
                    period_us,
                    source_time_us,
                    dx,
                    dy,
                } ==> (fresh && known ==> {
                    &&& reply matches Reply::Deliver { epoch, bin } && epoch == d.epoch
                        && bin.source_id == source_id && bin.sequence == sequence && bin.period_us
                        == period_us && bin.source_time_us == source_time_us && bin.dx == dx
                        && bin.dy == dy
                    &&& after == (Ingress { last_host_counter: Some(d.counter), ..state })
                })
                &&& !known && state.peer is Some ==> reply == Reply::Ignore && after == state
                &&& !known && !(d.payload is Hello) ==> reply == Reply::Ignore && after == state
                &&& d.payload is Ack ==> reply == Reply::Ignore && after == state
            }
        }),
{
}

/// A challenge is answered only by the acknowledgement of its own nonce, outside of any
/// epoch and under a used counter.
pub proof fn law_only_the_right_answer_counts(nonce: u64, answer: Option<Datagram>)
    ensures
        MotionUdp::answers(nonce, answer) <==> (answer matches Some(d) && d.counter >= 1 && d.epoch
            == 0 && (d.payload matches Payload::Ack { nonce: n } && n == nonce)),
{
}

/// What a desktop sends goes under a counter of its own, and carries what was given to it.
/// The next datagram has a higher counter, so that an agent does not take it for a repeat.
pub proof fn law_datagrams_carry_what_was_given(
    end: MotionUdp,
    next: MotionUdp,
    nonce: u64,
    epoch: u64,
    payload: Payload,
)
    requires
        next.next_host_counter == end.next_host_counter + 1,
    ensures
        end.challenge(nonce).payload == (Payload::Hello { nonce }),
        end.challenge(nonce).epoch == 0,
        end.carrier(epoch, payload).payload == payload,
        end.carrier(epoch, payload).epoch == epoch,
        next.challenge(nonce).counter > end.challenge(nonce).counter,
        next.carrier(epoch, payload).counter > end.challenge(nonce).counter,
        next.carrier(epoch, payload).counter > end.carrier(epoch, payload).counter,
        next.challenge(nonce).counter > end.carrier(epoch, payload).counter,
{
}

/// A fresh agent answers the first challenge with its nonce, and then takes the motion that
/// follows it and hands it on unchanged.
pub proof fn law_motion_follows_the_challenge(
    end: MotionUdp,
    next: MotionUdp,
    from: Origin,
    nonce: u64,
    epoch: u64,
    bin: MotionBin,
)
    requires
        next.next_host_counter == end.next_host_counter + 1,
    ensures
        ({
            let (known, answer) = Ingress::spec_new().spec_accept(from, end.challenge(nonce));
            let sent = Payload::MotionBin {
                source_id: bin.source_id,
                sequence: bin.sequence,
                period_us: bin.period_us,
                source_time_us: bin.source_time_us,
                dx: bin.dx,
                dy: bin.dy,
            };
            let (after, reception) = known.spec_accept(from, next.carrier(epoch, sent));
            &&& answer matches Reception::Answer(reply) && reply.payload == (Payload::Ack { nonce })
                && MotionUdp::answers(nonce, Some(reply))
            &&& reception == (Reception::Deliver { epoch, bin })
            &&& after.peer == Some(from)
        }),
{
}

/// The agent is challenged for four tenths of a second.
pub proof fn law_challenges_stop_in_time(elapsed_us: u64)
    ensures
        MotionUdp::tries_after(elapsed_us) <==> elapsed_us < 400_000,
{
}

} // verus!
