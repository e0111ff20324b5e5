//! The desktop's side of the stream to the agent: which epoch it is in, and how its
//! requests are numbered.
use crate::packet::Packet;
use vstd::prelude::*;

verus! {

/// The current epoch and the number of the last request.
#[derive(Clone, Copy, Debug, PartialEq, Eq, Structural)]
pub struct Link {
    pub epoch: u64,
    pub control_id: u64,
}

impl Link {
    /// The link after a request, which takes the next number.
    pub open spec fn counted(self) -> Link {
        Link { control_id: (self.control_id + 1) as u64, ..self }
    }

    /// Whether there is a number for another request.
    pub open spec fn counts(self) -> bool {
        self.control_id < u64::MAX
    }

    /// What follows from arming: the link after it, and what is sent.
    pub open spec fn arming(self, source_time_us: u64) -> (Link, Option<Packet>) {
        if self.epoch < u64::MAX && self.counts() {
            let after = Link { epoch: (self.epoch + 1) as u64, ..self.counted() };
            (
                after,
                Some(
                    Packet::Arm {
                        epoch: after.epoch,
                        control_id: after.control_id,
                        source_time_us,
                    },
                ),
            )
        } else {
            (self, None)
        }
    }

    pub open spec fn releasing(self) -> (Link, Option<Packet>) {
        if self.counts() {
            let after = self.counted();
            (after, Some(Packet::Release { epoch: self.epoch, control_id: after.control_id }))
        } else {
            (self, None)
        }
    }

    pub open spec fn typing(self, report: [u8; 8]) -> (Link, Option<Packet>) {
        if self.counts() {
            let after = self.counted();
            (after, Some(Packet::Keyboard { control_id: after.control_id, report }))
        } else {
            (self, None)
        }
    }

    pub fn new() -> (r: Link)
        ensures
            r == (Link { epoch: 0, control_id: 0 }),
    {
        Link { epoch: 0, control_id: 0 }
    }

    /// The number for the next request, while there are numbers left.
    pub fn next_control(&mut self) -> (r: Option<u64>)
        ensures
            final(self).epoch == old(self).epoch,
            match r {
                Some(id) => id == old(self).control_id + 1 && final(self).control_id == id,
                None => old(self).control_id == u64::MAX && *final(self) == *old(self),
            },
    {
        match self.control_id.checked_add(1) {
            Some(id) => {
                self.control_id = id;
                Some(id)
            },
            None => None,
        }
    }

    /// Starts a new epoch: the agent forwards input from here on.
    pub fn arm(&mut self, source_time_us: u64) -> (r: Option<Packet>)
        ensures
            (*final(self), r) == old(self).arming(source_time_us),
            if old(self).epoch < u64::MAX && old(self).control_id < u64::MAX {
                &&& final(self).epoch == old(self).epoch + 1
                &&& final(self).control_id == old(self).control_id + 1
                &&& r == Some(
                    Packet::Arm {
                        epoch: final(self).epoch,
                        control_id: final(self).control_id,
                        source_time_us,
                    },
                )
            } else {
                r is None && *final(self) == *old(self)
            },
    {
        if self.epoch == u64::MAX || self.control_id == u64::MAX {
            return None;
        }
        self.epoch = self.epoch + 1;
        self.control_id = self.control_id + 1;
        Some(Packet::Arm { epoch: self.epoch, control_id: self.control_id, source_time_us })
    }

    /// Ends the epoch: everything is released, and the agent forwards nothing more.
    pub fn release(&mut self) -> (r: Option<Packet>)
        ensures
            (*final(self), r) == old(self).releasing(),
            final(self).epoch == old(self).epoch,
            if old(self).control_id < u64::MAX {
                &&& final(self).control_id == old(self).control_id + 1
                &&& r == Some(
                    Packet::Release { epoch: old(self).epoch, control_id: final(self).control_id },
                )
            } else {
                r is None && *final(self) == *old(self)
            },
    {
        match self.next_control() {
            Some(control_id) => Some(Packet::Release { epoch: self.epoch, control_id }),
            None => None,
        }
    }

    pub fn keyboard(&mut self, report: [u8; 8]) -> (r: Option<Packet>)
        ensures
            (*final(self), r) == old(self).typing(report),
            final(self).epoch == old(self).epoch,
            if old(self).control_id < u64::MAX {
                &&& final(self).control_id == old(self).control_id + 1
                &&& r == Some(Packet::Keyboard { control_id: final(self).control_id, report })
            } else {
                r is None && *final(self) == *old(self)
            },
    {
        match self.next_control() {
            Some(control_id) => Some(Packet::Keyboard { control_id, report }),
            None => None,
        }
    }
}

/// The number that a request carries.
pub open spec fn number_of(packet: Packet) -> Option<u64> {
    match packet {
        Packet::Arm { control_id, .. } => Some(control_id),
        Packet::Release { control_id, .. } => Some(control_id),
        Packet::Keyboard { control_id, .. } => Some(control_id),
        _ => None,
    }
}

/// Requests are numbered one after the other, whatever they are, and none has the number
/// of an earlier one.
pub proof fn law_requests_are_numbered_in_turn(
    link: Link,
    source_time_us: u64,
    report: [u8; 8],
)
    requires
        link.epoch < u64::MAX - 1,
        link.control_id < u64::MAX - 1,
    ensures
        ({
            let next = (link.control_id + 1) as u64;
            let (armed, arm) = link.arming(source_time_us);
            let (released, release) = link.releasing();
            let (typed, keys) = link.typing(report);
            &&& arm is Some && number_of(arm->0) == Some(next) && armed.control_id == next
            &&& release is Some && number_of(release->0) == Some(next) && released.control_id
                == next
            &&& keys is Some && number_of(keys->0) == Some(next) && typed.control_id == next
            &&& armed.releasing().1 is Some && number_of(armed.releasing().1->0) == Some(
                (next + 1) as u64,
            )
            &&& released.arming(source_time_us).1 is Some && number_of(
                released.arming(source_time_us).1->0,
            ) == Some((next + 1) as u64)
        }),
{
}

/// Arming begins a new epoch, which the release that follows ends; typing keeps the epoch.
pub proof fn law_releases_end_the_epoch_that_was_armed(
    link: Link,
    source_time_us: u64,
    report: [u8; 8],
)
    requires
        link.epoch < u64::MAX,
        link.control_id < u64::MAX - 1,
    ensures
        ({
            let (armed, arm) = link.arming(source_time_us);
            &&& arm matches Some(Packet::Arm { epoch, source_time_us: at, .. }) && epoch
                == link.epoch + 1 && at == source_time_us
            &&& armed.releasing().1 matches Some(Packet::Release { epoch, .. }) && epoch
                == link.epoch + 1
            &&& armed.releasing().0.epoch == link.epoch + 1
            &&& armed.typing(report).0.epoch == link.epoch + 1
            &&& armed.typing(report).1 matches Some(Packet::Keyboard { report: sent, .. }) && sent
                == report
        }),
{
}

/// Where the numbers are used up nothing is sent, and nothing changes.
pub proof fn law_numbers_are_never_reused(link: Link, source_time_us: u64, report: [u8; 8])
    requires
        link.control_id == u64::MAX,
    ensures
        link.arming(source_time_us) == (link, None::<Packet>),
        link.releasing() == (link, None::<Packet>),
        link.typing(report) == (link, None::<Packet>),
{
}

} // verus!
