//! The steps by which senders and the receiver work on the shared counters
//! and slots.
//!
//! An attempt says which single access to the segment comes next; whoever
//! runs it performs the access, atomically where several processes share the
//! word, and tells the attempt what it observed. The decisions are all made
//! here, so that they hold however the steps of several processes
//! interleave.
use vstd::prelude::*;

use crate::bytes;
use crate::channel::region::{QueueView, SlotView};

verus! {

/// One access to the segment.
#[derive(Clone, Copy, Debug, PartialEq, Eq)]
pub enum Action {
    /// Read the head counter.
    LoadHead,
    /// Read the tail counter.
    LoadTail,
    /// Replace the tail counter if it still has the expected value; observe
    /// 1 if it had, 0 otherwise.
    ExchangeTail {
        /// Value to replace.
        expected: u64,
        /// Value to set.
        desired: u64,
    },
    /// Copy the message into the slot's payload.
    CopyIn {
        /// Slot index.
        slot: u32,
    },
    /// Write length and timestamp of the slot.
    WriteMetadata {
        /// Slot index.
        slot: u32,
    },
    /// Set the slot's sequence word.
    StoreSequence {
        /// Slot index.
        slot: u32,
        /// Value to set.
        value: u64,
    },
    /// Read the slot's ready word.
    LoadReady {
        /// Slot index.
        slot: u32,
    },
    /// Read the slot's sequence word.
    LoadSequence {
        /// Slot index.
        slot: u32,
    },
    /// Copy the message out of the slot.
    CopyOut {
        /// Slot index.
        slot: u32,
    },
    /// Set the slot's ready word.
    StoreReady {
        /// Slot index.
        slot: u32,
        /// Value to set.
        value: u64,
    },
    /// Set the head counter.
    StoreHead {
        /// Value to set.
        value: u64,
    },
    /// The attempt is over.
    Stop,
}

/// What an access does to the queue, and what it observes. `message` and
/// `timestamp` are those of the sender that makes it.
pub open spec fn performed(q: QueueView, a: Action, message: Seq<u8>, timestamp: u64) -> (
    QueueView,
    u64,
) {
    match a {
        Action::LoadHead => (q, q.head),
        Action::LoadTail => (q, q.tail),
        Action::ExchangeTail { expected, desired } => if q.tail == expected {
            (QueueView { tail: desired, ..q }, 1)
        } else {
            (q, 0)
        },
        Action::CopyIn { slot } => {
            let s = q.slots[slot as int];
            (
                q.with_slot(
                    slot as int,
                    SlotView { payload: bytes::overwrite(s.payload, 0, message), ..s },
                ),
                0,
            )
        },
        Action::WriteMetadata { slot } => {
            let s = q.slots[slot as int];
            (
                q.with_slot(
                    slot as int,
                    SlotView { length: message.len() as u32, timestamp, ..s },
                ),
                0,
            )
        },
        Action::StoreSequence { slot, value } => {
            let s = q.slots[slot as int];
            (q.with_slot(slot as int, SlotView { sequence: value, ..s }), 0)
        },
        Action::LoadReady { slot } => (q, q.slots[slot as int].ready),
        Action::LoadSequence { slot } => (q, q.slots[slot as int].sequence),
        Action::CopyOut { slot } => (q, 0),
        Action::StoreReady { slot, value } => {
            let s = q.slots[slot as int];
            (q.with_slot(slot as int, SlotView { ready: value, ..s }), 0)
        },
        Action::StoreHead { value } => (QueueView { head: value, ..q }, 0),
        Action::Stop => (q, 0),
    }
}

/// How far `tail` is ahead of `head`, on counters that wrap around.
pub open spec fn distance(head: u64, tail: u64) -> int {
    if tail >= head {
        tail - head
    } else {
        tail - head + 0x1_0000_0000_0000_0000
    }
}

/// The position after `p`.
pub open spec fn next_position(p: u64) -> u64 {
    if p == u64::MAX {
        0
    } else {
        (p + 1) as u64
    }
}

/// The slot of a position.
pub open spec fn slot_of(p: u64, n: u32) -> u32 {
    (p as int % n as int) as u32
}

/// Where a sender is in its attempt.
#[derive(Clone, Copy, Debug, PartialEq, Eq)]
pub enum SendPhase {
    /// About to read the tail counter.
    LoadTail,
    /// About to read the head counter.
    LoadHead {
        /// Tail as read.
        tail: u64,
    },
    /// There was room; about to claim the position.
    Claim {
        /// Tail as read.
        tail: u64,
    },
    /// The position is claimed; about to copy the message in.
    CopyPayload {
        /// Claimed position.
        claimed: u64,
    },
    /// About to write length and timestamp.
    WriteMetadata {
        /// Claimed position.
        claimed: u64,
    },
    /// About to stamp the sequence word.
    StampSequence {
        /// Claimed position.
        claimed: u64,
    },
    /// About to publish the slot.
    MarkReady {
        /// Claimed position.
        claimed: u64,
    },
    /// The message was sent.
    Sent,
    /// There was no room; nothing was claimed.
    Full,
}

impl SendPhase {
    /// The access that comes next.
    pub open spec fn next_action(self, n: u32) -> Action {
        match self {
            SendPhase::LoadTail => Action::LoadTail,
            SendPhase::LoadHead { tail } => Action::LoadHead,
            SendPhase::Claim { tail } => Action::ExchangeTail {
                expected: tail,
                desired: next_position(tail),
            },
            SendPhase::CopyPayload { claimed } => Action::CopyIn { slot: slot_of(claimed, n) },
            SendPhase::WriteMetadata { claimed } => Action::WriteMetadata {
                slot: slot_of(claimed, n),
            },
            SendPhase::StampSequence { claimed } => Action::StoreSequence {
                slot: slot_of(claimed, n),
                value: claimed,
            },
            SendPhase::MarkReady { claimed } => Action::StoreReady {
                slot: slot_of(claimed, n),
                value: 1,
            },
            SendPhase::Sent => Action::Stop,
            SendPhase::Full => Action::Stop,
        }
    }

    /// Where the attempt is after the access observed `word`. Room is
    /// checked before each claim; a claim that another sender forestalled is
    /// begun anew.
    pub open spec fn after(self, word: u64, n: u32) -> SendPhase {
        match self {
            SendPhase::LoadTail => SendPhase::LoadHead { tail: word },
            SendPhase::LoadHead { tail } => if distance(word, tail) >= n {
                SendPhase::Full
            } else {
                SendPhase::Claim { tail }
            },
            SendPhase::Claim { tail } => if word != 0 {
                SendPhase::CopyPayload { claimed: tail }
            } else {
                SendPhase::LoadTail
            },
            SendPhase::CopyPayload { claimed } => SendPhase::WriteMetadata { claimed },
            SendPhase::WriteMetadata { claimed } => SendPhase::StampSequence { claimed },
            SendPhase::StampSequence { claimed } => SendPhase::MarkReady { claimed },
            SendPhase::MarkReady { claimed } => SendPhase::Sent,
            SendPhase::Sent => SendPhase::Sent,
            SendPhase::Full => SendPhase::Full,
        }
    }
}

/// One attempt to send.
#[derive(Clone, Copy, Debug)]
pub struct SendAttempt {
    /// Number of slots of the channel.
    pub slot_count: u32,
    /// Where the attempt is.
    pub phase: SendPhase,
}

impl SendAttempt {
    /// Begins an attempt.
    pub fn start(slot_count: u32) -> (r: SendAttempt)
        ensures
            r == (SendAttempt { slot_count, phase: SendPhase::LoadTail }),
    {
        SendAttempt { slot_count, phase: SendPhase::LoadTail }
    }

    /// The access that comes next.
    pub fn action(&self) -> (a: Action)
        requires
            self.slot_count > 0,
        ensures
            a == self.phase.next_action(self.slot_count),
    {
        let n: u64 = self.slot_count as u64;
        match self.phase {
            SendPhase::LoadTail => Action::LoadTail,
            SendPhase::LoadHead { tail } => Action::LoadHead,
            SendPhase::Claim { tail } => Action::ExchangeTail {
                expected: tail,
                desired: tail.wrapping_add(1),
            },
            SendPhase::CopyPayload { claimed } => Action::CopyIn { slot: (claimed % n) as u32 },
            SendPhase::WriteMetadata { claimed } => Action::WriteMetadata {
                slot: (claimed % n) as u32,
            },
            SendPhase::StampSequence { claimed } => Action::StoreSequence {
                slot: (claimed % n) as u32,
                value: claimed,
            },
            SendPhase::MarkReady { claimed } => Action::StoreReady {
                slot: (claimed % n) as u32,
                value: 1,
            },
            SendPhase::Sent => Action::Stop,
            SendPhase::Full => Action::Stop,
        }
    }

    /// Takes in what the access observed.
    pub fn observe(&mut self, word: u64)
        ensures
            *final(self) == (SendAttempt {
                slot_count: old(self).slot_count,
                phase: old(self).phase.after(word, old(self).slot_count),
            }),
    {
        self.phase = match self.phase {
            SendPhase::LoadTail => SendPhase::LoadHead { tail: word },
            SendPhase::LoadHead { tail } => {
                if tail.wrapping_sub(word) >= self.slot_count as u64 {
                    SendPhase::Full
                } else {
                    SendPhase::Claim { tail }
                }
            },
            SendPhase::Claim { tail } => {
                if word != 0 {
                    SendPhase::CopyPayload { claimed: tail }
                } else {
                    SendPhase::LoadTail
                }
            },
            SendPhase::CopyPayload { claimed } => SendPhase::WriteMetadata { claimed },
            SendPhase::WriteMetadata { claimed } => SendPhase::StampSequence { claimed },
            SendPhase::StampSequence { claimed } => SendPhase::MarkReady { claimed },
            SendPhase::MarkReady { claimed } => SendPhase::Sent,
            SendPhase::Sent => SendPhase::Sent,
            SendPhase::Full => SendPhase::Full,
        };
    }
}

/// Where the receiver is in its attempt.
#[derive(Clone, Copy, Debug, PartialEq, Eq)]
pub enum RecvPhase {
    /// About to read the head counter.
    LoadHead,
    /// About to read the tail counter.
    LoadTail {
        /// Head as read.
        head: u64,
    },
    /// A position is claimed; about to see whether it is published.
    LoadReady {
        /// Position to receive.
        head: u64,
    },
    /// It is published; about to check its sequence word.
    LoadSequence {
        /// Position to receive.
        head: u64,
    },
    /// About to copy the message out.
    CopyPayload {
        /// Position to receive.
        head: u64,
    },
    /// About to give the slot back.
    ClearReady {
        /// Position received.
        head: u64,
    },
    /// About to move the head counter on.
    AdvanceHead {
        /// Position received.
        head: u64,
    },
    /// A message was received.
    Got,
    /// No position is claimed.
    Empty,
    /// The next position is claimed but not published yet.
    NotReady,
    /// The slot's sequence word is not the position.
    Mismatch {
        /// Position expected.
        head: u64,
        /// Sequence word found.
        observed: u64,
    },
}

impl RecvPhase {
    /// The access that comes next.
    pub open spec fn next_action(self, n: u32) -> Action {
        match self {
            RecvPhase::LoadHead => Action::LoadHead,
            RecvPhase::LoadTail { head } => Action::LoadTail,
            RecvPhase::LoadReady { head } => Action::LoadReady { slot: slot_of(head, n) },
            RecvPhase::LoadSequence { head } => Action::LoadSequence { slot: slot_of(head, n) },
            RecvPhase::CopyPayload { head } => Action::CopyOut { slot: slot_of(head, n) },
            RecvPhase::ClearReady { head } => Action::StoreReady {
                slot: slot_of(head, n),
                value: 0,
            },
            RecvPhase::AdvanceHead { head } => Action::StoreHead { value: next_position(head) },
            RecvPhase::Got => Action::Stop,
            RecvPhase::Empty => Action::Stop,
            RecvPhase::NotReady => Action::Stop,
            RecvPhase::Mismatch { head, observed } => Action::Stop,
        }
    }

    /// Where the attempt is after the access observed `word`. Only the slot
    /// at the head is ever looked at, so messages leave in order; and the
    /// attempt never waits for a sender.
    pub open spec fn after(self, word: u64) -> RecvPhase {
        match self {
            RecvPhase::LoadHead => RecvPhase::LoadTail { head: word },
            RecvPhase::LoadTail { head } => if head >= word {
                RecvPhase::Empty
            } else {
                RecvPhase::LoadReady { head }
            },
            RecvPhase::LoadReady { head } => if word == 0 {
                RecvPhase::NotReady
            } else {
                RecvPhase::LoadSequence { head }
            },
            RecvPhase::LoadSequence { head } => if word != head {
                RecvPhase::Mismatch { head, observed: word }
            } else {
                RecvPhase::CopyPayload { head }
            },
            RecvPhase::CopyPayload { head } => RecvPhase::ClearReady { head },
            RecvPhase::ClearReady { head } => RecvPhase::AdvanceHead { head },
            RecvPhase::AdvanceHead { head } => RecvPhase::Got,
            RecvPhase::Got => RecvPhase::Got,
            RecvPhase::Empty => RecvPhase::Empty,
            RecvPhase::NotReady => RecvPhase::NotReady,
            RecvPhase::Mismatch { head, observed } => RecvPhase::Mismatch { head, observed },
        }
    }
}

/// One attempt to receive.
#[derive(Clone, Copy, Debug)]
pub struct RecvAttempt {
    /// Number of slots of the channel.
    pub slot_count: u32,
    /// Where the attempt is.
    pub phase: RecvPhase,
}

impl RecvAttempt {
    /// Begins an attempt.
    pub fn start(slot_count: u32) -> (r: RecvAttempt)
        ensures
            r == (RecvAttempt { slot_count, phase: RecvPhase::LoadHead }),
    {
        RecvAttempt { slot_count, phase: RecvPhase::LoadHead }
    }

    /// The access that comes next.
    pub fn action(&self) -> (a: Action)
        requires
            self.slot_count > 0,
        ensures
            a == self.phase.next_action(self.slot_count),
    {
        let n: u64 = self.slot_count as u64;
        match self.phase {
            RecvPhase::LoadHead => Action::LoadHead,
            RecvPhase::LoadTail { head } => Action::LoadTail,
            RecvPhase::LoadReady { head } => Action::LoadReady { slot: (head % n) as u32 },
            RecvPhase::LoadSequence { head } => Action::LoadSequence { slot: (head % n) as u32 },
            RecvPhase::CopyPayload { head } => Action::CopyOut { slot: (head % n) as u32 },
            RecvPhase::ClearReady { head } => Action::StoreReady {
                slot: (head % n) as u32,
                value: 0,
            },
            RecvPhase::AdvanceHead { head } => Action::StoreHead { value: head.wrapping_add(1) },
            RecvPhase::Got => Action::Stop,
            RecvPhase::Empty => Action::Stop,
            RecvPhase::NotReady => Action::Stop,
            RecvPhase::Mismatch { head, observed } => Action::Stop,
        }
    }

    /// Takes in what the access observed.
    pub fn observe(&mut self, word: u64)
        ensures
            *final(self) == (RecvAttempt {
                slot_count: old(self).slot_count,
                phase: old(self).phase.after(word),
            }),
    {
        self.phase = match self.phase {
            RecvPhase::LoadHead => RecvPhase::LoadTail { head: word },
            RecvPhase::LoadTail { head } => {
                if head >= word {
                    RecvPhase::Empty
                } else {
                    RecvPhase::LoadReady { head }
                }
            },
            RecvPhase::LoadReady { head } => {
                if word == 0 {
                    RecvPhase::NotReady
                } else {
                    RecvPhase::LoadSequence { head }
                }
            },
            RecvPhase::LoadSequence { head } => {
                if word != head {
                    RecvPhase::Mismatch { head, observed: word }
                } else {
                    RecvPhase::CopyPayload { head }
                }
            },
            RecvPhase::CopyPayload { head } => RecvPhase::ClearReady { head },
            RecvPhase::ClearReady { head } => RecvPhase::AdvanceHead { head },
            RecvPhase::AdvanceHead { head } => RecvPhase::Got,
            RecvPhase::Got => RecvPhase::Got,
            RecvPhase::Empty => RecvPhase::Empty,
            RecvPhase::NotReady => RecvPhase::NotReady,
            RecvPhase::Mismatch { head, observed } => RecvPhase::Mismatch { head, observed },
        };
    }
}

} // verus!
