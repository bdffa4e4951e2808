//! The steps by which writers and readers work on a section's shared words
//! and slots.
//!
//! An attempt says which single access to the segment comes next; whoever
//! runs it performs the access, atomically where several processes share the
//! word, and tells the attempt what it observed. The decisions are all made
//! here, so that they hold however the steps of several processes
//! interleave.
//!
//! A slot's sequence word is even while the slot is stable and odd while a
//! writer is in it. A reader keeps what it copied only if the word was the
//! same even value before and after, and the slot held the position it was
//! looking for.
use vstd::prelude::*;

use crate::bytes;
use crate::ring::region::{SectionView, SlotView};

verus! {

/// How often an odd sequence word is looked at before it is given up on.
pub const ODD_SEQUENCE_SPIN_BUDGET: u32 = 128;

/// One access to the segment.
#[derive(Clone, Copy, Debug, PartialEq, Eq)]
pub enum Action {
    /// Read the section's writer position and move it on by one.
    ClaimPosition,
    /// Read the section's writer position.
    LoadPosition,
    /// Read the slot's sequence word.
    LoadSequence {
        /// Slot index.
        slot: u32,
    },
    /// Replace the slot's sequence word if it still has the expected value;
    /// observe 1 if it had, 0 otherwise.
    ExchangeSequence {
        /// Slot index.
        slot: u32,
        /// Value to replace.
        expected: u64,
        /// Value to set.
        desired: u64,
    },
    /// Write position, length and timestamp of the slot.
    WriteFields {
        /// Slot index.
        slot: u32,
        /// Position to write.
        position: u64,
    },
    /// Copy the event into the slot's payload.
    CopyIn {
        /// Slot index.
        slot: u32,
    },
    /// Set the slot's sequence word.
    StoreSequence {
        /// Slot index.
        slot: u32,
        /// Value to set.
        value: u64,
    },
    /// Copy fields and event out of the slot; observe the position field.
    CopyOut {
        /// Slot index.
        slot: u32,
    },
    /// The attempt is over.
    Stop,
}

/// The counter value after `p`.
pub open spec fn next_count(p: u64) -> u64 {
    if p == u64::MAX {
        0
    } else {
        (p + 1) as u64
    }
}

/// The slot of a position.
pub open spec fn slot_of(p: u64, n: u32) -> u32 {
    (p as int % n as int) as u32
}

/// What an access does to the section, and what it observes. `payload` and
/// `timestamp` are those of the writer that makes it.
pub open spec fn performed(s: SectionView, a: Action, payload: Seq<u8>, timestamp: u64) -> (
    SectionView,
    u64,
) {
    match a {
        Action::ClaimPosition => (
            SectionView { position: next_count(s.position), ..s },
            s.position,
        ),
        Action::LoadPosition => (s, s.position),
        Action::LoadSequence { slot } => (s, s.slots[slot as int].sequence),
        Action::ExchangeSequence { slot, expected, desired } => {
            let t = s.slots[slot as int];
            if t.sequence == expected {
                (s.with_slot(slot as int, SlotView { sequence: desired, ..t }), 1)
            } else {
                (s, 0)
            }
        },
        Action::WriteFields { slot, position } => {
            let t = s.slots[slot as int];
            (
                s.with_slot(
                    slot as int,
                    SlotView { position, length: payload.len() as u32, timestamp, ..t },
                ),
                0,
            )
        },
        Action::CopyIn { slot } => {
            let t = s.slots[slot as int];
            (
                s.with_slot(
                    slot as int,
                    SlotView { payload: bytes::overwrite(t.payload, 0, payload), ..t },
                ),
                0,
            )
        },
        Action::StoreSequence { slot, value } => {
            let t = s.slots[slot as int];
            (s.with_slot(slot as int, SlotView { sequence: value, ..t }), 0)
        },
        Action::CopyOut { slot } => (s, s.slots[slot as int].position),
        Action::Stop => (s, 0),
    }
}

/// Where a writer is in publishing an event.
#[derive(Clone, Copy, Debug, PartialEq, Eq)]
pub enum PublishPhase {
    /// About to claim a position.
    Claim,
    /// About to look at the slot's sequence word.
    LoadSequence {
        /// Claimed position.
        position: u64,
        /// Odd word seen last.
        held: u64,
        /// How often it was seen in a row.
        spins: u32,
    },
    /// The slot was stable; about to enter it.
    Enter {
        /// Claimed position.
        position: u64,
        /// The even sequence word.
        sequence: u64,
    },
    /// In the slot; about to write its fields.
    WriteFields {
        /// Claimed position.
        position: u64,
        /// The even sequence word found.
        sequence: u64,
    },
    /// In the slot; about to copy the event in.
    CopyPayload {
        /// Claimed position.
        position: u64,
        /// The even sequence word found.
        sequence: u64,
    },
    /// About to leave the slot stable again.
    Leave {
        /// Claimed position.
        position: u64,
        /// The even sequence word found.
        sequence: u64,
    },
    /// The event was published.
    Published,
    /// Another writer holds the slot and does not move.
    Stuck {
        /// Claimed position, which stays without an event.
        position: u64,
        /// The odd sequence word.
        sequence: u64,
    },
}

impl PublishPhase {
    /// The access that comes next.
    pub open spec fn next_action(self, n: u32) -> Action {
        match self {
            PublishPhase::Claim => Action::ClaimPosition,
            PublishPhase::LoadSequence { position, held, spins } => Action::LoadSequence {
                slot: slot_of(position, n),
            },
            PublishPhase::Enter { position, sequence } => Action::ExchangeSequence {
                slot: slot_of(position, n),
                expected: sequence,
                desired: next_count(sequence),
            },
            PublishPhase::WriteFields { position, sequence } => Action::WriteFields {
                slot: slot_of(position, n),
                position,
            },
            PublishPhase::CopyPayload { position, sequence } => Action::CopyIn {
                slot: slot_of(position, n),
            },
            PublishPhase::Leave { position, sequence } => Action::StoreSequence {
                slot: slot_of(position, n),
                value: next_count(next_count(sequence)),
            },
            PublishPhase::Published => Action::Stop,
            PublishPhase::Stuck { position, sequence } => Action::Stop,
        }
    }

    /// Where the attempt is after the access observed `word`. A slot in the
    /// hands of another writer is waited for while its word moves, and given
    /// up once the same odd word was seen more often than the budget allows.
    pub open spec fn after(self, word: u64) -> PublishPhase {
        match self {
            PublishPhase::Claim => PublishPhase::LoadSequence { position: word, held: 0, spins: 0 },
            PublishPhase::LoadSequence { position, held, spins } => if word % 2 == 0 {
                PublishPhase::Enter { position, sequence: word }
            } else if spins > 0 && word == held {
                if spins >= ODD_SEQUENCE_SPIN_BUDGET {
                    PublishPhase::Stuck { position, sequence: word }
                } else {
                    PublishPhase::LoadSequence { position, held, spins: (spins + 1) as u32 }
                }
            } else {
                PublishPhase::LoadSequence { position, held: word, spins: 1 }
            },
            PublishPhase::Enter { position, sequence } => if word != 0 {
                PublishPhase::WriteFields { position, sequence }
            } else {
                PublishPhase::LoadSequence { position, held: 0, spins: 0 }
            },
            PublishPhase::WriteFields { position, sequence } => PublishPhase::CopyPayload {
                position,
                sequence,
            },
            PublishPhase::CopyPayload { position, sequence } => PublishPhase::Leave {
                position,
                sequence,
            },
            PublishPhase::Leave { position, sequence } => PublishPhase::Published,
            PublishPhase::Published => PublishPhase::Published,
            PublishPhase::Stuck { position, sequence } => PublishPhase::Stuck {
                position,
                sequence,
            },
        }
    }
}

/// One attempt to publish.
#[derive(Clone, Copy, Debug)]
pub struct PublishAttempt {
    /// Number of slots of the section.
    pub slot_count: u32,
    /// Where the attempt is.
    pub phase: PublishPhase,
}

impl PublishAttempt {
    /// Begins an attempt.
    pub fn start(slot_count: u32) -> (r: PublishAttempt)
        ensures
            r == (PublishAttempt { slot_count, phase: PublishPhase::Claim }),
    {
        PublishAttempt { slot_count, phase: PublishPhase::Claim }
    }

    /// The access that comes next.
    pub fn action(&self) -> (a: Action)
        requires
            self.slot_count > 0,
        ensures
            a == self.phase.next_action(self.slot_count),
    {
        let n: u64 = self.slot_count as u64;
        match self.phase {
            PublishPhase::Claim => Action::ClaimPosition,
            PublishPhase::LoadSequence { position, held, spins } => Action::LoadSequence {
                slot: (position % n) as u32,
            },
            PublishPhase::Enter { position, sequence } => Action::ExchangeSequence {
                slot: (position % n) as u32,
                expected: sequence,
                desired: sequence.wrapping_add(1),
            },
            PublishPhase::WriteFields { position, sequence } => Action::WriteFields {
                slot: (position % n) as u32,
                position,
            },
            PublishPhase::CopyPayload { position, sequence } => Action::CopyIn {
                slot: (position % n) as u32,
            },
            PublishPhase::Leave { position, sequence } => Action::StoreSequence {
                slot: (position % n) as u32,
                value: sequence.wrapping_add(1).wrapping_add(1),
            },
            PublishPhase::Published => Action::Stop,
            PublishPhase::Stuck { position, sequence } => Action::Stop,
        }
    }

    /// Takes in what the access observed.
    pub fn observe(&mut self, word: u64)
        ensures
            *final(self) == (PublishAttempt {
                slot_count: old(self).slot_count,
                phase: old(self).phase.after(word),
            }),
    {
        self.phase = match self.phase {
            PublishPhase::Claim => PublishPhase::LoadSequence { position: word, held: 0, spins: 0 },
            PublishPhase::LoadSequence { position, held, spins } => {
                if word % 2 == 0 {
                    PublishPhase::Enter { position, sequence: word }
                } else if spins > 0 && word == held {
                    if spins >= ODD_SEQUENCE_SPIN_BUDGET {
                        PublishPhase::Stuck { position, sequence: word }
                    } else {
                        PublishPhase::LoadSequence { position, held, spins: spins + 1 }
                    }
                } else {
                    PublishPhase::LoadSequence { position, held: word, spins: 1 }
                }
            },
            PublishPhase::Enter { position, sequence } => {
                if word != 0 {
                    PublishPhase::WriteFields { position, sequence }
                } else {
                    PublishPhase::LoadSequence { position, held: 0, spins: 0 }
                }
            },
            PublishPhase::WriteFields { position, sequence } => PublishPhase::CopyPayload {
                position,
                sequence,
            },
            PublishPhase::CopyPayload { position, sequence } => PublishPhase::Leave {
                position,
                sequence,
            },
            PublishPhase::Leave { position, sequence } => PublishPhase::Published,
            PublishPhase::Published => PublishPhase::Published,
            PublishPhase::Stuck { position, sequence } => PublishPhase::Stuck {
                position,
                sequence,
            },
        };
    }
}

/// Where a reader is in draining a section.
#[derive(Clone, Copy, Debug, PartialEq, Eq)]
pub enum PollPhase {
    /// About to see how far the writers have got.
    LoadLatest,
    /// About to look at the sequence word before copying.
    LoadBefore {
        /// How often it was odd so far.
        spins: u32,
    },
    /// It was even; about to copy the slot out.
    Copy {
        /// The even sequence word.
        before: u64,
    },
    /// About to look at the sequence word after copying.
    LoadAfter {
        /// The even sequence word from before.
        before: u64,
        /// Position field of the copy.
        position: u64,
    },
    /// Caught up.
    Done,
}

/// One draining of a section by a reader.
#[derive(Clone, Copy, Debug)]
pub struct PollAttempt {
    /// Number of slots of the section.
    pub slot_count: u32,
    /// Next position to deliver.
    pub cursor: u64,
    /// Positions that were passed over so far.
    pub dropped: u64,
    /// Writer position as seen last.
    pub latest: u64,
    /// Where the attempt is.
    pub phase: PollPhase,
}

/// `d` more, up to the largest count there is.
pub open spec fn count_up(count: u64, d: int) -> u64 {
    if count + d > u64::MAX {
        u64::MAX
    } else {
        (count + d) as u64
    }
}

/// The oldest position that the slots may still hold.
pub open spec fn oldest(latest: u64, n: u32) -> u64 {
    if latest < n {
        0
    } else {
        (latest - n) as u64
    }
}

/// A slot with this word and position was never published: the first event
/// that a slot holds leaves it with another word.
pub open spec fn never_published(sequence: u64, position: u64) -> bool {
    sequence == 0 && position == 0
}

impl PollAttempt {
    /// A position to look at is behind the writers.
    pub open spec fn ok(self) -> bool {
        &&& self.slot_count > 0
        &&& self.phase is LoadBefore || self.phase is Copy || self.phase is LoadAfter
            ==> self.cursor < self.latest
    }

    /// The access that comes next.
    pub open spec fn next_action(self) -> Action {
        match self.phase {
            PollPhase::LoadLatest => Action::LoadPosition,
            PollPhase::LoadBefore { spins } => Action::LoadSequence {
                slot: slot_of(self.cursor, self.slot_count),
            },
            PollPhase::Copy { before } => Action::CopyOut {
                slot: slot_of(self.cursor, self.slot_count),
            },
            PollPhase::LoadAfter { before, position } => Action::LoadSequence {
                slot: slot_of(self.cursor, self.slot_count),
            },
            PollPhase::Done => Action::Stop,
        }
    }

    /// The copy is good: what was observed completes it, and it is of the
    /// position looked for, not of a slot that its first writer has yet to
    /// enter.
    pub open spec fn accepts(self, word: u64) -> bool {
        self.phase matches PollPhase::LoadAfter { before, position } && word == before && position
            == self.cursor && !never_published(before, position)
    }

    /// Where to go on from: the next slot while there is one.
    pub open spec fn resumed(self) -> PollAttempt {
        PollAttempt {
            phase: if self.cursor < self.latest {
                PollPhase::LoadBefore { spins: 0 }
            } else {
                PollPhase::Done
            },
            ..self
        }
    }

    /// The attempt after the access observed `word`. A reader that was
    /// lapped skips to the oldest position there may be and counts what it
    /// skipped; one that finds a writer in the slot for longer than the
    /// budget allows counts that position as dropped; a copy that is not
    /// good is thrown away.
    pub open spec fn after(self, word: u64) -> PollAttempt {
        match self.phase {
            PollPhase::LoadLatest => {
                let first = oldest(word, self.slot_count);
                let a = PollAttempt { latest: word, ..self };
                if self.cursor < first {
                    PollAttempt {
                        cursor: first,
                        dropped: count_up(self.dropped, first - self.cursor),
                        ..a
                    }.resumed()
                } else {
                    a.resumed()
                }
            },
            PollPhase::LoadBefore { spins } => if word % 2 == 0 {
                PollAttempt { phase: PollPhase::Copy { before: word }, ..self }
            } else if spins >= ODD_SEQUENCE_SPIN_BUDGET {
                PollAttempt {
                    cursor: (self.cursor + 1) as u64,
                    dropped: count_up(self.dropped, 1),
                    phase: PollPhase::LoadLatest,
                    ..self
                }
            } else {
                PollAttempt { phase: PollPhase::LoadBefore { spins: (spins + 1) as u32 }, ..self }
            },
            PollPhase::Copy { before } => PollAttempt {
                phase: PollPhase::LoadAfter { before, position: word },
                ..self
            },
            PollPhase::LoadAfter { before, position } => if self.accepts(word) {
                PollAttempt { cursor: (self.cursor + 1) as u64, ..self }.resumed()
            } else {
                PollAttempt { phase: PollPhase::LoadLatest, ..self }
            },
            PollPhase::Done => self,
        }
    }

    /// Begins to drain a section.
    pub fn start(slot_count: u32, cursor: u64, dropped: u64) -> (r: PollAttempt)
        ensures
            r == (PollAttempt {
                slot_count,
                cursor,
                dropped,
                latest: 0,
                phase: PollPhase::LoadLatest,
            }),
    {
        PollAttempt { slot_count, cursor, dropped, latest: 0, phase: PollPhase::LoadLatest }
    }

    /// The access that comes next.
    pub fn action(&self) -> (a: Action)
        requires
            self.slot_count > 0,
        ensures
            a == self.next_action(),
    {
        let slot: u32 = (self.cursor % (self.slot_count as u64)) as u32;
        match self.phase {
            PollPhase::LoadLatest => Action::LoadPosition,
            PollPhase::LoadBefore { spins } => Action::LoadSequence { slot },
            PollPhase::Copy { before } => Action::CopyOut { slot },
            PollPhase::LoadAfter { before, position } => Action::LoadSequence { slot },
            PollPhase::Done => Action::Stop,
        }
    }

    fn resume(&mut self)
        requires
            old(self).slot_count > 0,
        ensures
            *final(self) == old(self).resumed(),
            final(self).ok(),
    {
        self.phase = if self.cursor < self.latest {
            PollPhase::LoadBefore { spins: 0 }
        } else {
            PollPhase::Done
        };
    }

    /// Takes in what the access observed. `true` says that the copy made
    /// last is good and to be delivered.
    pub fn observe(&mut self, word: u64) -> (deliver: bool)
        requires
            old(self).ok(),
        ensures
            *final(self) == old(self).after(word),
            deliver == old(self).accepts(word),
            final(self).ok(),
    {
        match self.phase {
            PollPhase::LoadLatest => {
                self.latest = word;
                let first: u64 = word.saturating_sub(self.slot_count as u64);
                if self.cursor < first {
                    self.dropped = self.dropped.saturating_add(first - self.cursor);
                    self.cursor = first;
                }
                self.resume();
                false
            },
            PollPhase::LoadBefore { spins } => {
                if word % 2 == 0 {
                    self.phase = PollPhase::Copy { before: word };
                } else if spins >= ODD_SEQUENCE_SPIN_BUDGET {
                    self.dropped = self.dropped.saturating_add(1);
                    self.cursor = self.cursor + 1;
                    self.phase = PollPhase::LoadLatest;
                } else {
                    self.phase = PollPhase::LoadBefore { spins: spins + 1 };
                }
                false
            },
            PollPhase::Copy { before } => {
                self.phase = PollPhase::LoadAfter { before, position: word };
                false
            },
            PollPhase::LoadAfter { before, position } => {
                let blank: bool = before == 0 && position == 0;
                if word == before && position == self.cursor && !blank {
                    self.cursor = self.cursor + 1;
                    self.resume();
                    true
                } else {
                    self.phase = PollPhase::LoadLatest;
                    false
                }
            },
            PollPhase::Done => false,
        }
    }
}

/// Every position is accounted for: what the cursor moves on by in a step is
/// what was delivered and what was counted as dropped, as long as the count
/// is not at its limit.
pub proof fn law_positions_are_accounted_for(a: PollAttempt, word: u64)
    requires
        a.ok(),
        a.after(word).dropped < u64::MAX,
    ensures
        a.cursor <= a.after(word).cursor,
        a.after(word).cursor - a.cursor == a.after(word).dropped - a.dropped + if a.accepts(word) {
            1int
        } else {
            0int
        },
{
}

} // verus!
