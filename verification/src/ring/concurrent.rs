//! What holds of a ring section that many writers and readers use at once.
//!
//! A world is a section, any number of writers each somewhere in an attempt
//! of [`crate::ring::protocol`], and any number of readers in theirs. One of
//! them makes its next access at a time, in any order whatever; a reader's
//! copy of a slot is whole only if nobody wrote to the slot meanwhile. The
//! laws hold in every world that can be reached from an unused section, up
//! to the limit of what the counters can number.
use vstd::prelude::*;

use crate::ring::laws::Entry;
use crate::ring::protocol;
use crate::ring::protocol::{Action, PollAttempt, PollPhase, PublishPhase};
use crate::ring::region::{SectionView, SlotView};

verus! {

/// A writer with the event it is publishing.
pub struct WriterState {
    /// Where its attempt is.
    pub phase: PublishPhase,
    /// What it publishes.
    pub entry: Entry,
}

/// One event that a reader was given.
pub struct Delivery {
    /// Position it was delivered for.
    pub position: u64,
    /// What was delivered.
    pub entry: Entry,
}

/// A reader with what it has been given.
pub struct ReaderState {
    /// Where its attempt is.
    pub attempt: PollAttempt,
    /// Nobody wrote to the slot since the reader looked at its word.
    pub clean: bool,
    /// What it copied last.
    pub seen: SlotView,
    /// Writer position when the reader was made.
    pub start: u64,
    /// What it was given, in order.
    pub got: Seq<Delivery>,
}

/// A section and all that use it.
pub struct World {
    /// Number of slots.
    pub n: u32,
    /// Payload bytes per slot.
    pub size: int,
    /// The shared position and slots.
    pub s: SectionView,
    /// The writers.
    pub writers: Map<int, WriterState>,
    /// The readers.
    pub readers: Map<int, ReaderState>,
    /// The events whose positions were claimed, by position.
    pub log: Seq<Entry>,
}

/// One step of a world.
pub enum Step {
    /// A writer begins to publish an event.
    Write {
        /// Who.
        id: int,
        /// What.
        entry: Entry,
    },
    /// A writer makes its next access.
    Publish {
        /// Who.
        id: int,
    },
    /// A reader is made.
    Read {
        /// Who.
        id: int,
    },
    /// A reader makes its next access.
    Poll {
        /// Who.
        id: int,
        /// What a copy gives if the slot was written to meanwhile.
        torn: SlotView,
    },
    /// A reader begins to drain the section again.
    Again {
        /// Who.
        id: int,
    },
}

/// The attempt is over.
pub open spec fn publish_over(phase: PublishPhase) -> bool {
    phase is Published || phase is Stuck
}

/// The step can be taken.
pub open spec fn enabled(w: World, step: Step) -> bool {
    match step {
        Step::Write { id, entry } => {
            &&& w.writers.contains_key(id) ==> publish_over(w.writers[id].phase)
            &&& entry.payload.len() <= w.size
        },
        Step::Publish { id } => {
            &&& w.writers.contains_key(id)
            &&& !publish_over(w.writers[id].phase)
            &&& w.writers[id].phase is Claim ==> w.s.position < u64::MAX
            &&& w.writers[id].phase matches PublishPhase::Enter { position, sequence } ==> sequence
                < u64::MAX - 1
        },
        Step::Read { id } => !w.readers.contains_key(id),
        Step::Poll { id, torn } => {
            &&& w.readers.contains_key(id)
            &&& !(w.readers[id].attempt.phase is Done)
        },
        Step::Again { id } => {
            &&& w.readers.contains_key(id)
            &&& w.readers[id].attempt.phase is Done
        },
    }
}

/// The slot that an access wrote to that observed `word`.
pub open spec fn written_slot(a: Action, word: u64) -> Option<u32> {
    match a {
        Action::ExchangeSequence { slot, expected, desired } => if word != 0 {
            Some(slot)
        } else {
            None
        },
        Action::WriteFields { slot, position } => Some(slot),
        Action::CopyIn { slot } => Some(slot),
        Action::StoreSequence { slot, value } => Some(slot),
        _ => None,
    }
}

/// The slot that a reader is looking at.
pub open spec fn looking_at(r: ReaderState) -> u32 {
    protocol::slot_of(r.attempt.cursor, r.attempt.slot_count)
}

/// A reader after a write to slot `i`.
pub open spec fn disturbed(r: ReaderState, i: u32) -> ReaderState {
    if looking_at(r) == i {
        ReaderState { clean: false, ..r }
    } else {
        r
    }
}

/// The readers after a writer's access.
pub open spec fn readers_after(
    readers: Map<int, ReaderState>,
    a: Action,
    word: u64,
) -> Map<int, ReaderState> {
    match written_slot(a, word) {
        Some(i) => Map::new(
            |j: int| readers.contains_key(j),
            |j: int| disturbed(readers[j], i),
        ),
        None => readers,
    }
}

/// A reader after its next access. A copy of a slot that nobody wrote to is
/// what the slot holds; any other may be anything.
pub open spec fn reader_after(s: SectionView, r: ReaderState, torn: SlotView) -> ReaderState {
    let a = r.attempt.next_action();
    let (_, observed) = protocol::performed(s, a, Seq::empty(), 0);
    let seen = if a is CopyOut {
        if r.clean {
            s.slots[looking_at(r) as int]
        } else {
            torn
        }
    } else {
        r.seen
    };
    let word = if a is CopyOut {
        seen.position
    } else {
        observed
    };
    ReaderState {
        attempt: r.attempt.after(word),
        clean: if r.attempt.phase is LoadBefore {
            true
        } else {
            r.clean
        },
        seen,
        got: if r.attempt.accepts(word) {
            r.got.push(
                Delivery {
                    position: r.attempt.cursor,
                    entry: Entry { payload: r.seen.event(), timestamp: r.seen.timestamp },
                },
            )
        } else {
            r.got
        },
        ..r
    }
}

/// The world after the step.
pub open spec fn next(w: World, step: Step) -> World {
    match step {
        Step::Write { id, entry } => World {
            writers: w.writers.insert(id, WriterState { phase: PublishPhase::Claim, entry }),
            ..w
        },
        Step::Publish { id } => {
            let x = w.writers[id];
            let a = x.phase.next_action(w.n);
            let (s, word) = protocol::performed(w.s, a, x.entry.payload, x.entry.timestamp);
            World {
                s,
                writers: w.writers.insert(id, WriterState { phase: x.phase.after(word), ..x }),
                readers: readers_after(w.readers, a, word),
                log: if x.phase is Claim {
                    w.log.push(x.entry)
                } else {
                    w.log
                },
                ..w
            }
        },
        Step::Read { id } => World {
            readers: w.readers.insert(
                id,
                ReaderState {
                    attempt: PollAttempt {
                        slot_count: w.n,
                        cursor: w.s.position,
                        dropped: 0,
                        latest: 0,
                        phase: PollPhase::LoadLatest,
                    },
                    clean: false,
                    seen: w.s.slots[0],
                    start: w.s.position,
                    got: Seq::empty(),
                },
            ),
            ..w
        },
        Step::Poll { id, torn } => World {
            readers: w.readers.insert(id, reader_after(w.s, w.readers[id], torn)),
            ..w
        },
        Step::Again { id } => {
            let r = w.readers[id];
            World {
                readers: w.readers.insert(
                    id,
                    ReaderState {
                        attempt: PollAttempt { phase: PollPhase::LoadLatest, ..r.attempt },
                        ..r
                    },
                ),
                ..w
            }
        },
    }
}

/// A slot that was never written to.
pub open spec fn blank(t: SlotView) -> bool {
    t.sequence == 0 && t.position == 0 && t.length == 0 && t.timestamp == 0
}

/// A section that nobody has used.
pub open spec fn initial(w: World) -> bool {
    &&& w.n > 0
    &&& 0 <= w.size <= u32::MAX
    &&& w.s.position == 0
    &&& w.s.slots.len() == w.n
    &&& forall|i: int|
        0 <= i < w.n ==> blank(#[trigger] w.s.slots[i]) && w.s.slots[i].payload.len() == w.size
    &&& w.writers == Map::<int, WriterState>::empty()
    &&& w.readers == Map::<int, ReaderState>::empty()
    &&& w.log.len() == 0
}

/// The slot holds the whole event of the position that it says.
pub open spec fn complete(w: World, t: SlotView, i: int) -> bool {
    &&& t.position < w.log.len()
    &&& t.position as int % w.n as int == i
    &&& t.timestamp == w.log[t.position as int].timestamp
    &&& t.event() == w.log[t.position as int].payload
}

/// A stable slot is blank or complete.
pub open spec fn slot_ok(w: World, i: int) -> bool {
    let t = w.s.slots[i];
    &&& t.payload.len() == w.size
    &&& t.sequence % 2 == 0 ==> blank(t) || (t.sequence > 0 && complete(w, t, i))
}

/// Position and even sequence word of a writer that is inside a slot.
pub open spec fn inside(phase: PublishPhase) -> Option<(u64, u64)> {
    match phase {
        PublishPhase::WriteFields { position, sequence } => Some((position, sequence)),
        PublishPhase::CopyPayload { position, sequence } => Some((position, sequence)),
        PublishPhase::Leave { position, sequence } => Some((position, sequence)),
        _ => None,
    }
}

/// The slot that a writer is inside of.
pub open spec fn slot_inside(phase: PublishPhase, n: u32) -> Option<u32> {
    match inside(phase) {
        Some((position, sequence)) => Some(protocol::slot_of(position, n)),
        None => None,
    }
}

/// The position that a writer has claimed and not finished with.
pub open spec fn working_on(phase: PublishPhase) -> Option<u64> {
    match phase {
        PublishPhase::LoadSequence { position, held, spins } => Some(position),
        PublishPhase::Enter { position, sequence } => Some(position),
        PublishPhase::WriteFields { position, sequence } => Some(position),
        PublishPhase::CopyPayload { position, sequence } => Some(position),
        PublishPhase::Leave { position, sequence } => Some(position),
        _ => None,
    }
}

/// What a writer can rely on.
pub open spec fn writer_ok(w: World, id: int) -> bool {
    let x = w.writers[id];
    &&& x.entry.payload.len() <= w.size
    &&& working_on(x.phase) matches Some(p) ==> p < w.log.len() && w.log[p as int] == x.entry
    &&& x.phase matches PublishPhase::Enter { position, sequence } ==> sequence % 2 == 0
    &&& inside(x.phase) matches Some((p, q)) ==> {
        let t = w.s.slots[protocol::slot_of(p, w.n) as int];
        &&& q % 2 == 0
        &&& q < u64::MAX - 1
        &&& t.sequence == q + 1
        &&& !(x.phase is WriteFields) ==> t.position == p && t.length == x.entry.payload.len()
            && t.timestamp == x.entry.timestamp
        &&& x.phase is Leave ==> t.payload.take(x.entry.payload.len() as int) == x.entry.payload
    }
}

/// Two writers inside slots are inside different ones.
pub open spec fn apart(w: World, a: int, b: int) -> bool {
    slot_inside(w.writers[a].phase, w.n) is Some ==> slot_inside(w.writers[a].phase, w.n)
        != slot_inside(w.writers[b].phase, w.n)
}

/// The reader was given the event that was published at the position.
pub open spec fn delivery_ok(log: Seq<Entry>, d: Delivery) -> bool {
    &&& d.position < log.len()
    &&& d.entry == log[d.position as int]
}

/// What a reader can rely on.
pub open spec fn reader_ok(w: World, id: int) -> bool {
    let r = w.readers[id];
    let t = w.s.slots[looking_at(r) as int];
    &&& r.attempt.ok()
    &&& r.attempt.slot_count == w.n
    &&& r.start <= r.attempt.cursor <= w.s.position
    &&& !(r.attempt.phase is LoadLatest) ==> r.attempt.latest <= w.s.position
    &&& r.attempt.phase matches PollPhase::Copy { before } ==> {
        &&& before % 2 == 0
        &&& before <= t.sequence
        &&& t.sequence == before ==> r.clean
    }
    &&& r.attempt.phase matches PollPhase::LoadAfter { before, position } ==> {
        &&& before % 2 == 0
        &&& before <= t.sequence
        &&& t.sequence == before ==> r.clean
        &&& r.clean ==> r.seen == t
        &&& position == r.seen.position
    }
    &&& r.got.len() + r.attempt.dropped == r.attempt.cursor - r.start
    &&& forall|k: int|
        0 <= k < r.got.len() ==> delivery_ok(w.log, #[trigger] r.got[k]) && r.start
            <= r.got[k].position < r.attempt.cursor
    &&& forall|j: int, k: int|
        0 <= j < k < r.got.len() ==> (#[trigger] r.got[j]).position < (#[trigger] r.got[k]).position
}

/// What holds in every world that can be reached.
pub open spec fn sound(w: World) -> bool {
    &&& w.n > 0
    &&& 0 <= w.size <= u32::MAX
    &&& w.s.slots.len() == w.n
    &&& w.s.position == w.log.len()
    &&& forall|i: int| 0 <= i < w.n ==> #[trigger] slot_ok(w, i)
    &&& forall|id: int| w.writers.contains_key(id) ==> #[trigger] writer_ok(w, id)
    &&& forall|a: int, b: int|
        w.writers.contains_key(a) && w.writers.contains_key(b) && a != b ==> #[trigger] apart(
            w,
            a,
            b,
        )
    &&& forall|id: int| w.readers.contains_key(id) ==> #[trigger] reader_ok(w, id)
}

/// An unused section is sound.
pub proof fn law_initial_world_is_sound(w: World)
    requires
        initial(w),
    ensures
        sound(w),
{
    assert forall|i: int| 0 <= i < w.n implies #[trigger] slot_ok(w, i) by {
        assert(blank(w.s.slots[i]));
    }
}

/// A writer that claims a position.
proof fn lemma_claim(w: World, id: int)
    requires
        sound(w),
        enabled(w, Step::Publish { id }),
        w.writers[id].phase is Claim,
    ensures
        sound(next(w, Step::Publish { id })),
{
    let v = next(w, Step::Publish { id });
    assert(writer_ok(w, id));
    assert forall|i: int| 0 <= i < v.n implies #[trigger] slot_ok(v, i) by {
        assert(slot_ok(w, i));
    }
    assert forall|j: int| v.writers.contains_key(j) implies #[trigger] writer_ok(v, j) by {
        assert(writer_ok(w, j));
    }
    assert forall|a: int, b: int|
        v.writers.contains_key(a) && v.writers.contains_key(b) && a != b implies #[trigger] apart(
        v,
        a,
        b,
    ) by {
        assert(apart(w, a, b));
    }
    assert forall|j: int| v.readers.contains_key(j) implies #[trigger] reader_ok(v, j) by {
        assert(reader_ok(w, j));
        let r = w.readers[j];
        assert forall|k: int| 0 <= k < r.got.len() implies delivery_ok(
            v.log,
            #[trigger] r.got[k],
        ) by {
            assert(delivery_ok(w.log, r.got[k]));
        }
    }
}

/// A writer's step that changes nothing that is shared.
proof fn lemma_writer_looks(w: World, id: int, phase: PublishPhase)
    requires
        sound(w),
        w.writers.contains_key(id),
        inside(phase) is None,
        writer_ok(
            World { writers: w.writers.insert(id, WriterState { phase, ..w.writers[id] }), ..w },
            id,
        ),
    ensures
        sound(World { writers: w.writers.insert(id, WriterState { phase, ..w.writers[id] }), ..w }),
{
    let v = World { writers: w.writers.insert(id, WriterState { phase, ..w.writers[id] }), ..w };
    assert forall|i: int| 0 <= i < v.n implies #[trigger] slot_ok(v, i) by {
        assert(slot_ok(w, i));
    }
    assert forall|j: int| v.writers.contains_key(j) implies #[trigger] writer_ok(v, j) by {
        if j != id {
            assert(writer_ok(w, j));
        }
    }
    assert forall|a: int, b: int|
        v.writers.contains_key(a) && v.writers.contains_key(b) && a != b implies #[trigger] apart(
        v,
        a,
        b,
    ) by {
        assert(apart(w, a, b));
    }
    assert forall|j: int| v.readers.contains_key(j) implies #[trigger] reader_ok(v, j) by {
        assert(reader_ok(w, j));
    }
}

/// A writer's access to its slot: entering it, or working inside it.
proof fn lemma_writer_works(w: World, id: int)
    requires
        sound(w),
        enabled(w, Step::Publish { id }),
        inside(w.writers[id].phase) is Some || (w.writers[id].phase matches PublishPhase::Enter {
            position,
            sequence,
        } && w.s.slots[protocol::slot_of(position, w.n) as int].sequence == sequence),
    ensures
        sound(next(w, Step::Publish { id })),
{
    let v = next(w, Step::Publish { id });
    let x = w.writers[id];
    let n = w.n as int;
    assert(writer_ok(w, id));
    let p = working_on(x.phase)->0;
    let i = protocol::slot_of(p, w.n) as int;
    assert(0 <= p as int % n < n);
    assert(slot_ok(w, i));
    let t = w.s.slots[i];
    let u = v.s.slots[i];
    assert(v.log == w.log);
    if x.phase is CopyPayload {
        assert(u.payload.take(x.entry.payload.len() as int) =~= x.entry.payload);
    }
    if x.phase is Leave {
        assert(u.event() == x.entry.payload);
        assert(complete(v, u, i));
    }
    assert(t.sequence <= u.sequence);
    assert(t.sequence % 2 == 0 ==> t.sequence < u.sequence);
    assert forall|k: int| 0 <= k < v.n implies #[trigger] slot_ok(v, k) by {
        assert(slot_ok(w, k));
        if k != i {
            assert(v.s.slots[k] == w.s.slots[k]);
        }
    }
    assert forall|j: int| v.writers.contains_key(j) implies #[trigger] writer_ok(v, j) by {
        assert(writer_ok(w, j));
        if j != id && inside(w.writers[j].phase) is Some {
            let (q, _) = inside(w.writers[j].phase)->0;
            let k = protocol::slot_of(q, w.n) as int;
            assert(apart(w, j, id));
            assert(0 <= q as int % n < n);
            if k == i {
                assert(t.sequence % 2 != 0);
                assert(inside(x.phase) is Some);
            }
            assert(v.s.slots[k] == w.s.slots[k]);
        }
    }
    assert forall|a: int, b: int|
        v.writers.contains_key(a) && v.writers.contains_key(b) && a != b implies #[trigger] apart(
        v,
        a,
        b,
    ) by {
        assert(apart(w, a, b));
        assert(writer_ok(w, a));
        assert(writer_ok(w, b));
    }
    assert forall|j: int| v.readers.contains_key(j) implies #[trigger] reader_ok(v, j) by {
        assert(reader_ok(w, j));
        let r = w.readers[j];
        assert(0 <= r.attempt.cursor as int % n < n);
        assert(v.readers[j] == disturbed(r, i as u32));
    }
}

/// A reader's access.
proof fn lemma_reader_looks(w: World, id: int, torn: SlotView)
    requires
        sound(w),
        enabled(w, Step::Poll { id, torn }),
    ensures
        reader_ok(next(w, Step::Poll { id, torn }), id),
{
    let v = next(w, Step::Poll { id, torn });
    let n = w.n as int;
    assert(reader_ok(w, id));
    let r = w.readers[id];
    let i = looking_at(r) as int;
    assert(0 <= r.attempt.cursor as int % n < n);
    assert(slot_ok(w, i));
    let t = w.s.slots[i];
    let x = v.readers[id];
    match r.attempt.phase {
        PollPhase::LoadAfter { before, position } => {
            let word = t.sequence;
            if r.attempt.accepts(word) {
                let d = x.got.last();
                assert(r.clean && r.seen == t);
                assert(delivery_ok(w.log, d));
                assert forall|k: int| 0 <= k < x.got.len() implies delivery_ok(
                    v.log,
                    #[trigger] x.got[k],
                ) && x.start <= x.got[k].position < x.attempt.cursor by {
                    if k < r.got.len() {
                        assert(x.got[k] == r.got[k]);
                    }
                }
                assert forall|j: int, k: int| 0 <= j < k < x.got.len() implies (
                #[trigger] x.got[j]).position < (#[trigger] x.got[k]).position by {
                    assert(x.got[j] == r.got[j]);
                    if k < r.got.len() {
                        assert(x.got[k] == r.got[k]);
                    }
                }
            }
        },
        _ => {
            assert(x.got == r.got);
        },
    }
}

/// Every step leads from a sound world to a sound world.
pub proof fn law_step_keeps_soundness(w: World, step: Step)
    requires
        sound(w),
        enabled(w, step),
    ensures
        sound(next(w, step)),
{
    let v = next(w, step);
    match step {
        Step::Publish { id } => {
            let x = w.writers[id];
            assert(writer_ok(w, id));
            match x.phase {
                PublishPhase::Claim => {
                    lemma_claim(w, id);
                },
                PublishPhase::LoadSequence { position, held, spins } => {
                    let t = w.s.slots[protocol::slot_of(position, w.n) as int];
                    lemma_writer_looks(w, id, x.phase.after(t.sequence));
                },
                PublishPhase::Enter { position, sequence } => {
                    let i = protocol::slot_of(position, w.n);
                    let t = w.s.slots[i as int];
                    if t.sequence == sequence {
                        lemma_writer_works(w, id);
                    } else {
                        lemma_writer_looks(w, id, x.phase.after(0));
                    }
                },
                _ => {
                    lemma_writer_works(w, id);
                },
            }
        },
        _ => {
            assert forall|i: int| 0 <= i < v.n implies #[trigger] slot_ok(v, i) by {
                assert(slot_ok(w, i));
            }
            assert forall|j: int| v.writers.contains_key(j) implies #[trigger] writer_ok(v, j) by {
                if w.writers.contains_key(j) {
                    assert(writer_ok(w, j));
                }
            }
            assert forall|a: int, b: int|
                v.writers.contains_key(a) && v.writers.contains_key(b) && a
                    != b implies #[trigger] apart(v, a, b) by {
                if w.writers.contains_key(a) && w.writers.contains_key(b) {
                    assert(apart(w, a, b));
                }
            }
            if let Step::Poll { id, torn } = step {
                lemma_reader_looks(w, id, torn);
            }
            assert forall|j: int| v.readers.contains_key(j) implies #[trigger] reader_ok(v, j) by {
                if w.readers.contains_key(j) {
                    assert(reader_ok(w, j));
                }
            }
        },
    }
}

/// A run: a world, the steps taken, and the world they lead to.
pub open spec fn runs_to(w: World, steps: Seq<Step>, v: World) -> bool
    decreases steps.len(),
{
    if steps.len() == 0 {
        v == w
    } else {
        enabled(w, steps[0]) && runs_to(next(w, steps[0]), steps.drop_first(), v)
    }
}

/// However the steps of writers and readers interleave, from an unused
/// section only sound worlds are reached.
pub proof fn law_every_run_is_sound(w: World, steps: Seq<Step>, v: World)
    requires
        sound(w),
        runs_to(w, steps, v),
    ensures
        sound(v),
    decreases steps.len(),
{
    if steps.len() > 0 {
        law_step_keeps_soundness(w, steps[0]);
        law_every_run_is_sound(next(w, steps[0]), steps.drop_first(), v);
    }
}

/// No torn reads: whatever writers did meanwhile, what a reader was given
/// for a position is the whole event that was published at it.
pub proof fn law_no_torn_reads(w: World, id: int, k: int)
    requires
        sound(w),
        w.readers.contains_key(id),
        0 <= k < w.readers[id].got.len(),
    ensures
        ({
            let d = w.readers[id].got[k];
            &&& d.position < w.log.len()
            &&& d.entry == w.log[d.position as int]
        }),
{
    assert(reader_ok(w, id));
    assert(delivery_ok(w.log, w.readers[id].got[k]));
}

/// A reader is given events in the order of their positions, each at most
/// once, and none from before it was made.
pub proof fn law_delivery_is_in_order(w: World, id: int, j: int, k: int)
    requires
        sound(w),
        w.readers.contains_key(id),
        0 <= j < k < w.readers[id].got.len(),
    ensures
        w.readers[id].start <= w.readers[id].got[j].position < w.readers[id].got[k].position,
{
    assert(reader_ok(w, id));
    assert(w.readers[id].got[j].position < w.readers[id].got[k].position);
}

/// Every position that a reader has passed was given to it or counted as
/// dropped.
pub proof fn law_nothing_goes_uncounted(w: World, id: int)
    requires
        sound(w),
        w.readers.contains_key(id),
    ensures
        w.readers[id].got.len() + w.readers[id].attempt.dropped == w.readers[id].attempt.cursor
            - w.readers[id].start,
{
    assert(reader_ok(w, id));
}

/// Readers do not affect writers or one another: a reader's step leaves the
/// section, the writers, the log and every other reader as they were.
pub proof fn law_readers_are_independent(w: World, id: int, torn: SlotView, other: int)
    requires
        w.readers.contains_key(other),
        other != id,
    ensures
        ({
            let v = next(w, Step::Poll { id, torn });
            &&& v.s == w.s
            &&& v.writers == w.writers
            &&& v.log == w.log
            &&& v.readers[other] == w.readers[other]
        }),
{
}

/// A slot is written to by one writer at a time.
pub proof fn law_slot_writing_is_exclusive(w: World, a: int, b: int)
    requires
        sound(w),
        w.writers.contains_key(a),
        w.writers.contains_key(b),
        a != b,
        slot_inside(w.writers[a].phase, w.n) is Some,
    ensures
        slot_inside(w.writers[a].phase, w.n) != slot_inside(w.writers[b].phase, w.n),
{
    assert(apart(w, a, b));
}

/// A slot changes only while a writer is inside it: its word is odd, or it
/// has moved on for good.
pub proof fn law_slots_change_under_an_odd_word(w: World, step: Step, i: int)
    requires
        sound(w),
        enabled(w, step),
        0 <= i < w.n,
        next(w, step).s.slots[i] != w.s.slots[i],
    ensures
        w.s.slots[i].sequence % 2 != 0 || next(w, step).s.slots[i].sequence % 2 != 0,
        w.s.slots[i].sequence <= next(w, step).s.slots[i].sequence,
{
    if let Step::Publish { id } = step {
        assert(writer_ok(w, id));
    }
}

} // verus!
