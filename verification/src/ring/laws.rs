//! What holds of a ring section whose operations run one after another.
use vstd::prelude::*;

use crate::ring::protocol;
use crate::ring::protocol::{PollAttempt, PollPhase};
use crate::ring::region::SectionView;
use crate::ring::ring;
use crate::ring::ring::EventView;

verus! {

/// Two positions less than `n` apart have different slots.
pub proof fn lemma_distinct_slots(p: int, r: int, n: int)
    requires
        n > 0,
        p != r,
        -n < p - r < n,
    ensures
        p % n != r % n,
{
    crate::channel::laws::lemma_distinct_slots(p, r, n);
}

/// An event with the time it was published at.
pub struct Entry {
    /// Event bytes.
    pub payload: Seq<u8>,
    /// Wall-clock nanoseconds at publish.
    pub timestamp: u64,
}

/// Every event ever published to the section is `log`, by position, and the
/// slots hold the newest of them.
pub open spec fn holds_log(s: SectionView, n: u32, size: int, log: Seq<Entry>) -> bool {
    &&& n > 0
    &&& s.slots.len() == n
    &&& s.position == log.len()
    &&& forall|i: int|
        0 <= i < n ==> (#[trigger] s.slots[i]).sequence % 2 == 0 && s.slots[i].payload.len() == size
    &&& s.position == 0 ==> forall|i: int|
        0 <= i < n ==> (#[trigger] s.slots[i]).sequence == 0
    &&& forall|p: int|
        protocol::oldest(s.position, n) <= p < s.position ==> {
            let t = #[trigger] ring::slot(s, p, n);
            &&& t.position == p
            &&& !protocol::never_published(t.sequence, t.position)
            &&& t.timestamp == log[p].timestamp
            &&& t.event() == log[p].payload
        }
}

/// A section that nobody has written to holds the empty log.
pub proof fn law_fresh_section(s: SectionView, n: u32, size: int)
    requires
        n > 0,
        s.slots.len() == n,
        s.position == 0,
        forall|i: int|
            0 <= i < n ==> (#[trigger] s.slots[i]).sequence == 0 && s.slots[i].payload.len()
                == size,
    ensures
        holds_log(s, n, size, Seq::empty()),
{
}

/// An uncontended publish succeeds, whatever readers do, and adds its event
/// to the end of the log.
pub proof fn law_publish_appends(
    s: SectionView,
    n: u32,
    size: int,
    log: Seq<Entry>,
    e: Entry,
)
    requires
        holds_log(s, n, size, log),
        e.payload.len() <= size <= u32::MAX,
        s.position < u64::MAX,
    ensures
        !ring::next_slot_is_held(s, n),
        holds_log(
            ring::after_publish(s, n, e.payload, e.timestamp),
            n,
            size,
            log.push(e),
        ),
{
    let m = n as int;
    let at = s.position as int;
    let after = ring::after_publish(s, n, e.payload, e.timestamp);
    let i = at % m;
    assert(protocol::slot_of(s.position, n) == i);
    let t = s.slots[i];
    let u = after.slots[i];
    assert(t.sequence % 2 == 0);
    assert(u.sequence % 2 == 0);
    assert(u.event() =~= e.payload);
    assert forall|p: int| protocol::oldest(after.position, n) <= p < after.position implies ({
        let t = #[trigger] ring::slot(after, p, n);
        &&& t.position == p
        &&& !protocol::never_published(t.sequence, t.position)
        &&& t.timestamp == log.push(e)[p].timestamp
        &&& t.event() == log.push(e)[p].payload
    }) by {
        if p < at {
            lemma_distinct_slots(p, at, m);
            assert(ring::slot(after, p, n) == ring::slot(s, p, n));
        }
    }
}

/// The entries of a log between two positions, as a reader sees them.
pub open spec fn entries(log: Seq<Entry>, section_id: u32, from: int, to: int) -> Seq<EventView> {
    Seq::new(
        (to - from) as nat,
        |k: int|
            EventView {
                section_id,
                position: (from + k) as u64,
                timestamp_nanos: log[from + k].timestamp,
                payload: log[from + k].payload,
            },
    )
}

proof fn lemma_events_are_entries(
    s: SectionView,
    n: u32,
    size: int,
    log: Seq<Entry>,
    section_id: u32,
    from: int,
    to: int,
)
    requires
        holds_log(s, n, size, log),
        protocol::oldest(s.position, n) <= from <= to <= s.position,
    ensures
        ring::events_between(s, n, section_id, from, to) == entries(log, section_id, from, to),
        ring::held_between(s, n, from, to) == 0,
    decreases to - from,
{
    if from < to {
        lemma_events_are_entries(s, n, size, log, section_id, from, to - 1);
        let t = ring::slot(s, to - 1, n);
        assert(t.position == to - 1);
        assert(0 <= (to - 1) % (n as int) < n);
        assert(t.sequence % 2 == 0);
        assert(ring::events_between(s, n, section_id, from, to) =~= entries(
            log,
            section_id,
            from,
            to,
        ));
    } else {
        assert(ring::events_between(s, n, section_id, from, to) =~= entries(
            log,
            section_id,
            from,
            to,
        ));
    }
}

/// A reader gets back what was published since its cursor, each event once,
/// whole and in order; if that is more than the slots hold, it gets the
/// newest of them and the count of the others.
pub proof fn law_poll_gives_back_what_was_published(
    s: SectionView,
    n: u32,
    size: int,
    log: Seq<Entry>,
    section_id: u32,
    cursor: u64,
)
    requires
        holds_log(s, n, size, log),
        cursor <= s.position,
    ensures
        ({
            let from = ring::poll_start(cursor, s.position, n);
            let to = s.position;
            &&& ring::pollable(s, n, from as int, to as int)
            &&& ring::events_between(s, n, section_id, from as int, to as int) == entries(
                log,
                section_id,
                from as int,
                to as int,
            )
            &&& ring::held_between(s, n, from as int, to as int) == 0
            &&& log.len() - cursor <= n ==> from == cursor
            &&& log.len() - cursor > n ==> from == log.len() - n
        }),
{
    let from = ring::poll_start(cursor, s.position, n);
    assert forall|p: int| from <= p < s.position implies ring::settled(
        #[trigger] ring::slot(s, p, n),
        p,
    ) by {}
    lemma_events_are_entries(s, n, size, log, section_id, from as int, s.position as int);
}

/// What a caught-up reader polls after one publish is that event.
pub proof fn law_publish_then_poll(
    s: SectionView,
    n: u32,
    size: int,
    log: Seq<Entry>,
    section_id: u32,
    e: Entry,
)
    requires
        holds_log(s, n, size, log),
        e.payload.len() <= size <= u32::MAX,
        s.position < u64::MAX,
    ensures
        ({
            let after = ring::after_publish(s, n, e.payload, e.timestamp);
            ring::events_between(
                after,
                n,
                section_id,
                ring::poll_start(s.position, after.position, n) as int,
                after.position as int,
            ) == seq![
                EventView {
                    section_id,
                    position: s.position,
                    timestamp_nanos: e.timestamp,
                    payload: e.payload,
                },
            ]
        }),
{
    law_publish_appends(s, n, size, log, e);
    let after = ring::after_publish(s, n, e.payload, e.timestamp);
    law_poll_gives_back_what_was_published(after, n, size, log.push(e), section_id, s.position);
    assert(entries(log.push(e), section_id, s.position as int, s.position + 1) =~= seq![
        EventView {
            section_id,
            position: s.position,
            timestamp_nanos: e.timestamp,
            payload: e.payload,
        },
    ]);
}

/// A writer that died inside a slot costs that slot alone: publishing to it
/// is refused and leaves every slot as it was, and readers pass over it.
pub proof fn law_dead_writer_costs_one_slot(s: SectionView, n: u32)
    requires
        n > 0,
        s.slots.len() == n,
        s.position < u64::MAX,
        ring::next_slot_is_held(s, n),
        ring::pollable(
            s,
            n,
            protocol::oldest(s.position, n) as int,
            s.position as int,
        ),
    ensures
        ({
            let after = SectionView { position: protocol::next_count(s.position), ..s };
            &&& ring::pollable(
                after,
                n,
                protocol::oldest(after.position, n) as int,
                after.position as int,
            )
            &&& ring::slot(after, s.position as int, n).sequence % 2 != 0
        }),
{
    let after = SectionView { position: protocol::next_count(s.position), ..s };
    assert forall|p: int|
        protocol::oldest(after.position, n) <= p < after.position implies ring::settled(
        #[trigger] ring::slot(after, p, n),
        p,
    ) by {
        if p < s.position {
            assert(ring::slot(after, p, n) == ring::slot(s, p, n));
        } else {
            assert(protocol::slot_of(s.position, n) == p % (n as int));
        }
    }
}

/// A reader after its next access to a section.
pub open spec fn poll_step(s: SectionView, a: PollAttempt) -> PollAttempt {
    a.after(protocol::performed(s, a.next_action(), Seq::empty(), 0).1)
}

/// A reader after `k` accesses to a section that nobody else is using.
pub open spec fn poll_run(s: SectionView, a: PollAttempt, k: nat) -> PollAttempt
    decreases k,
{
    if k == 0 {
        a
    } else {
        poll_run(s, poll_step(s, a), (k - 1) as nat)
    }
}

/// A reader at its cursor that begins to drain a section.
pub open spec fn poll_begun(n: u32, cursor: u64, dropped: u64) -> PollAttempt {
    PollAttempt { slot_count: n, cursor, dropped, latest: 0, phase: PollPhase::LoadLatest }
}

/// What a reader has seen of a section that nobody else is using.
spec fn poll_ok(s: SectionView, n: u32, a: PollAttempt) -> bool {
    let t = ring::slot(s, a.cursor as int, n);
    &&& a.ok()
    &&& a.slot_count == n
    &&& !(a.phase is LoadLatest) ==> a.latest == s.position && a.cursor >= protocol::oldest(
        s.position,
        n,
    )
    &&& a.phase is Done ==> a.cursor >= s.position
    &&& a.phase matches PollPhase::LoadBefore { spins } ==> spins
        <= protocol::ODD_SEQUENCE_SPIN_BUDGET
    &&& a.phase matches PollPhase::Copy { before } ==> before == t.sequence && before % 2 == 0
    &&& a.phase matches PollPhase::LoadAfter { before, position } ==> before == t.sequence
        && before % 2 == 0 && position == t.position
}

/// How many accesses it takes to the end where every position is settled.
proof fn lemma_poll_ends(s: SectionView, n: u32, a: PollAttempt) -> (k: nat)
    requires
        n > 0,
        s.slots.len() == n,
        poll_ok(s, n, a),
        ring::pollable(
            s,
            n,
            ring::poll_start(a.cursor, s.position, n) as int,
            s.position as int,
        ),
    ensures
        poll_run(s, a, k).phase is Done,
    decreases
            (if a.cursor < s.position {
                s.position - a.cursor
            } else {
                0
            }),
            ring::poll_rank(a.phase),
{
    if a.phase is Done {
        0
    } else {
        let b = poll_step(s, a);
        assert(ring::settled(ring::slot(s, a.cursor as int, n), a.cursor as int)
            || a.phase is LoadLatest);
        let k = lemma_poll_ends(s, n, b);
        k + 1
    }
}

/// A reader does not get past a position that is not settled.
proof fn lemma_poll_waits(s: SectionView, n: u32, a: PollAttempt, p: int, k: nat)
    requires
        n > 0,
        s.slots.len() == n,
        poll_ok(s, n, a),
        protocol::oldest(s.position, n) <= p < s.position,
        a.cursor <= p,
        !ring::settled(ring::slot(s, p, n), p),
    ensures
        !(poll_run(s, a, k).phase is Done),
        poll_run(s, a, k).cursor <= p,
    decreases k,
{
    if k > 0 {
        lemma_poll_waits(s, n, poll_step(s, a), p, (k - 1) as nat);
    }
}

/// A poll of a section at rest ends exactly where every position that it
/// looks at is settled. At one that is claimed and has no event yet it goes
/// round, and does not move past it.
pub proof fn law_a_poll_ends_where_all_is_settled(
    s: SectionView,
    n: u32,
    cursor: u64,
    dropped: u64,
)
    requires
        n > 0,
        s.slots.len() == n,
    ensures
        ({
            let from = ring::poll_start(cursor, s.position, n) as int;
            let to = s.position as int;
            let a = poll_begun(n, cursor, dropped);
            &&& ring::pollable(s, n, from, to) <==> exists|k: nat|
                (#[trigger] poll_run(s, a, k)).phase is Done
            &&& forall|p: int, k: nat|
                #![trigger ring::slot(s, p, n), poll_run(s, a, k)]
                from <= p < to && !ring::settled(ring::slot(s, p, n), p) ==> poll_run(
                    s,
                    a,
                    k,
                ).cursor <= p
        }),
{
    let from = ring::poll_start(cursor, s.position, n) as int;
    let to = s.position as int;
    let a = poll_begun(n, cursor, dropped);
    assert forall|p: int, k: nat|
        #![trigger ring::slot(s, p, n), poll_run(s, a, k)]
        from <= p < to && !ring::settled(ring::slot(s, p, n), p) implies poll_run(s, a, k).cursor
        <= p && !(poll_run(s, a, k).phase is Done) by {
        lemma_poll_waits(s, n, a, p, k);
    }
    if ring::pollable(s, n, from, to) {
        let k = lemma_poll_ends(s, n, a);
        assert(poll_run(s, a, k).phase is Done);
    } else {
        let p = choose|p: int|
            from <= p < to && !ring::settled(#[trigger] ring::slot(s, p, n), p);
        assert(!ring::settled(ring::slot(s, p, n), p));
    }
}

/// A position without an event holds a reader up only until it is lapped:
/// once as many more were claimed as there are slots, the reader's next look
/// at the writers takes it past the position, which is counted as dropped
/// with all the others that it skips.
pub proof fn law_a_lapped_position_is_passed(a: PollAttempt, p: u64, latest: u64)
    requires
        a.ok(),
        a.phase is LoadLatest,
        a.cursor <= p,
        p + a.slot_count < latest,
    ensures
        a.after(latest).cursor == latest - a.slot_count,
        a.after(latest).cursor > p,
        a.after(latest).dropped == protocol::count_up(
            a.dropped,
            latest - a.slot_count - a.cursor,
        ),
{
}

} // verus!
