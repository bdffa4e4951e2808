//! What a publish leaves in its section, what a poll delivers and counts,
//! and which section lists and segments are taken.
use vstd::prelude::*;

use crate::bytes;
use crate::ring::header;
use crate::ring::header::{GlobalHeaderView, SectionHeaderView, SlotHeaderView};
use crate::ring::protocol;
use crate::ring::protocol::{PollAttempt, PollPhase, PublishPhase};
use crate::ring::region;
use crate::ring::region::{RegionView, SectionView, SlotView};
use crate::ring::ring;
use crate::ring::ring::{Event, EventView, ReaderView, RingConfig};
use crate::ring::sections;
use crate::ring::sections::SectionConfig;
use crate::ring::TesseraRingError;

verus! {

/// An event that was published lies in the slot of its position, under that
/// position, with its length and time, and the slot's word is even again and
/// further on. The next event gets the next position. No other slot changes.
pub proof fn law_what_a_publish_leaves(
    s: SectionView,
    n: u32,
    size: int,
    payload: Seq<u8>,
    timestamp: u64,
)
    requires
        n > 0,
        s.slots.len() == n,
        forall|i: int| 0 <= i < n ==> (#[trigger] s.slots[i]).payload.len() == size,
        payload.len() <= size <= u32::MAX,
        s.slots[s.position as int % n as int].sequence % 2 == 0,
    ensures
        ({
            let after = ring::after_publish(s, n, payload, timestamp);
            let i = s.position as int % n as int;
            let before = s.slots[i];
            let t = after.slots[i];
            &&& s.position < u64::MAX ==> after.position == s.position + 1
            &&& s.position == u64::MAX ==> after.position == 0
            &&& t.position == s.position
            &&& t.length == payload.len()
            &&& t.timestamp == timestamp
            &&& t.payload.len() == size
            &&& t.payload.subrange(0, payload.len() as int) == payload
            &&& t.sequence % 2 == 0
            &&& before.sequence < u64::MAX - 1 ==> t.sequence == before.sequence + 2
            &&& after.slots.len() == n
            &&& forall|j: int| 0 <= j < n && j != i ==> #[trigger] after.slots[j] == s.slots[j]
        }),
{
    let i = s.position as int % n as int;
    vstd::arithmetic::div_mod::lemma_mod_bound(s.position as int, n as int);
    assert(s.slots[i].payload.len() == size);
    bytes::lemma_overwrite(s.slots[i].payload, 0, payload);
    let after = ring::after_publish(s, n, payload, timestamp);
    assert(after.slots[i].payload.subrange(0, payload.len() as int) =~= payload);
}

/// A publish is refused for the slot of its position exactly if that slot's
/// word is odd: a writer is inside.
pub proof fn law_when_a_publish_is_refused(s: SectionView, n: u32)
    requires
        n > 0,
    ensures
        ring::next_slot_is_held(s, n) <==> s.slots[s.position as int % n as int].sequence % 2 == 1,
{
    vstd::arithmetic::div_mod::lemma_mod_bound(s.position as int, n as int);
}

/// A poll starts at the reader's cursor, or, if more was published since
/// than there are slots, at the oldest position that the slots can hold.
pub proof fn law_where_a_poll_starts(cursor: u64, latest: u64, n: u32)
    ensures
        latest - cursor <= n ==> ring::poll_start(cursor, latest, n) == cursor,
        latest - cursor > n ==> ring::poll_start(cursor, latest, n) == latest - n,
{
}

/// A poll can be made where each position that it looks at has its event in
/// its slot, or a writer is inside the slot. A slot without a word and at
/// position zero has no event.
pub proof fn law_where_a_poll_can_be_made(s: SectionView, n: u32, from: int, to: int)
    requires
        n > 0,
    ensures
        ring::pollable(s, n, from, to) <==> forall|p: int|
            from <= p < to ==> {
                let t = #[trigger] ring::slot(s, p, n);
                t.sequence % 2 == 1 || (t.position == p && (t.sequence != 0 || t.position != 0))
            },
        forall|p: int| #[trigger] ring::slot(s, p, n) == s.slots[p % n as int],
{
    if ring::pollable(s, n, from, to) {
        assert forall|p: int| from <= p < to implies ({
            let t = #[trigger] ring::slot(s, p, n);
            t.sequence % 2 == 1 || (t.position == p && (t.sequence != 0 || t.position != 0))
        }) by {
            assert(ring::settled(ring::slot(s, p, n), p));
        }
    }
}

/// The event is the one in the slot: its time, and as many of the slot's
/// bytes as its length says, or all where it says more.
pub open spec fn is_event_of(e: EventView, section_id: u32, p: int, t: SlotView) -> bool {
    &&& e.section_id == section_id
    &&& e.position == p
    &&& e.timestamp_nanos == t.timestamp
    &&& t.length <= t.payload.len() ==> e.payload == t.payload.subrange(0, t.length as int)
    &&& t.length > t.payload.len() ==> e.payload == t.payload
}

/// The event was taken from a slot without a writer at a position in range.
pub open spec fn comes_from(
    s: SectionView,
    n: u32,
    section_id: u32,
    from: int,
    to: int,
    e: EventView,
) -> bool {
    &&& from <= e.position < to
    &&& s.slots[e.position as int % n as int].sequence % 2 == 0
    &&& is_event_of(e, section_id, e.position as int, s.slots[e.position as int % n as int])
}

/// A poll delivers the event of every position that it looks at, but for
/// those whose slot a writer is inside: each once, in the order of
/// publishing, as it is in its slot. What it does not deliver it counts.
pub proof fn law_what_a_poll_delivers(
    s: SectionView,
    n: u32,
    section_id: u32,
    from: int,
    to: int,
)
    requires
        n > 0,
        0 <= from <= to,
        ring::pollable(s, n, from, to),
    ensures
        ({
            let events = ring::events_between(s, n, section_id, from, to);
            &&& events.len() + ring::held_between(s, n, from, to) == to - from
            &&& forall|k: int|
                0 <= k < events.len() ==> comes_from(s, n, section_id, from, to, #[trigger] events[k])
            &&& forall|j: int, k: int|
                0 <= j < k < events.len() ==> (#[trigger] events[j]).position < (
                #[trigger] events[k]).position
            &&& forall|p: int|
                from <= p < to && (#[trigger] ring::slot(s, p, n)).sequence % 2 == 0
                    ==> exists|k: int|
                    0 <= k < events.len() && (#[trigger] events[k]).position == p
        }),
    decreases to - from,
{
    if from < to {
        law_what_a_poll_delivers(s, n, section_id, from, to - 1);
        let before = ring::events_between(s, n, section_id, from, to - 1);
        let events = ring::events_between(s, n, section_id, from, to);
        let t = ring::slot(s, to - 1, n);
        assert(ring::settled(t, to - 1));
        assert forall|k: int| 0 <= k < events.len() implies comes_from(
            s,
            n,
            section_id,
            from,
            to,
            #[trigger] events[k],
        ) by {
            if k < before.len() {
                assert(comes_from(s, n, section_id, from, to - 1, before[k]));
            } else {
                assert(t.length <= t.payload.len() ==> t.payload.take(t.length as int)
                    =~= t.payload.subrange(0, t.length as int));
            }
        }
        assert forall|j: int, k: int| 0 <= j < k < events.len() implies (
        #[trigger] events[j]).position < (#[trigger] events[k]).position by {
            assert(comes_from(s, n, section_id, from, to - 1, before[j]));
            if k < before.len() {
                assert(before[j].position < before[k].position);
            }
        }
        assert forall|p: int|
            from <= p < to && (#[trigger] ring::slot(s, p, n)).sequence % 2
                == 0 implies exists|k: int|
            0 <= k < events.len() && (#[trigger] events[k]).position == p by {
            if p < to - 1 {
                let k = choose|k: int|
                    0 <= k < before.len() && (#[trigger] before[k]).position == p;
                assert(events[k].position == p);
            } else {
                assert(events[before.len() as int].position == p);
            }
        }
    }
}

/// What a poll moves the cursor on by is what it delivers and what it counts
/// as dropped, as long as the count is not at its limit. Afterwards the
/// cursor is at the writers' position, unless it was beyond it.
pub proof fn law_a_poll_accounts_for_every_position(
    s: SectionView,
    n: u32,
    section_id: u32,
    cursor: u64,
    dropped: u64,
)
    requires
        n > 0,
        cursor <= s.position,
        dropped + (s.position - cursor) <= u64::MAX,
        ring::pollable(
            s,
            n,
            ring::poll_start(cursor, s.position, n) as int,
            s.position as int,
        ),
    ensures
        ({
            let from = ring::poll_start(cursor, s.position, n) as int;
            let to = s.position as int;
            let counted = protocol::count_up(
                dropped,
                (from - cursor) + ring::held_between(s, n, from, to),
            );
            ring::events_between(s, n, section_id, from, to).len() + (counted - dropped)
                == s.position - cursor
        }),
{
    let from = ring::poll_start(cursor, s.position, n) as int;
    law_where_a_poll_starts(cursor, s.position, n);
    law_what_a_poll_delivers(s, n, section_id, from, s.position as int);
}

/// A count of dropped positions goes up by what was dropped, and stays at
/// the largest number there is rather than start over.
pub proof fn law_a_count_never_starts_over(count: u64, d: int)
    requires
        d >= 0,
    ensures
        count + d <= u64::MAX ==> protocol::count_up(count, d) == count + d,
        count + d > u64::MAX ==> protocol::count_up(count, d) == u64::MAX,
{
}

/// Where a writer is that looked `k` times at a slot and saw the same word.
pub open spec fn looked(phase: PublishPhase, word: u64, k: nat) -> PublishPhase
    decreases k,
{
    if k == 0 {
        phase
    } else {
        looked(phase, word, (k - 1) as nat).after(word)
    }
}

/// A writer that finds another one inside its slot looks again as long as
/// the slot's word moves, and gives up when it has seen the same odd word
/// once more than the budget of 128 looks, not before. It goes in as soon as
/// the word is even.
pub proof fn law_a_writer_waits_within_its_budget(
    position: u64,
    held: u64,
    spins: u32,
    word: u64,
    k: nat,
)
    requires
        held % 2 == 1,
    ensures
        ({
            let p = PublishPhase::LoadSequence { position, held, spins };
            &&& word % 2 == 0 ==> p.after(word) == (PublishPhase::Enter {
                position,
                sequence: word,
            })
            &&& word % 2 == 1 && word != held ==> p.after(word) == (PublishPhase::LoadSequence {
                position,
                held: word,
                spins: 1,
            })
        }),
        ({
            let first = PublishPhase::LoadSequence { position, held: 0, spins: 0 };
            &&& looked(first, held, k) is Stuck <==> k > 128
            &&& 0 < k <= 128 ==> looked(first, held, k) == (PublishPhase::LoadSequence {
                position,
                held,
                spins: k as u32,
            })
            &&& k > 128 ==> looked(first, held, k) == (PublishPhase::Stuck {
                position,
                sequence: held,
            })
        }),
    decreases k,
{
    if k > 0 {
        law_a_writer_waits_within_its_budget(position, held, spins, word, (k - 1) as nat);
    }
}

/// A writer that got in writes its fields and its event and leaves, in this
/// order and all in the slot of its position; one that did not get in looks
/// at the slot again.
pub proof fn law_a_writer_keeps_to_its_position(position: u64, sequence: u64, word: u64, n: u32)
    requires
        n > 0,
    ensures
        PublishPhase::Claim.after(word) == (PublishPhase::LoadSequence {
            position: word,
            held: 0,
            spins: 0,
        }),
        ({
            let p = PublishPhase::Enter { position, sequence };
            &&& word == 0 ==> p.after(word) == (PublishPhase::LoadSequence {
                position,
                held: 0,
                spins: 0,
            })
            &&& word != 0 ==> p.after(word) == (PublishPhase::WriteFields { position, sequence })
        }),
        (PublishPhase::WriteFields { position, sequence }).after(word) == (
        PublishPhase::CopyPayload { position, sequence }),
        (PublishPhase::CopyPayload { position, sequence }).after(word) == (PublishPhase::Leave {
            position,
            sequence,
        }),
        (PublishPhase::Leave { position, sequence }).after(word) is Published,
        protocol::slot_of(position, n) == position as int % n as int,
{
    vstd::arithmetic::div_mod::lemma_mod_bound(position as int, n as int);
}

/// Where a reader is that looked `k` times at a slot and saw the same word.
pub open spec fn watched(a: PollAttempt, word: u64, k: nat) -> PollAttempt
    decreases k,
{
    if k == 0 {
        a
    } else {
        watched(a, word, (k - 1) as nat).after(word)
    }
}

/// A reader waits for a writer inside a slot for 128 looks, delivering and
/// counting nothing; with one look more it passes over the position, counts
/// it as dropped and asks where the writers are. A slot without a writer it
/// copies at once.
pub proof fn law_a_reader_waits_within_its_budget(a: PollAttempt, word: u64, k: nat)
    requires
        a.ok(),
        a.phase == (PollPhase::LoadBefore { spins: 0 }),
        k <= 129,
    ensures
        word % 2 == 0 ==> a.after(word) == (PollAttempt {
            phase: PollPhase::Copy { before: word },
            ..a
        }),
        word % 2 == 1 && k <= 128 ==> watched(a, word, k) == (PollAttempt {
            phase: PollPhase::LoadBefore { spins: k as u32 },
            ..a
        }),
        word % 2 == 1 && k == 129 ==> {
            let b = watched(a, word, k);
            &&& b.cursor == a.cursor + 1
            &&& a.dropped < u64::MAX ==> b.dropped == a.dropped + 1
            &&& a.dropped == u64::MAX ==> b.dropped == u64::MAX
            &&& b.phase is LoadLatest
        },
    decreases k,
{
    if k > 0 {
        law_a_reader_waits_within_its_budget(a, word, (k - 1) as nat);
    }
}

/// A copy is delivered exactly if the slot's word did not change while it
/// was made, and the slot tells of the position looked for and has had an
/// event. Delivered, it moves the cursor on by one; otherwise the cursor and
/// the count stay, and the reader asks again where the writers are.
pub proof fn law_which_copies_are_delivered(a: PollAttempt, before: u64, position: u64, word: u64)
    requires
        a.ok(),
        a.phase == (PollPhase::LoadAfter { before, position }),
    ensures
        a.accepts(word) <==> word == before && position == a.cursor && (before != 0 || position
            != 0),
        a.accepts(word) ==> a.after(word).cursor == a.cursor + 1,
        !a.accepts(word) ==> a.after(word).cursor == a.cursor && a.after(word).phase is LoadLatest,
        a.after(word).dropped == a.dropped,
        a.after(word).latest == a.latest,
{
}

/// A reader that learns where the writers are skips what can no longer be in
/// the slots, counts it, and looks at the next position if there is one.
pub proof fn law_a_reader_catches_up(a: PollAttempt, latest: u64)
    requires
        a.ok(),
        a.phase is LoadLatest,
    ensures
        ({
            let b = a.after(latest);
            &&& b.latest == latest
            &&& latest - a.cursor <= a.slot_count ==> b.cursor == a.cursor && b.dropped == a.dropped
            &&& latest - a.cursor > a.slot_count ==> {
                &&& b.cursor == latest - a.slot_count
                &&& a.dropped + (b.cursor - a.cursor) <= u64::MAX ==> b.dropped == a.dropped + (
                b.cursor - a.cursor)
                &&& a.dropped + (b.cursor - a.cursor) > u64::MAX ==> b.dropped == u64::MAX
            }
            &&& b.cursor < latest <==> b.phase == (PollPhase::LoadBefore { spins: 0 })
            &&& b.cursor >= latest <==> b.phase is Done
        }),
{
}

/// The section is one that a ring can have: it has slots, of a size that is
/// a multiple of eight.
pub open spec fn has_shape(c: SectionConfig) -> bool {
    c.slot_count > 0 && c.slot_size_bytes > 0 && c.slot_size_bytes % 8 == 0
}

proof fn lemma_refusal_from(list: Seq<SectionConfig>, i: int)
    requires
        0 <= i <= list.len(),
        forall|j: int| i <= j < list.len() ==> has_shape(#[trigger] list[j]),
        forall|j: int, k: int|
            0 <= j < k < list.len() ==> (#[trigger] list[j]).section_id != (
            #[trigger] list[k]).section_id,
    ensures
        sections::refusal_from(list, i) is None,
    decreases list.len() - i,
{
    if i < list.len() {
        assert(has_shape(list[i]));
        lemma_refusal_from(list, i + 1);
    }
}

/// A section list is taken exactly if it is not empty, every section has
/// slots of a size that is a multiple of eight, and no identifier comes
/// twice. It can be created exactly if its segment can also be mapped.
pub proof fn law_which_section_lists_are_taken(list: Seq<SectionConfig>)
    ensures
        sections::list_refusal(list) is None <==> {
            &&& list.len() > 0
            &&& forall|i: int| 0 <= i < list.len() ==> has_shape(#[trigger] list[i])
            &&& forall|i: int, j: int|
                0 <= i < j < list.len() ==> (#[trigger] list[i]).section_id != (
                #[trigger] list[j]).section_id
        },
        region::create_refusal(list) is None <==> sections::list_refusal(list) is None
            && list.len() <= u32::MAX && header::segment_len(
            sections::pairs(sections::canonical(list)),
        ) <= usize::MAX,
{
    if sections::list_refusal(list) is None {
        sections::law_accepted_list(list);
    } else if list.len() > 0 && (forall|i: int| 0 <= i < list.len() ==> has_shape(#[trigger] list[i]))
        && (forall|i: int, j: int|
        0 <= i < j < list.len() ==> (#[trigger] list[i]).section_id != (
        #[trigger] list[j]).section_id) {
        lemma_refusal_from(list, 0);
    }
}

/// The sections lie in the segment in the order of their identifiers: the
/// same sections as in the list, none more and none fewer.
pub proof fn law_sections_lie_by_identifier(list: Seq<SectionConfig>)
    ensures
        ({
            let c = sections::canonical(list);
            &&& c.to_multiset() == list.to_multiset()
            &&& c.len() == list.len()
            &&& forall|i: int, j: int|
                0 <= i < j < c.len() ==> (#[trigger] c[i]).section_id <= (
                #[trigger] c[j]).section_id
        }),
{
    let c = sections::canonical(list);
    let order = sections::section_order();
    assert(vstd::relations::total_ordering(order));
    list.lemma_sort_by_ensures(order);
    sections::lemma_canonical_len(list);
    assert forall|i: int, j: int| 0 <= i < j < c.len() implies (#[trigger] c[i]).section_id <= (
    #[trigger] c[j]).section_id by {
        assert(order(c[i], c[j]));
    }
}

/// An attacher takes a segment exactly if it is one of a ring in this
/// format, under the description that it expects, with as many sections,
/// each with the identifier and the geometry that it expects.
pub proof fn law_which_segments_are_taken(
    h: GlobalHeaderView,
    digest: Seq<u8>,
    mem: Seq<u8>,
    list: Seq<SectionConfig>,
)
    ensures
        region::accepts(h, digest, list.len()) <==> h.magic == header::MAGIC && h.format_version
            == header::FORMAT_VERSION && h.section_count == list.len() && h.handle_blake3 == digest,
        region::sections_match(mem, list) <==> forall|k: int|
            0 <= k < list.len() ==> {
                let s = #[trigger] region::section_header(mem, k);
                s.section_id == list[k].section_id && s.slot_count == list[k].slot_count
                    && s.slot_size_bytes == list[k].slot_size_bytes
            },
{
    if region::sections_match(mem, list) {
        assert forall|k: int| 0 <= k < list.len() implies ({
            let s = #[trigger] region::section_header(mem, k);
            s.section_id == list[k].section_id && s.slot_count == list[k].slot_count
                && s.slot_size_bytes == list[k].slot_size_bytes
        }) by {
            assert(region::section_matches(mem, list, k));
        }
    }
}

/// A new ring's headers tell of its description and its sections, and of no
/// event.
pub proof fn law_a_new_ring_is_empty(digest: Seq<u8>, epoch: u64, count: u32, c: SectionConfig)
    ensures
        ({
            let h = region::fresh_header(digest, epoch, count);
            &&& h.magic == header::MAGIC && h.format_version == header::FORMAT_VERSION
            &&& h.epoch_micros == epoch
            &&& h.section_count == count
            &&& h.handle_blake3 == digest
        }),
        ({
            let s = region::fresh_section_header(c);
            &&& s.section_id == c.section_id
            &&& s.slot_count == c.slot_count && s.slot_size_bytes == c.slot_size_bytes
            &&& s.writer_position == 0
        }),
{
}

/// A section is known exactly if it is in the list, and its ordinal is its
/// place there.
pub proof fn law_where_a_section_is(list: Seq<SectionConfig>, section_id: u32, k: int)
    requires
        0 <= k < list.len(),
        list[k].section_id == section_id,
        forall|i: int, j: int|
            0 <= i < j < list.len() ==> (#[trigger] list[i]).section_id < (
            #[trigger] list[j]).section_id,
    ensures
        ring::knows(list, section_id),
        ring::ordinal_of(list, section_id) == k,
{
    assert(ring::knows(list, section_id));
    let j = ring::ordinal_of(list, section_id);
    if j < k {
        assert(list[j].section_id < list[k].section_id);
    } else if k < j {
        assert(list[k].section_id < list[j].section_id);
    }
}

/// Where the fields of a segment's headers and of a slot lie.
pub proof fn law_where_the_fields_lie(
    h: GlobalHeaderView,
    c: SectionHeaderView,
    s: SlotHeaderView,
    k: int,
)
    requires
        h.handle_blake3.len() == 32,
        h.reserved.len() == 64,
        c.reserved.len() == 40,
        s.reserved.len() == 32,
    ensures
        h.bytes().len() == 128,
        bytes::u64_at(h.bytes(), 0) == h.magic,
        bytes::u32_at(h.bytes(), 8) == h.format_version,
        bytes::u64_at(h.bytes(), 16) == h.epoch_micros,
        bytes::u32_at(h.bytes(), 24) == h.section_count,
        h.bytes().subrange(32, 64) == h.handle_blake3,
        c.bytes().len() == 64,
        bytes::u32_at(c.bytes(), 0) == c.section_id,
        bytes::u32_at(c.bytes(), 4) == c.slot_count,
        bytes::u32_at(c.bytes(), 8) == c.slot_size_bytes,
        bytes::u64_at(c.bytes(), 16) == c.writer_position,
        s.bytes().len() == 64,
        bytes::u64_at(s.bytes(), 0) == s.sequence,
        bytes::u64_at(s.bytes(), 8) == s.position,
        bytes::u32_at(s.bytes(), 16) == s.length,
        bytes::u64_at(s.bytes(), 24) == s.timestamp_nanos,
        header::section_header_start(k) == 128 + 64 * k,
{
    header::law_global_header_round_trip(h);
    header::law_section_header_round_trip(c);
    header::law_slot_header_round_trip(s);
    assert(GlobalHeaderView::of(h.bytes()).handle_blake3 == h.handle_blake3);
}

/// What a section holds is what its bytes say: the writers' position in its
/// header, and each slot's fields and event where the slot lies, behind the
/// slots before it, the sections before it and the headers.
pub proof fn law_where_a_slot_lies(mem: Seq<u8>, ps: Seq<(u32, u32)>, k: nat, i: int)
    requires
        k < ps.len(),
        0 <= i < ps[k as int].0,
    ensures
        header::data_start(ps, 0) == 128 + 64 * ps.len(),
        header::data_start(ps, k + 1) == header::data_start(ps, k) + ps[k as int].0 * (64
            + ps[k as int].1),
        header::segment_len(ps) == header::data_start(ps, ps.len()),
        ({
            let s = region::ring_of(mem, ps)[k as int];
            let size = ps[k as int].1 as int;
            let at = header::data_start(ps, k) + i * (64 + size);
            &&& s.position == bytes::u64_at(mem, 128 + 64 * (k as int) + 16)
            &&& s.slots.len() == ps[k as int].0
            &&& s.slots[i].sequence == bytes::u64_at(mem, at)
            &&& s.slots[i].position == bytes::u64_at(mem, at + 8)
            &&& s.slots[i].length == bytes::u32_at(mem, at + 16)
            &&& s.slots[i].timestamp == bytes::u64_at(mem, at + 24)
            &&& s.slots[i].payload == mem.subrange(at + 64, at + 64 + size)
        }),
{
}

/// What is delivered is seen as it is, event by event.
pub proof fn law_events_are_seen_as_they_are(events: Seq<Event>, i: int)
    requires
        0 <= i < events.len(),
    ensures
        ring::views(events).len() == events.len(),
        ring::views(events)[i].section_id == events[i].section_id,
        ring::views(events)[i].position == events[i].position,
        ring::views(events)[i].timestamp_nanos == events[i].timestamp_nanos,
        ring::views(events)[i].payload == events[i].payload@,
{
}

/// Who asks for a section that there is not is told which one, and which
/// there are.
pub proof fn law_what_an_unknown_section_is_told(
    list: Seq<SectionConfig>,
    section_id: u32,
    e: TesseraRingError,
)
    requires
        ring::is_unknown(list, section_id, e),
    ensures
        e matches TesseraRingError::UnknownSection { section_id: id, configured } && id
            == section_id && configured@.len() == list.len() && forall|i: int|
            0 <= i < list.len() ==> #[trigger] configured@[i] == list[i].section_id,
{
}

/// A segment whose sections differ is refused for the first that does, with
/// what was expected and what was found.
pub proof fn law_what_a_differing_section_is_told(
    mem: Seq<u8>,
    list: Seq<SectionConfig>,
    k: int,
    e: TesseraRingError,
)
    requires
        region::section_refused_with(mem, list, k, e),
    ensures
        0 <= k < list.len(),
        ({
            let s = region::section_header(mem, k);
            &&& s.section_id != list[k].section_id || s.slot_count != list[k].slot_count
                || s.slot_size_bytes != list[k].slot_size_bytes
            &&& e == (TesseraRingError::SectionConfigMismatch {
                section_id: list[k].section_id,
                expected_count: list[k].slot_count,
                found_count: s.slot_count,
                expected_size: list[k].slot_size_bytes,
                found_size: s.slot_size_bytes,
            })
        }),
        forall|j: int|
            0 <= j < k ==> {
                let s = #[trigger] region::section_header(mem, j);
                s.section_id == list[j].section_id && s.slot_count == list[j].slot_count
                    && s.slot_size_bytes == list[j].slot_size_bytes
            },
{
    assert forall|j: int| 0 <= j < k implies ({
        let s = #[trigger] region::section_header(mem, j);
        s.section_id == list[j].section_id && s.slot_count == list[j].slot_count
            && s.slot_size_bytes == list[j].slot_size_bytes
    }) by {
        assert(region::section_matches(mem, list, j));
    }
}

/// An attacher that refuses a segment says first that it is of another kind,
/// then that the format or the number of sections differs, and then that the
/// description does.
pub proof fn law_what_a_refused_segment_is_told(
    h: GlobalHeaderView,
    digest: Seq<u8>,
    count: nat,
    e: TesseraRingError,
)
    requires
        region::refused_with(h, digest, count, e),
    ensures
        e is HeaderMismatch <==> h.magic == header::MAGIC && (h.format_version
            != header::FORMAT_VERSION || h.section_count != count),
        e is HeaderMismatch || e is Region,
        e matches TesseraRingError::HeaderMismatch { message, expected_format, found_format }
            ==> expected_format == header::FORMAT_VERSION && found_format == h.format_version,
{
}

/// Slots and sizes are those of the sections, section by section; a slot is
/// one of the segment exactly if its section is and has as many.
pub proof fn law_geometry_is_that_of_the_sections(
    list: Seq<SectionConfig>,
    i: int,
    ordinal: u32,
    slot_index: u32,
)
    requires
        0 <= i < list.len(),
    ensures
        sections::pairs(list).len() == list.len(),
        sections::pairs(list)[i] == (list[i].slot_count, list[i].slot_size_bytes),
        region::has_slot(list, ordinal, slot_index) <==> ordinal < list.len() && slot_index
            < list[ordinal as int].slot_count,
{
}

/// A ring's segment is found by its description alone: the name is made of
/// the first half of the description's digest.
pub proof fn law_a_ring_is_found_by_its_description(c: RingConfig)
    ensures
        ring::config_name(c) == "/tessera-ring-"@ + crate::text::hex_bytes(
            crate::digest::blake3_digest(vstd::utf8::encode_utf8(c.description@)).take(16),
        ),
{
}

/// What a publish said, and what it left of the sections.
pub open spec fn published(
    list: Seq<SectionConfig>,
    before: Seq<SectionView>,
    section_id: u32,
    payload: Seq<u8>,
    timestamp: u64,
    r: core::result::Result<(), TesseraRingError>,
    after: Seq<SectionView>,
) -> bool {
    let k = ring::ordinal_of(list, section_id);
    let n = list[k].slot_count;
    let s = before[k];
    if !ring::knows(list, section_id) {
        (r matches Err(e) && ring::is_unknown(list, section_id, e)) && after == before
    } else if payload.len() > list[k].slot_size_bytes {
        &&& r matches Err(TesseraRingError::OversizedEvent { section_id: id, event_size, slot_size })
            && id == section_id && event_size == payload.len() && slot_size
            == list[k].slot_size_bytes
        &&& after == before
    } else if ring::next_slot_is_held(s, n) {
        &&& r matches Err(TesseraRingError::SlotStuck { section_id: id, position, .. }) && id
            == section_id && position == s.position
        &&& after == before.update(
            k,
            SectionView { position: protocol::next_count(s.position), ..s },
        )
    } else {
        r is Ok && after == before.update(k, ring::after_publish(s, n, payload, timestamp))
    }
}

/// An event is published exactly if its section is known, it fits a slot and
/// no writer is inside the slot of its position; each other case is told by
/// its own error. A publish never touches another section; one that is
/// refused for its section or its length changes nothing at all, and one
/// that is refused for its slot uses its position up and changes no slot.
pub proof fn law_what_a_publish_comes_to(
    list: Seq<SectionConfig>,
    before: Seq<SectionView>,
    section_id: u32,
    k: int,
    payload: Seq<u8>,
    timestamp: u64,
    r: core::result::Result<(), TesseraRingError>,
    after: Seq<SectionView>,
)
    requires
        before.len() == list.len(),
        forall|i: int, j: int|
            0 <= i < j < list.len() ==> (#[trigger] list[i]).section_id < (
            #[trigger] list[j]).section_id,
        forall|i: int| 0 <= i < list.len() ==> has_shape(#[trigger] list[i]),
        published(list, before, section_id, payload, timestamp, r, after),
    ensures
        r is Err && r->Err_0 is UnknownSection <==> forall|i: int|
            0 <= i < list.len() ==> (#[trigger] list[i]).section_id != section_id,
        r is Err && r->Err_0 is UnknownSection ==> after == before,
        0 <= k < list.len() && list[k].section_id == section_id ==> {
            let n = list[k].slot_count as int;
            let held = before[k].slots[before[k].position as int % n].sequence % 2 == 1;
            let long = payload.len() > list[k].slot_size_bytes;
            &&& r is Ok <==> !long && !held
            &&& long ==> r is Err && r->Err_0 is OversizedEvent && after == before
            &&& !long && held ==> r is Err && r->Err_0 is SlotStuck && after[k].slots
                == before[k].slots && (before[k].position < u64::MAX ==> after[k].position
                == before[k].position + 1)
            &&& r is Ok ==> after[k] == ring::after_publish(
                before[k],
                list[k].slot_count,
                payload,
                timestamp,
            )
            &&& after.len() == before.len()
            &&& forall|j: int|
                0 <= j < before.len() && j != k ==> #[trigger] after[j] == before[j]
        },
{
    if 0 <= k < list.len() && list[k].section_id == section_id {
        law_where_a_section_is(list, section_id, k);
        assert(has_shape(list[k]));
        law_when_a_publish_is_refused(before[k], list[k].slot_count);
    }
    if ring::knows(list, section_id) {
        let j = ring::ordinal_of(list, section_id);
        assert(list[j].section_id == section_id);
    }
}

/// What a poll delivered, and where it left the reader.
pub open spec fn polled(
    v: ReaderView,
    s: SectionView,
    r: core::result::Result<Seq<EventView>, TesseraRingError>,
    after: ReaderView,
) -> bool {
    let n = v.region.sections[v.ordinal as int].slot_count;
    let from = ring::poll_start(v.cursor, s.position, n);
    let to = s.position;
    &&& r == Ok::<Seq<EventView>, TesseraRingError>(
        ring::events_between(s, n, v.section_id, from as int, to as int),
    )
    &&& after == (ReaderView {
        cursor: if from < to {
            to
        } else {
            from
        },
        dropped: protocol::count_up(
            v.dropped,
            (from - v.cursor) + ring::held_between(s, n, from as int, to as int),
        ),
        ..v
    })
}

/// A poll delivers what was published since the reader's cursor and can
/// still be had, in order and each once, counts the rest as dropped, and
/// leaves the cursor where the writers are. So a second poll, with nothing
/// published in between, delivers nothing and drops nothing.
pub proof fn law_a_poll_is_done_once(
    v: ReaderView,
    s: SectionView,
    first: core::result::Result<Seq<EventView>, TesseraRingError>,
    mid: ReaderView,
    second: core::result::Result<Seq<EventView>, TesseraRingError>,
    after: ReaderView,
)
    requires
        v.region.sections[v.ordinal as int].slot_count > 0,
        v.cursor <= s.position,
        v.dropped + (s.position - v.cursor) <= u64::MAX,
        ({
            let n = v.region.sections[v.ordinal as int].slot_count;
            ring::pollable(
                s,
                n,
                ring::poll_start(v.cursor, s.position, n) as int,
                s.position as int,
            )
        }),
        polled(v, s, first, mid),
        polled(mid, s, second, after),
    ensures
        first is Ok && second is Ok,
        mid.cursor == s.position,
        mid.region == v.region && mid.section_id == v.section_id && mid.ordinal == v.ordinal,
        first->Ok_0.len() + (mid.dropped - v.dropped) == s.position - v.cursor,
        ({
            let n = v.region.sections[v.ordinal as int].slot_count;
            let from = ring::poll_start(v.cursor, s.position, n) as int;
            &&& forall|k: int|
                0 <= k < first->Ok_0.len() ==> comes_from(
                    s,
                    n,
                    v.section_id,
                    from,
                    s.position as int,
                    #[trigger] first->Ok_0[k],
                )
            &&& forall|j: int, k: int|
                0 <= j < k < first->Ok_0.len() ==> (#[trigger] first->Ok_0[j]).position < (
                #[trigger] first->Ok_0[k]).position
        }),
        second->Ok_0.len() == 0,
        after == mid,
{
    let n = v.region.sections[v.ordinal as int].slot_count;
    let from = ring::poll_start(v.cursor, s.position, n) as int;
    law_where_a_poll_starts(v.cursor, s.position, n);
    law_a_poll_accounts_for_every_position(s, n, v.section_id, v.cursor, v.dropped);
    law_what_a_poll_delivers(s, n, v.section_id, from, s.position as int);
    law_where_a_poll_starts(s.position, s.position, n);
}

/// The reader that was issued for a section, or why there is none.
pub open spec fn issued(
    region: RegionView,
    rings: Seq<SectionView>,
    section_id: u32,
    r: core::result::Result<ReaderView, TesseraRingError>,
) -> bool {
    match r {
        Ok(v) => {
            let k = ring::ordinal_of(region.sections, section_id);
            &&& ring::knows(region.sections, section_id)
            &&& v == (ReaderView {
                region,
                section_id,
                ordinal: v.ordinal,
                cursor: rings[k].position,
                dropped: 0,
            })
            &&& v.ordinal == k
        },
        Err(e) => !ring::knows(region.sections, section_id) && ring::is_unknown(
            region.sections,
            section_id,
            e,
        ),
    }
}

/// A reader is issued exactly for a section that there is. It starts where
/// the writers are, with nothing dropped, so that it sees what is published
/// from then on and nothing from before.
pub proof fn law_a_reader_starts_at_the_present(
    region: RegionView,
    rings: Seq<SectionView>,
    section_id: u32,
    k: int,
    r: core::result::Result<ReaderView, TesseraRingError>,
)
    requires
        forall|i: int, j: int|
            0 <= i < j < region.sections.len() ==> (#[trigger] region.sections[i]).section_id < (
            #[trigger] region.sections[j]).section_id,
        issued(region, rings, section_id, r),
    ensures
        r is Err <==> forall|i: int|
            0 <= i < region.sections.len() ==> (#[trigger] region.sections[i]).section_id
                != section_id,
        0 <= k < region.sections.len() && region.sections[k].section_id == section_id ==> (
        r matches Ok(v) && v.region == region && v.section_id == section_id && v.ordinal == k
            && v.cursor == rings[k].position && v.dropped == 0),
{
    if 0 <= k < region.sections.len() && region.sections[k].section_id == section_id {
        law_where_a_section_is(region.sections, section_id, k);
    }
    if ring::knows(region.sections, section_id) {
        let j = ring::ordinal_of(region.sections, section_id);
        assert(region.sections[j].section_id == section_id);
    }
}

} // verus!
