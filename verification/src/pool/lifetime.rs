//! What a lease is worth: what each operation leaves in the slot table, and
//! for how long a lease keeps its slot.
//!
//! The laws speak of what a slot holds before and after: whose it is, since
//! when, and how many bytes it has.
use vstd::prelude::*;

use crate::pool::header;
use crate::pool::header::SlotMetaView;
use crate::pool::history;
use crate::pool::history::Op;
use crate::pool::laws;
use crate::pool::pool;
use crate::pool::pool::PoolView;
use crate::pool::region;
use crate::pool::{Descriptor, Lease, LeaseId};

verus! {

/// Slot `j` is the same in both segments: metadata and payload.
pub open spec fn same_slot(p: PoolView, a: Seq<u8>, b: Seq<u8>, j: int) -> bool {
    region::meta(a, j) == region::meta(b, j) && history::same_payload(p, a, b, j)
}

/// The lease of the slot began, or was last renewed, more than the pool's
/// time to live before `now`.
pub open spec fn overdue(p: PoolView, mem: Seq<u8>, j: int, now: u64) -> bool {
    region::meta(mem, j).in_use() && region::meta(mem, j).acquired_at_micros + p.ttl_micros < now
}

/// An acquire takes the slot that has been free the longest. The slot then
/// is in use from the time of the acquire on, under the identifier drawn for
/// it and one generation further, with nothing written yet. Nothing else
/// changes.
pub proof fn law_an_acquire_starts_a_lease(p: PoolView, mem: Seq<u8>, id: LeaseId, now: u64)
    requires
        history::well_formed(p, mem),
        p.free.len() > 0,
    ensures
        ({
            let (q, after) = history::after_op(p, mem, Op::Acquire { id, now });
            let m = region::meta(mem, p.free[0] as int);
            let a = region::meta(after, p.free[0] as int);
            &&& a.in_use() && !a.finalized()
            &&& a.lease_id_high == id.high && a.lease_id_low == id.low
            &&& a.acquired_at_micros == now
            &&& a.payload_len == 0
            &&& m.generation < u64::MAX ==> a.generation == m.generation + 1
            &&& m.generation == u64::MAX ==> a.generation == 0
            &&& forall|j: int|
                0 <= j < p.slot_count && j != p.free[0] ==> #[trigger] same_slot(p, mem, after, j)
            &&& q.free == p.free.subrange(1, p.free.len() as int)
            &&& q.slot_count == p.slot_count && q.slot_size_bytes == p.slot_size_bytes
            &&& q.ttl_micros == p.ttl_micros && q.owner == p.owner
        }),
{
    let (q, after) = history::after_op(p, mem, Op::Acquire { id, now });
    let slot = p.free[0] as int;
    let m = pool::leased(region::meta(mem, slot), id, now);
    header::law_layout(slot, slot, p.slot_count as int, p.slot_size_bytes as int);
    assert forall|j: int| 0 <= j < p.slot_count && j != slot implies #[trigger] same_slot(
        p,
        mem,
        after,
        j,
    ) by {
        history::lemma_meta_only(p, mem, slot, m, j);
    }
    history::lemma_meta_only(p, mem, slot, m, slot);
    header::lemma_flag_words(0);
    assert(q.free =~= p.free.subrange(1, p.free.len() as int));
}

/// With no slot free, an acquire changes nothing.
pub proof fn law_no_slot_no_lease(p: PoolView, mem: Seq<u8>, id: LeaseId, now: u64)
    requires
        p.free.len() == 0,
    ensures
        history::after_op(p, mem, Op::Acquire { id, now }) == (p, mem),
{
}

/// A lease is good exactly while its slot bears its identifier and its
/// generation, and a descriptor exactly while the slot also tells of as many
/// bytes as it does, no more than a slot has.
pub proof fn law_who_holds_a_slot(p: PoolView, mem: Seq<u8>, lease: Lease, d: Descriptor)
    ensures
        ({
            let m = region::meta(mem, lease.slot_index as int);
            pool::holds(p, mem, lease) <==> lease.slot_index < p.slot_count && m.lease_id_high
                == lease.lease_id.high && m.lease_id_low == lease.lease_id.low && m.generation
                == lease.generation
        }),
        ({
            let m = region::meta(mem, d.slot_index as int);
            pool::readable(p, mem, d) <==> d.slot_index < p.slot_count && m.lease_id_high
                == d.lease_id.high && m.lease_id_low == d.lease_id.low && m.generation
                == d.generation && m.payload_len == d.size_bytes && d.size_bytes
                <= p.slot_size_bytes
        }),
{
}

/// A write under a good lease puts the payload into the lease's slot, and
/// closes the slot for further writes. Whose the slot is, and since when,
/// stays; nothing else changes. A write that is too long, under a lease that
/// is not good, or to a slot that was written, changes nothing at all.
pub proof fn law_a_write_fills_its_slot(p: PoolView, mem: Seq<u8>, lease: Lease, payload: Seq<u8>)
    requires
        p.fits(mem),
    ensures
        ({
            let (q, after) = history::after_op(p, mem, Op::Write { lease, payload });
            let i = lease.slot_index as int;
            let m = region::meta(mem, i);
            let a = region::meta(after, i);
            let good = i < p.slot_count && m.lease_id_high == lease.lease_id.high
                && m.lease_id_low == lease.lease_id.low && m.generation == lease.generation;
            &&& q == p
            &&& !good || m.finalized() || payload.len() > p.slot_size_bytes ==> after == mem
            &&& good && !m.finalized() && payload.len() <= p.slot_size_bytes ==> {
                &&& a.finalized() && a.in_use() == m.in_use()
                &&& a.payload_len == payload.len()
                &&& a.lease_id_high == m.lease_id_high && a.lease_id_low == m.lease_id_low
                &&& a.generation == m.generation
                &&& a.acquired_at_micros == m.acquired_at_micros
                &&& region::payload(
                    after,
                    i,
                    p.slot_count as int,
                    p.slot_size_bytes as int,
                    payload.len() as int,
                ) == payload
                &&& forall|j: int|
                    0 <= j < p.slot_count && j != i ==> #[trigger] same_slot(p, mem, after, j)
            }
        }),
{
    let (q, after) = history::after_op(p, mem, Op::Write { lease, payload });
    let i = lease.slot_index as int;
    let n = p.slot_count as int;
    let size = p.slot_size_bytes as int;
    let m = region::meta(mem, i);
    if payload.len() <= size && pool::holds(p, mem, lease) && !m.finalized() {
        header::law_layout(i, i, n, size);
        header::lemma_flag_words(m.flags);
        let w = pool::written(m, payload.len() as u32);
        region::law_slots_are_independent(mem, i, n, size, m, payload);
        let mid = region::with_payload(mem, i, n, size, payload);
        history::lemma_meta_only(p, mid, i, w, i);
        assert(region::payload(mid, i, n, size, payload.len() as int) == region::payload(
            after,
            i,
            n,
            size,
            payload.len() as int,
        ));
        laws::law_read_gives_back_the_write(p, mem, lease, payload);
        assert forall|j: int| 0 <= j < n && j != i implies #[trigger] same_slot(
            p,
            mem,
            after,
            j,
        ) by {
            history::lemma_meta_only(p, mid, i, w, j);
            assert(region::meta(mid, j) == region::meta(mem, j));
            assert forall|len: int| 0 <= len <= size implies #[trigger] region::payload(
                mem,
                j,
                n,
                size,
                len,
            ) == region::payload(after, j, n, size, len) by {
                assert(region::payload(mid, j, n, size, len) == region::payload(
                    mem,
                    j,
                    n,
                    size,
                    len,
                ));
                assert(region::payload(mid, j, n, size, len) == region::payload(
                    after,
                    j,
                    n,
                    size,
                    len,
                ));
            }
        }
    }
}

/// A renewal under a good lease moves the time from which the lease counts
/// to the time of the renewal, and changes nothing else. Under any other
/// lease it changes nothing at all.
pub proof fn law_a_renewal_moves_the_clock_alone(p: PoolView, mem: Seq<u8>, lease: Lease, now: u64)
    requires
        p.fits(mem),
    ensures
        ({
            let (q, after) = history::after_op(p, mem, Op::Renew { lease, now });
            let i = lease.slot_index as int;
            let m = region::meta(mem, i);
            let good = i < p.slot_count && m.lease_id_high == lease.lease_id.high
                && m.lease_id_low == lease.lease_id.low && m.generation == lease.generation;
            &&& q == p
            &&& !good ==> after == mem
            &&& good ==> {
                &&& region::meta(after, i) == (SlotMetaView { acquired_at_micros: now, ..m })
                &&& history::same_payload(p, mem, after, i)
                &&& forall|j: int|
                    0 <= j < p.slot_count && j != i ==> #[trigger] same_slot(p, mem, after, j)
            }
        }),
{
    let (q, after) = history::after_op(p, mem, Op::Renew { lease, now });
    let i = lease.slot_index as int;
    let m = region::meta(mem, i);
    if pool::holds(p, mem, lease) {
        header::law_layout(i, i, p.slot_count as int, p.slot_size_bytes as int);
        let w = pool::renewed(m, now);
        history::lemma_meta_only(p, mem, i, w, i);
        assert forall|j: int| 0 <= j < p.slot_count && j != i implies #[trigger] same_slot(
            p,
            mem,
            after,
            j,
        ) by {
            history::lemma_meta_only(p, mem, i, w, j);
        }
    }
}

/// A release under a good lease empties the slot's metadata but for the
/// generation, and puts the slot behind all that were free before it.
/// Nothing else changes. Under any other lease it changes nothing at all.
pub proof fn law_a_release_frees_its_slot_alone(p: PoolView, mem: Seq<u8>, lease: Lease)
    requires
        p.fits(mem),
    ensures
        ({
            let (q, after) = history::after_op(p, mem, Op::Release { lease });
            let i = lease.slot_index as int;
            let m = region::meta(mem, i);
            let a = region::meta(after, i);
            let good = i < p.slot_count && m.lease_id_high == lease.lease_id.high
                && m.lease_id_low == lease.lease_id.low && m.generation == lease.generation;
            &&& q.slot_count == p.slot_count && q.slot_size_bytes == p.slot_size_bytes
            &&& q.ttl_micros == p.ttl_micros && q.owner == p.owner
            &&& !good ==> after == mem && q.free == p.free
            &&& good ==> {
                &&& !a.in_use() && !a.finalized()
                &&& a.lease_id_high == 0 && a.lease_id_low == 0
                &&& a.generation == m.generation
                &&& a.acquired_at_micros == 0 && a.payload_len == 0
                &&& q.free == p.free + seq![lease.slot_index]
                &&& forall|j: int|
                    0 <= j < p.slot_count && j != i ==> #[trigger] same_slot(p, mem, after, j)
            }
        }),
{
    let (q, after) = history::after_op(p, mem, Op::Release { lease });
    let i = lease.slot_index as int;
    let m = region::meta(mem, i);
    if pool::holds(p, mem, lease) {
        let w = SlotMetaView::cleared(m.generation);
        history::lemma_meta_only(p, mem, i, w, i);
        header::lemma_flag_words(0);
        assert forall|j: int| 0 <= j < p.slot_count && j != i implies #[trigger] same_slot(
            p,
            mem,
            after,
            j,
        ) by {
            history::lemma_meta_only(p, mem, i, w, j);
        }
        assert(q.free =~= p.free + seq![lease.slot_index]);
    }
}

/// After a sweep no slot is in use whose lease began or was last renewed
/// more than the time to live ago; each such slot is one generation further
/// and empty. Every other slot is as it was, and no payload byte changes.
pub proof fn law_a_sweep_takes_what_is_overdue_and_no_more(p: PoolView, mem: Seq<u8>, now: u64)
    requires
        p.fits(mem),
    ensures
        ({
            let (q, after) = history::after_op(p, mem, Op::Reclaim { now });
            &&& forall|j: int|
                0 <= j < p.slot_count ==> ((#[trigger] region::meta(after, j)).in_use()
                    ==> now <= region::meta(after, j).acquired_at_micros + p.ttl_micros)
            &&& forall|j: int|
                0 <= j < p.slot_count && region::meta(mem, j).in_use() && region::meta(
                    mem,
                    j,
                ).acquired_at_micros + p.ttl_micros < now ==> {
                    let m = region::meta(mem, j);
                    let a = #[trigger] region::meta(after, j);
                    &&& !a.in_use() && !a.finalized()
                    &&& a.lease_id_high == 0 && a.lease_id_low == 0
                    &&& m.generation < u64::MAX ==> a.generation == m.generation + 1
                    &&& m.generation == u64::MAX ==> a.generation == 0
                    &&& a.acquired_at_micros == 0 && a.payload_len == 0
                }
            &&& forall|j: int|
                0 <= j < p.slot_count && !(region::meta(mem, j).in_use() && region::meta(
                    mem,
                    j,
                ).acquired_at_micros + p.ttl_micros < now) ==> #[trigger] region::meta(after, j)
                    == region::meta(mem, j)
            &&& forall|j: int|
                0 <= j < p.slot_count ==> #[trigger] history::same_payload(p, mem, after, j)
            &&& q.slot_count == p.slot_count && q.slot_size_bytes == p.slot_size_bytes
            &&& q.ttl_micros == p.ttl_micros && q.owner == p.owner
        }),
{
    let (q, after) = history::after_op(p, mem, Op::Reclaim { now });
    let n = p.slot_count as int;
    let size = p.slot_size_bytes as int;
    pool::law_sweep(mem, n as nat, n, size, now, p.ttl_micros);
    header::lemma_flag_words(0);
    assert forall|j: int| 0 <= j < n implies #[trigger] history::same_payload(
        p,
        mem,
        after,
        j,
    ) by {
        assert forall|len: int| 0 <= len <= size implies #[trigger] region::payload(
            mem,
            j,
            n,
            size,
            len,
        ) == region::payload(after, j, n, size, len) by {
            assert(region::payload(after, j, n, size, len) == region::payload(
                mem,
                j,
                n,
                size,
                len,
            ));
        }
    }
}

/// The slots whose leases are overdue.
pub open spec fn overdue_slots(p: PoolView, mem: Seq<u8>, now: u64) -> Set<u32> {
    Set::new(|i: u32| i < p.slot_count && overdue(p, mem, i as int, now))
}

/// A sweep counts the slots whose leases began or were last renewed more
/// than the time to live ago, and puts each of them, lowest index first,
/// behind all slots that were free before.
pub proof fn law_a_sweep_counts_what_it_takes(p: PoolView, mem: Seq<u8>, now: u64)
    requires
        p.fits(mem),
    ensures
        ({
            let (q, after) = history::after_op(p, mem, Op::Reclaim { now });
            let count = pool::stale_slots(mem, p.slot_count as nat, now, p.ttl_micros).len();
            &&& count == overdue_slots(p, mem, now).len()
            &&& q.free.len() == p.free.len() + count
            &&& q.free.take(p.free.len() as int) == p.free
            &&& forall|a: int, b: int|
                p.free.len() <= a < b < q.free.len() ==> #[trigger] q.free[a]
                    < #[trigger] q.free[b]
            &&& forall|i: u32|
                #[trigger] q.free.skip(p.free.len() as int).contains(i) <==> i < p.slot_count
                    && region::meta(mem, i as int).in_use() && region::meta(
                    mem,
                    i as int,
                ).acquired_at_micros + p.ttl_micros < now
        }),
{
    let (q, after) = history::after_op(p, mem, Op::Reclaim { now });
    let n = p.slot_count as nat;
    let gone = pool::stale_slots(mem, n, now, p.ttl_micros);
    laws::lemma_stale_slots(mem, n, now, p.ttl_micros);
    lemma_stale_slots_ascend(mem, n, now, p.ttl_micros);
    gone.unique_seq_to_set();
    assert(gone.to_set() =~= overdue_slots(p, mem, now));
    assert(q.free.take(p.free.len() as int) =~= p.free);
    assert(q.free.skip(p.free.len() as int) =~= gone);
    assert forall|a: int, b: int| p.free.len() <= a < b < q.free.len() implies #[trigger] q.free[a]
        < #[trigger] q.free[b] by {
        assert(q.free[a] == gone[a - p.free.len()]);
        assert(q.free[b] == gone[b - p.free.len()]);
    }
}

proof fn lemma_stale_slots_ascend(mem: Seq<u8>, k: nat, now: u64, ttl: u64)
    requires
        k <= u32::MAX,
    ensures
        forall|a: int, b: int|
            0 <= a < b < pool::stale_slots(mem, k, now, ttl).len() ==> #[trigger] pool::stale_slots(
                mem,
                k,
                now,
                ttl,
            )[a] < #[trigger] pool::stale_slots(mem, k, now, ttl)[b],
    decreases k,
{
    if k > 0 {
        let j = (k - 1) as nat;
        let before = pool::stale_slots(mem, j, now, ttl);
        lemma_stale_slots_ascend(mem, j, now, ttl);
        laws::lemma_stale_slots(mem, j, now, ttl);
        assert forall|a: int| 0 <= a < before.len() implies #[trigger] before[a] < j by {
            assert(before.contains(before[a]));
        }
    }
}

/// The slots in use.
pub open spec fn slots_in_use(mem: Seq<u8>, n: nat) -> Set<int> {
    Set::new(|i: int| 0 <= i < n && region::meta(mem, i).in_use())
}

/// The count of slots in use is the number of slots that are.
pub proof fn law_the_count_in_use(mem: Seq<u8>, n: nat)
    ensures
        slots_in_use(mem, n).finite(),
        pool::in_use_among(mem, n) == slots_in_use(mem, n).len(),
    decreases n,
{
    if n == 0 {
        assert(slots_in_use(mem, 0) =~= Set::empty());
    } else {
        let k = (n - 1) as nat;
        law_the_count_in_use(mem, k);
        if region::meta(mem, k as int).in_use() {
            assert(slots_in_use(mem, n) =~= slots_in_use(mem, k).insert(k as int));
        } else {
            assert(slots_in_use(mem, n) =~= slots_in_use(mem, k));
        }
    }
}

/// The operation does not touch the slot under its lease, and is no sweep
/// later than `until`.
pub open spec fn spares(op: Op, slot: u32, until: int) -> bool {
    match op {
        Op::Acquire { .. } => true,
        Op::Write { lease, .. } => lease.slot_index != slot,
        Op::Release { lease } => lease.slot_index != slot,
        Op::Renew { lease, .. } => lease.slot_index != slot,
        Op::Reclaim { now } => now <= until,
    }
}

/// Every operation of a history spares the slot.
pub open spec fn all_spare(ops: Seq<Op>, slot: u32, until: int) -> bool {
    forall|k: int| 0 <= k < ops.len() ==> spares(#[trigger] ops[k], slot, until)
}

/// A slot in use stays as it is over a history that spares it.
proof fn lemma_spared(p: PoolView, mem: Seq<u8>, ops: Seq<Op>, slot: u32)
    requires
        history::sound(p, mem),
        history::all_proper(ops),
        slot < p.slot_count,
        region::meta(mem, slot as int).in_use(),
        all_spare(
            ops,
            slot,
            region::meta(mem, slot as int).acquired_at_micros + p.ttl_micros,
        ),
    ensures
        same_slot(p, mem, history::after_all(p, mem, ops).1, slot as int),
    decreases ops.len(),
{
    if ops.len() > 0 {
        let before = ops.drop_last();
        assert forall|k: int| 0 <= k < before.len() implies history::proper(#[trigger] before[k])
            && spares(
            before[k],
            slot,
            region::meta(mem, slot as int).acquired_at_micros + p.ttl_micros,
        ) by {
            assert(before[k] == ops[k]);
        }
        lemma_spared(p, mem, before, slot);
        history::law_every_history_is_sound(p, mem, before);
        let (q, m) = history::after_all(p, mem, before);
        let op = ops[ops.len() - 1];
        let after = history::after_op(q, m, op).1;
        let i = slot as int;
        match op {
            Op::Acquire { id, now } => {
                if q.free.len() > 0 {
                    assert(q.free.contains(q.free[0]));
                    law_an_acquire_starts_a_lease(q, m, id, now);
                    assert(same_slot(q, m, after, i));
                }
            },
            Op::Write { lease, payload } => {
                law_a_write_fills_its_slot(q, m, lease, payload);
                assert(after == m || same_slot(q, m, after, i));
            },
            Op::Release { lease } => {
                law_a_release_frees_its_slot_alone(q, m, lease);
                assert(after == m || same_slot(q, m, after, i));
            },
            Op::Renew { lease, now } => {
                law_a_renewal_moves_the_clock_alone(q, m, lease, now);
                assert(after == m || same_slot(q, m, after, i));
            },
            Op::Reclaim { now } => {
                law_a_sweep_takes_what_is_overdue_and_no_more(q, m, now);
                assert(history::same_payload(q, m, after, i));
                assert(region::meta(after, i) == region::meta(m, i));
            },
        }
        assert(same_slot(q, m, after, i));
        assert forall|len: int| 0 <= len <= p.slot_size_bytes implies #[trigger] region::payload(
            mem,
            i,
            p.slot_count as int,
            p.slot_size_bytes as int,
            len,
        ) == region::payload(after, i, p.slot_count as int, p.slot_size_bytes as int, len) by {
            assert(region::payload(mem, i, p.slot_count as int, p.slot_size_bytes as int, len)
                == region::payload(m, i, p.slot_count as int, p.slot_size_bytes as int, len));
        }
    }
}

/// A lease that counts from time `since` keeps its slot, and what is in it,
/// through whatever is done to other slots and through every sweep up to the
/// time to live later, and a sweep later than that takes the slot back.
pub proof fn law_a_lease_lives_its_time(
    p: PoolView,
    mem: Seq<u8>,
    lease: Lease,
    since: u64,
    ops: Seq<Op>,
    now: u64,
)
    requires
        history::sound(p, mem),
        history::all_proper(ops),
        pool::holds(p, mem, lease),
        region::meta(mem, lease.slot_index as int).in_use(),
        region::meta(mem, lease.slot_index as int).acquired_at_micros == since,
        all_spare(ops, lease.slot_index, since + p.ttl_micros),
    ensures
        ({
            let (q, m) = history::after_all(p, mem, ops);
            let (r, after) = history::after_op(q, m, Op::Reclaim { now });
            let i = lease.slot_index as int;
            &&& pool::holds(q, m, lease)
            &&& same_slot(p, mem, m, i)
            &&& now <= since + p.ttl_micros ==> pool::holds(r, after, lease) && region::meta(
                after,
                i,
            ).in_use() && same_slot(p, mem, after, i)
            &&& now > since + p.ttl_micros ==> !pool::holds(r, after, lease) && !region::meta(
                after,
                i,
            ).in_use() && r.free.contains(lease.slot_index)
        }),
{
    let (q, m) = history::after_all(p, mem, ops);
    let (r, after) = history::after_op(q, m, Op::Reclaim { now });
    let i = lease.slot_index as int;
    lemma_spared(p, mem, ops, lease.slot_index);
    history::law_every_history_is_sound(p, mem, ops);
    history::lemma_op_sound(q, m, Op::Reclaim { now });
    law_a_sweep_takes_what_is_overdue_and_no_more(q, m, now);
    assert(history::same_payload(q, m, after, i));
    assert forall|len: int| 0 <= len <= p.slot_size_bytes implies #[trigger] region::payload(
        mem,
        i,
        p.slot_count as int,
        p.slot_size_bytes as int,
        len,
    ) == region::payload(after, i, p.slot_count as int, p.slot_size_bytes as int, len) by {
        assert(region::payload(mem, i, p.slot_count as int, p.slot_size_bytes as int, len)
            == region::payload(m, i, p.slot_count as int, p.slot_size_bytes as int, len));
    }
    assert(region::meta(m, i) == region::meta(mem, i));
    if now > since + p.ttl_micros {
        assert(!region::meta(after, i).in_use());
        assert(r.free.contains(lease.slot_index));
    }
}

/// A lease acquired at time `t`, of whatever slot and generation, and the
/// payload written under it last through every sweep at a time up to `t`
/// plus the time to live, whatever is done to other slots meanwhile; a sweep
/// later than that takes the slot back, and the descriptor reads nothing.
pub proof fn law_an_acquired_lease_lives_its_time(
    p: PoolView,
    mem: Seq<u8>,
    id: LeaseId,
    t: u64,
    lease: Lease,
    payload: Seq<u8>,
    d: Descriptor,
    ops: Seq<Op>,
    now: u64,
)
    requires
        history::sound(p, mem),
        p.free.len() > 0,
        id != history::blank(),
        payload.len() <= p.slot_size_bytes,
        ({
            let (q0, m0) = history::after_op(p, mem, Op::Acquire { id, now: t });
            lease.slot_index < p.slot_count && region::meta(
                m0,
                lease.slot_index as int,
            ).lease_id_high == id.high && region::meta(
                m0,
                lease.slot_index as int,
            ).lease_id_low == id.low && region::meta(m0, lease.slot_index as int).generation
                == lease.generation
        }),
        lease.slot_index == p.free[0],
        lease.lease_id == id,
        d.slot_index == lease.slot_index,
        d.lease_id == id,
        d.generation == lease.generation,
        d.size_bytes == payload.len(),
        history::all_proper(ops),
        all_spare(ops, lease.slot_index, t + p.ttl_micros),
    ensures
        ({
            let (q0, m0) = history::after_op(p, mem, Op::Acquire { id, now: t });
            let (q1, m1) = history::after_op(q0, m0, Op::Write { lease, payload });
            let (q, m) = history::after_all(q1, m1, ops);
            let (r, after) = history::after_op(q, m, Op::Reclaim { now });
            &&& pool::holds(q, m, lease) && pool::readable(q, m, d)
            &&& pool::payload_of(q, m, d) == payload
            &&& now <= t + p.ttl_micros ==> pool::holds(r, after, lease) && pool::readable(
                r,
                after,
                d,
            ) && pool::payload_of(r, after, d) == payload
            &&& now > t + p.ttl_micros ==> !pool::holds(r, after, lease) && !pool::readable(
                r,
                after,
                d,
            ) && r.free.contains(lease.slot_index)
        }),
{
    let (q0, m0) = history::after_op(p, mem, Op::Acquire { id, now: t });
    let (q1, m1) = history::after_op(q0, m0, Op::Write { lease, payload });
    let (q, m) = history::after_all(q1, m1, ops);
    let (r, after) = history::after_op(q, m, Op::Reclaim { now });
    let i = lease.slot_index as int;
    law_an_acquire_starts_a_lease(p, mem, id, t);
    history::lemma_op_sound(p, mem, Op::Acquire { id, now: t });
    law_a_write_fills_its_slot(q0, m0, lease, payload);
    history::lemma_op_sound(q0, m0, Op::Write { lease, payload });
    law_a_lease_lives_its_time(q1, m1, lease, t, ops, now);
    history::law_every_history_is_sound(q1, m1, ops);
    history::lemma_op_sound(q, m, Op::Reclaim { now });
    assert(pool::payload_of(q1, m1, d) == payload);
    law_a_sweep_takes_what_is_overdue_and_no_more(q, m, now);
}

/// A lease renewed at time `t` counts from then on: it survives every sweep
/// up to the time to live later, and a later sweep takes its slot back.
pub proof fn law_a_renewed_lease_lives_its_time(
    p: PoolView,
    mem: Seq<u8>,
    lease: Lease,
    t: u64,
    ops: Seq<Op>,
    now: u64,
)
    requires
        history::sound(p, mem),
        pool::holds(p, mem, lease),
        lease.lease_id != history::blank(),
        history::all_proper(ops),
        all_spare(ops, lease.slot_index, t + p.ttl_micros),
    ensures
        ({
            let (q0, m0) = history::after_op(p, mem, Op::Renew { lease, now: t });
            let (q, m) = history::after_all(q0, m0, ops);
            let (r, after) = history::after_op(q, m, Op::Reclaim { now });
            let i = lease.slot_index as int;
            &&& now <= t + p.ttl_micros ==> pool::holds(r, after, lease) && region::meta(
                after,
                i,
            ).payload_len == region::meta(mem, i).payload_len && history::same_payload(
                p,
                m0,
                after,
                i,
            )
            &&& now > t + p.ttl_micros ==> !pool::holds(r, after, lease) && r.free.contains(
                lease.slot_index,
            )
        }),
{
    let (q0, m0) = history::after_op(p, mem, Op::Renew { lease, now: t });
    law_a_renewal_moves_the_clock_alone(p, mem, lease, t);
    history::lemma_op_sound(p, mem, Op::Renew { lease, now: t });
    assert(region::meta(mem, lease.slot_index as int).in_use());
    law_a_lease_lives_its_time(q0, m0, lease, t, ops, now);
}

} // verus!
