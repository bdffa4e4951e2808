//! What holds of a pool over any history of its owner's operations.
//!
//! A handle may live as long as its holder likes. These laws speak of a
//! handle and of everything that may have been done to the pool since it was
//! made, in whatever order, including operations that were refused.
use vstd::prelude::*;

use crate::pool::header;
use crate::pool::header::SlotMetaView;
use crate::pool::laws;
use crate::pool::pool;
use crate::pool::pool::PoolView;
use crate::pool::region;
use crate::pool::{Descriptor, Lease, LeaseId, TesseraPoolError};

verus! {

/// One operation of the owner.
pub enum Op {
    /// Lease a slot.
    Acquire {
        /// Identifier drawn for it.
        id: LeaseId,
        /// Clock reading.
        now: u64,
    },
    /// Write a payload.
    Write {
        /// Under this lease.
        lease: Lease,
        /// The payload.
        payload: Seq<u8>,
    },
    /// Give a slot back.
    Release {
        /// Its lease.
        lease: Lease,
    },
    /// Restart a lease's time to live.
    Renew {
        /// The lease.
        lease: Lease,
        /// Clock reading.
        now: u64,
    },
    /// Take slots back whose leases have outlived their time.
    Reclaim {
        /// Clock reading.
        now: u64,
    },
}

/// The identifier of a slot that is not leased.
pub open spec fn blank() -> LeaseId {
    LeaseId { high: 0, low: 0 }
}

/// The operation uses no lease with the identifier of a slot that is not
/// leased.
pub open spec fn proper(op: Op) -> bool {
    match op {
        Op::Write { lease, payload } => lease.lease_id != blank(),
        Op::Release { lease } => lease.lease_id != blank(),
        Op::Renew { lease, now } => lease.lease_id != blank(),
        _ => true,
    }
}

/// The owner's handle and the segment after an operation. One that is
/// refused changes nothing.
pub open spec fn after_op(p: PoolView, mem: Seq<u8>, op: Op) -> (PoolView, Seq<u8>) {
    match op {
        Op::Acquire { id, now } => if p.free.len() > 0 {
            (laws::pool_after_acquire(p), laws::mem_after_acquire(p, mem, id, now))
        } else {
            (p, mem)
        },
        Op::Write { lease, payload } => if payload.len() <= p.slot_size_bytes && pool::holds(
            p,
            mem,
            lease,
        ) && !region::meta(mem, lease.slot_index as int).finalized() {
            (p, pool::after_write(p, mem, lease, payload))
        } else {
            (p, mem)
        },
        Op::Release { lease } => if pool::holds(p, mem, lease) {
            (laws::pool_after_release(p, lease), laws::mem_after_release(mem, lease))
        } else {
            (p, mem)
        },
        Op::Renew { lease, now } => if pool::holds(p, mem, lease) {
            (p, laws::mem_after_renew(mem, lease, now))
        } else {
            (p, mem)
        },
        Op::Reclaim { now } => (
            laws::pool_after_reclaim(p, mem, now),
            laws::mem_after_reclaim(p, mem, now),
        ),
    }
}

/// The owner's handle and the segment after a history.
pub open spec fn after_all(p: PoolView, mem: Seq<u8>, ops: Seq<Op>) -> (PoolView, Seq<u8>)
    decreases ops.len(),
{
    if ops.len() == 0 {
        (p, mem)
    } else {
        let (q, m) = after_all(p, mem, ops.drop_last());
        after_op(q, m, ops.last())
    }
}

/// Every operation of a history is proper.
pub open spec fn all_proper(ops: Seq<Op>) -> bool {
    forall|k: int| 0 <= k < ops.len() ==> proper(#[trigger] ops[k])
}

/// The free list and the slot table agree, and slots that are not leased
/// have the blank identifier.
pub open spec fn sound(p: PoolView, mem: Seq<u8>) -> bool {
    &&& p.consistent(mem)
    &&& forall|i: int|
        0 <= i < p.slot_count ==> ((#[trigger] region::meta(mem, i)).in_use() || (
        region::meta(mem, i).lease_id_high == 0 && region::meta(mem, i).lease_id_low == 0))
}

/// What one operation may do to a slot: `same` says that its payload stays.
pub open spec fn moves(m: SlotMetaView, after: SlotMetaView, same: bool) -> bool {
    let kept = m.generation == after.generation && m.lease_id_high == after.lease_id_high
        && m.lease_id_low == after.lease_id_low && m.in_use() == after.in_use();
    ||| kept && same && m.finalized() == after.finalized() && m.payload_len == after.payload_len
    ||| kept && m.in_use() && !m.finalized() && after.finalized()
    ||| same && m.in_use() && !after.in_use() && after.lease_id_high == 0 && after.lease_id_low
        == 0 && (after.generation == m.generation || after.generation == pool::next_generation(
        m.generation,
    ))
    ||| same && !m.in_use() && after.in_use() && after.generation == pool::next_generation(
        m.generation,
    )
}

/// The payload bytes of slot `j` are the same in both segments.
pub open spec fn same_payload(p: PoolView, a: Seq<u8>, b: Seq<u8>, j: int) -> bool {
    forall|len: int|
        0 <= len <= p.slot_size_bytes ==> #[trigger] region::payload(
            a,
            j,
            p.slot_count as int,
            p.slot_size_bytes as int,
            len,
        ) == region::payload(b, j, p.slot_count as int, p.slot_size_bytes as int, len)
}

/// A change of slot `i`'s metadata alone.
pub proof fn lemma_meta_only(p: PoolView, mem: Seq<u8>, i: int, m: SlotMetaView, j: int)
    requires
        p.fits(mem),
        0 <= i < p.slot_count,
        0 <= j < p.slot_count,
        m.reserved.len() == 32,
    ensures
        region::meta(region::with_meta(mem, i, m), j) == if i == j {
            m
        } else {
            region::meta(mem, j)
        },
        same_payload(p, mem, region::with_meta(mem, i, m), j),
{
    let n = p.slot_count as int;
    let size = p.slot_size_bytes as int;
    region::law_slots_are_independent(mem, i, n, size, m, Seq::empty());
    let after = region::with_meta(mem, i, m);
    assert forall|len: int| 0 <= len <= size implies #[trigger] region::payload(
        mem,
        j,
        n,
        size,
        len,
    ) == region::payload(after, j, n, size, len) by {
        assert(region::payload(after, j, n, size, len) == region::payload(mem, j, n, size, len));
    }
}

/// What a proper operation does to each slot.
proof fn lemma_op_moves(p: PoolView, mem: Seq<u8>, op: Op, j: int)
    requires
        sound(p, mem),
        proper(op),
        0 <= j < p.slot_count,
    ensures
        moves(
            region::meta(mem, j),
            region::meta(after_op(p, mem, op).1, j),
            same_payload(p, mem, after_op(p, mem, op).1, j),
        ),
{
    let n = p.slot_count as int;
    let size = p.slot_size_bytes as int;
    let m = region::meta(mem, j);
    let after = after_op(p, mem, op).1;
    header::lemma_flag_words(m.flags);
    match op {
        Op::Acquire { id, now } => {
            if p.free.len() > 0 {
                laws::law_acquire(p, mem, id, now);
                let slot = p.free[0] as int;
                lemma_meta_only(p, mem, slot, pool::leased(region::meta(mem, slot), id, now), j);
            }
        },
        Op::Write { lease, payload } => {
            if payload.len() <= size && pool::holds(p, mem, lease) && !region::meta(
                mem,
                lease.slot_index as int,
            ).finalized() {
                let i = lease.slot_index as int;
                let w = region::meta(mem, i);
                header::lemma_flag_words(w.flags);
                header::law_layout(i, i, n, size);
                region::law_slots_are_independent(mem, i, n, size, w, payload);
                let mid = region::with_payload(mem, i, n, size, payload);
                let written = pool::written(w, payload.len() as u32);
                lemma_meta_only(p, mid, i, written, j);
                assert(region::meta(mid, j) == m);
                if i != j {
                    assert forall|len: int| 0 <= len <= size implies #[trigger] region::payload(
                        mem,
                        j,
                        n,
                        size,
                        len,
                    ) == region::payload(after, j, n, size, len) by {
                        assert(region::payload(mid, j, n, size, len) == region::payload(
                            mem,
                            j,
                            n,
                            size,
                            len,
                        ));
                    }
                }
            }
        },
        Op::Release { lease } => {
            if pool::holds(p, mem, lease) {
                let i = lease.slot_index as int;
                let w = region::meta(mem, i);
                lemma_meta_only(p, mem, i, SlotMetaView::cleared(w.generation), j);
            }
        },
        Op::Renew { lease, now } => {
            if pool::holds(p, mem, lease) {
                let i = lease.slot_index as int;
                lemma_meta_only(p, mem, i, pool::renewed(region::meta(mem, i), now), j);
            }
        },
        Op::Reclaim { now } => {
            pool::law_sweep(mem, n as nat, n, size, now, p.ttl_micros);
            assert forall|len: int| 0 <= len <= size implies #[trigger] region::payload(
                mem,
                j,
                n,
                size,
                len,
            ) == region::payload(after, j, n, size, len) by {
                assert(region::payload(after, j, n, size, len) == region::payload(
                    mem,
                    j,
                    n,
                    size,
                    len,
                ));
            }
            assert(region::meta(after, j) == if pool::stale(m, now, p.ttl_micros) {
                SlotMetaView::cleared(pool::next_generation(m.generation))
            } else {
                m
            });
        },
    }
}

/// A proper operation keeps the pool sound, and its geometry.
pub proof fn lemma_op_sound(p: PoolView, mem: Seq<u8>, op: Op)
    requires
        sound(p, mem),
        proper(op),
    ensures
        sound(after_op(p, mem, op).0, after_op(p, mem, op).1),
        after_op(p, mem, op).0.slot_count == p.slot_count,
        after_op(p, mem, op).0.slot_size_bytes == p.slot_size_bytes,
        after_op(p, mem, op).0.ttl_micros == p.ttl_micros,
        after_op(p, mem, op).0.owner == p.owner,
{
    let (q, after) = after_op(p, mem, op);
    let n = p.slot_count as int;
    let size = p.slot_size_bytes as int;
    match op {
        Op::Acquire { id, now } => {
            if p.free.len() > 0 {
                laws::law_acquire(p, mem, id, now);
            }
        },
        Op::Write { lease, payload } => {
            if payload.len() <= size && pool::holds(p, mem, lease) {
                laws::law_write_and_renew_keep_the_free_list(p, mem, lease, payload, 0);
            }
        },
        Op::Release { lease } => {
            if pool::holds(p, mem, lease) {
                laws::law_release(p, mem, lease);
            }
        },
        Op::Renew { lease, now } => {
            if pool::holds(p, mem, lease) {
                laws::law_write_and_renew_keep_the_free_list(p, mem, lease, Seq::empty(), now);
            }
        },
        Op::Reclaim { now } => {
            laws::law_reclaim(p, mem, now);
        },
    }
    assert forall|i: int| 0 <= i < q.slot_count implies ((#[trigger] region::meta(
        after,
        i,
    )).in_use() || (region::meta(after, i).lease_id_high == 0 && region::meta(
        after,
        i,
    ).lease_id_low == 0)) by {
        lemma_op_moves(p, mem, op, i);
        assert(region::meta(mem, i).in_use() || region::meta(mem, i).lease_id_high == 0);
    }
}

/// A freshly created pool is sound.
pub proof fn law_new_pool_is_sound(
    mem: Seq<u8>,
    digest: Seq<u8>,
    epoch: u64,
    n: u32,
    size: u32,
    ttl: u64,
)
    requires
        digest.len() == 32,
        header::segment_len(n as int, size as int) <= mem.len() <= usize::MAX,
    ensures
        sound(
            (PoolView {
                slot_count: n,
                slot_size_bytes: size,
                ttl_micros: ttl,
                owner: true,
                free: pool::all_slots(n as nat),
            }),
            region::stamped(mem, region::fresh_header(digest, epoch, n, size, ttl), n as int),
        ),
{
    laws::law_new_pool_is_consistent(mem, digest, epoch, n, size, ttl);
    region::law_stamped(
        mem,
        region::fresh_header(digest, epoch, n, size, ttl),
        n as int,
        size as int,
    );
}

/// Whatever the owner does, in whatever order, the free list and the slot
/// table stay in agreement: no slot is handed out twice, and none gets lost.
pub proof fn law_every_history_is_sound(p: PoolView, mem: Seq<u8>, ops: Seq<Op>)
    requires
        sound(p, mem),
        all_proper(ops),
    ensures
        sound(after_all(p, mem, ops).0, after_all(p, mem, ops).1),
        after_all(p, mem, ops).0.slot_count == p.slot_count,
        after_all(p, mem, ops).0.slot_size_bytes == p.slot_size_bytes,
        after_all(p, mem, ops).0.ttl_micros == p.ttl_micros,
        after_all(p, mem, ops).0.owner == p.owner,
    decreases ops.len(),
{
    if ops.len() > 0 {
        law_every_history_is_sound(p, mem, ops.drop_last());
        let (q, m) = after_all(p, mem, ops.drop_last());
        assert(proper(ops[ops.len() - 1]));
        lemma_op_sound(q, m, ops.last());
    }
}

/// A slot has left the generation of a handle: it is in a later one, or its
/// lease of that generation was released.
pub open spec fn left(m: SlotMetaView, generation: u64) -> bool {
    generation < m.generation || (generation == m.generation && m.lease_id_high == 0
        && m.lease_id_low == 0)
}

/// The segment holds the pool, and the free list names slots of it.
pub open spec fn well_formed(p: PoolView, mem: Seq<u8>) -> bool {
    p.fits(mem) && p.free_in_range()
}

/// Whatever the operation, the pool stays well formed, and a slot that has
/// left a generation does not come back to it.
proof fn lemma_op_leaves(p: PoolView, mem: Seq<u8>, op: Op, i: int, generation: u64)
    requires
        well_formed(p, mem),
        0 <= i < p.slot_count,
        left(region::meta(mem, i), generation),
        region::meta(mem, i).generation < u64::MAX,
    ensures
        ({
            let (q, after) = after_op(p, mem, op);
            &&& well_formed(q, after)
            &&& q.slot_count == p.slot_count
            &&& q.slot_size_bytes == p.slot_size_bytes
            &&& left(region::meta(after, i), generation)
            &&& region::meta(after, i).generation <= region::meta(mem, i).generation + 1
        }),
{
    let n = p.slot_count as int;
    let size = p.slot_size_bytes as int;
    match op {
        Op::Acquire { id, now } => {
            if p.free.len() > 0 {
                let slot = p.free[0] as int;
                laws::lemma_meta_change(
                    p,
                    mem,
                    slot,
                    pool::leased(region::meta(mem, slot), id, now),
                );
                let rest = p.free.drop_first();
                assert(forall|k: int| 0 <= k < rest.len() ==> rest[k] == p.free[k + 1]);
            }
        },
        Op::Write { lease, payload } => {
            if payload.len() <= size && pool::holds(p, mem, lease) && !region::meta(
                mem,
                lease.slot_index as int,
            ).finalized() {
                let j = lease.slot_index as int;
                let w = region::meta(mem, j);
                header::law_layout(j, j, n, size);
                region::law_slots_are_independent(mem, j, n, size, w, payload);
                let mid = region::with_payload(mem, j, n, size, payload);
                laws::lemma_meta_change(p, mid, j, pool::written(w, payload.len() as u32));
                assert(region::meta(mid, i) == region::meta(mem, i));
            }
        },
        Op::Release { lease } => {
            if pool::holds(p, mem, lease) {
                let j = lease.slot_index as int;
                laws::lemma_meta_change(
                    p,
                    mem,
                    j,
                    SlotMetaView::cleared(region::meta(mem, j).generation),
                );
            }
        },
        Op::Renew { lease, now } => {
            if pool::holds(p, mem, lease) {
                let j = lease.slot_index as int;
                header::law_layout(j, j, n, size);
                laws::lemma_meta_change(p, mem, j, pool::renewed(region::meta(mem, j), now));
            }
        },
        Op::Reclaim { now } => {
            pool::law_sweep(mem, n as nat, n, size, now, p.ttl_micros);
            let after = after_op(p, mem, op).1;
            assert(region::meta(after, i) == if pool::stale(
                region::meta(mem, i),
                now,
                p.ttl_micros,
            ) {
                SlotMetaView::cleared(pool::next_generation(region::meta(mem, i).generation))
            } else {
                region::meta(mem, i)
            });
            laws::lemma_stale_slots(mem, n as nat, now, p.ttl_micros);
            let gone = pool::stale_slots(mem, n as nat, now, p.ttl_micros);
            let free = p.free + gone;
            assert forall|k: int| 0 <= k < free.len() implies #[trigger] free[k] < p.slot_count by {
                if k >= p.free.len() {
                    assert(gone.contains(gone[k - p.free.len()]));
                }
            }
        },
    }
}

/// A handle that is stale stays stale, whatever is done to the pool and
/// under whatever leases, as long as the slot's generation does not pass its
/// limit: its lease never holds the slot again, and its descriptor never
/// reads anything.
pub proof fn law_stale_handles_stay_stale(
    p: PoolView,
    mem: Seq<u8>,
    ops: Seq<Op>,
    lease: Lease,
    d: Descriptor,
)
    requires
        well_formed(p, mem),
        lease.slot_index < p.slot_count,
        left(region::meta(mem, lease.slot_index as int), lease.generation),
        region::meta(mem, lease.slot_index as int).generation + ops.len() <= u64::MAX,
        lease.lease_id != blank(),
        d.slot_index == lease.slot_index,
        d.lease_id == lease.lease_id,
        d.generation == lease.generation,
    ensures
        ({
            let (q, after) = after_all(p, mem, ops);
            let i = lease.slot_index as int;
            &&& well_formed(q, after)
            &&& q.slot_count == p.slot_count
            &&& q.slot_size_bytes == p.slot_size_bytes
            &&& left(region::meta(after, i), lease.generation)
            &&& region::meta(after, i).generation <= region::meta(mem, i).generation + ops.len()
            &&& !pool::holds(q, after, lease)
            &&& !pool::readable(q, after, d)
        }),
    decreases ops.len(),
{
    if ops.len() > 0 {
        law_stale_handles_stay_stale(p, mem, ops.drop_last(), lease, d);
        let (q, m) = after_all(p, mem, ops.drop_last());
        lemma_op_leaves(q, m, ops.last(), lease.slot_index as int, lease.generation);
    }
}

/// Releasing a live lease ends it for good. One slot fewer is in use, and it
/// is listed to be leased again; its generation and all other slots are as
/// they were. From then on, before the slot is leased anew and after,
/// whatever is done to the pool, the lease is refused, and so is every
/// descriptor that was written under it: as stale.
pub proof fn law_a_released_lease_is_over(
    p: PoolView,
    mem: Seq<u8>,
    lease: Lease,
    ops: Seq<Op>,
    d: Descriptor,
    e: TesseraPoolError,
)
    requires
        well_formed(p, mem),
        pool::holds(p, mem, lease),
        region::meta(mem, lease.slot_index as int).in_use(),
        lease.lease_id != blank(),
        d.slot_index == lease.slot_index,
        d.lease_id == lease.lease_id,
        d.generation == lease.generation,
        lease.generation + ops.len() <= u64::MAX,
    ensures
        ({
            let n = p.slot_count as int;
            let size = p.slot_size_bytes as int;
            let i = lease.slot_index as int;
            let (q, after) = after_op(p, mem, Op::Release { lease });
            &&& q == laws::pool_after_release(p, lease)
            &&& q.free.contains(lease.slot_index)
            &&& pool::in_use_among(after, n as nat) + 1 == pool::in_use_among(mem, n as nat)
            &&& !region::meta(after, i).in_use()
            &&& region::meta(after, i).generation == region::meta(mem, i).generation
            &&& forall|j: int|
                0 <= j < n && j != i ==> #[trigger] region::meta(after, j) == region::meta(mem, j)
            &&& forall|j: int| 0 <= j < n ==> #[trigger] same_payload(p, mem, after, j)
            &&& after.len() == mem.len()
        }),
        ({
            let (q, after) = after_op(p, mem, Op::Release { lease });
            let (r, later) = after_all(q, after, ops);
            let m = region::meta(later, lease.slot_index as int);
            &&& !pool::holds(r, later, lease)
            &&& !pool::readable(r, later, d)
            &&& pool::lease_refused_with(r, later, lease, e) <==> e == (
            TesseraPoolError::StaleHandle {
                slot_index: lease.slot_index,
                descriptor_generation: lease.generation,
                current_generation: m.generation,
            })
            &&& pool::read_refused_with(r, later, d, e) <==> pool::is_stale(e, m, d)
        }),
{
    let i = lease.slot_index as int;
    let n = p.slot_count as int;
    let w = SlotMetaView::cleared(region::meta(mem, i).generation);
    let (q, after) = after_op(p, mem, Op::Release { lease });
    laws::lemma_meta_change(p, mem, i, w);
    header::lemma_flag_words(0);
    assert(q.free[p.free.len() as int] == lease.slot_index);
    assert forall|j: int| 0 <= j < n implies #[trigger] same_payload(p, mem, after, j) by {
        lemma_meta_only(p, mem, i, w, j);
    }
    lemma_one_less(mem, after, n as nat, i);
    law_stale_handles_stay_stale(q, after, ops, lease, d);
}

/// Of two segments that differ in one slot, which is in use in the first
/// alone, the second has one slot fewer in use.
proof fn lemma_one_less(a: Seq<u8>, b: Seq<u8>, k: nat, i: int)
    requires
        0 <= i,
        region::meta(a, i).in_use(),
        !region::meta(b, i).in_use(),
        forall|j: int|
            0 <= j < k && j != i ==> #[trigger] region::meta(b, j) == region::meta(a, j),
    ensures
        pool::in_use_among(a, k) == pool::in_use_among(b, k) + if i < k {
            1nat
        } else {
            0nat
        },
    decreases k,
{
    if k > 0 {
        lemma_one_less(a, b, (k - 1) as nat, i);
        if i != k - 1 {
            assert(region::meta(b, k - 1) == region::meta(a, k - 1));
        }
    }
}

/// A written payload is what its descriptor reads, or the descriptor is
/// refused: whatever the owner does after the write, as long as the slot's
/// generation does not pass its limit, the descriptor reads either the very
/// bytes that were written, or nothing at all.
pub proof fn law_a_descriptor_reads_its_payload_or_nothing(
    p: PoolView,
    mem: Seq<u8>,
    ops: Seq<Op>,
    d: Descriptor,
)
    requires
        sound(p, mem),
        all_proper(ops),
        pool::readable(p, mem, d),
        region::meta(mem, d.slot_index as int).finalized(),
        region::meta(mem, d.slot_index as int).generation + ops.len() <= u64::MAX,
        d.lease_id != blank(),
    ensures
        ({
            let (q, after) = after_all(p, mem, ops);
            let m = region::meta(after, d.slot_index as int);
            &&& pool::readable(q, after, d) ==> pool::payload_of(q, after, d) == pool::payload_of(
                p,
                mem,
                d,
            )
            &&& !pool::readable(q, after, d) ==> left(m, d.generation)
        }),
{
    lemma_read_or_left(p, mem, ops, d);
    law_every_history_is_sound(p, mem, ops);
    let (q, after) = after_all(p, mem, ops);
    let i = d.slot_index as int;
    assert(region::meta(after, i).in_use() || region::meta(after, i).lease_id_high == 0);
}

/// Over a history a finalized slot stays as it was, or leaves its
/// generation.
proof fn lemma_read_or_left(p: PoolView, mem: Seq<u8>, ops: Seq<Op>, d: Descriptor)
    requires
        sound(p, mem),
        all_proper(ops),
        pool::readable(p, mem, d),
        region::meta(mem, d.slot_index as int).finalized(),
        region::meta(mem, d.slot_index as int).generation + ops.len() <= u64::MAX,
        d.lease_id != blank(),
    ensures
        ({
            let (q, after) = after_all(p, mem, ops);
            let m = region::meta(after, d.slot_index as int);
            &&& m.generation <= d.generation + ops.len()
            &&& left(m, d.generation) || (pool::readable(q, after, d) && m.finalized()
                && pool::payload_of(q, after, d) == pool::payload_of(p, mem, d))
        }),
    decreases ops.len(),
{
    let i = d.slot_index as int;
    assert(region::meta(mem, i).in_use());
    if ops.len() > 0 {
        lemma_read_or_left(p, mem, ops.drop_last(), d);
        law_every_history_is_sound(p, mem, ops.drop_last());
        let (q, m) = after_all(p, mem, ops.drop_last());
        assert(proper(ops[ops.len() - 1]));
        lemma_op_moves(q, m, ops.last(), i);
        lemma_op_sound(q, m, ops.last());
        let (r, after) = after_op(q, m, ops.last());
        if !left(region::meta(m, i), d.generation) {
            assert(region::meta(m, i).in_use());
            if !left(region::meta(after, i), d.generation) {
                assert(same_payload(q, m, after, i));
                assert(pool::payload_of(q, m, d) == pool::payload_of(r, after, d));
            }
        }
    }
}

/// A copy that is judged good is the payload that was written: if the slot
/// was the descriptor's before the copy and is after it, then whatever was
/// done to the pool before the bytes were copied and after, they are the
/// written ones.
pub proof fn law_a_copy_judged_good_is_the_payload(
    p: PoolView,
    mem: Seq<u8>,
    before: Seq<Op>,
    after: Seq<Op>,
    d: Descriptor,
)
    requires
        sound(p, mem),
        all_proper(before),
        all_proper(after),
        pool::readable(p, mem, d),
        region::meta(mem, d.slot_index as int).finalized(),
        region::meta(mem, d.slot_index as int).generation + before.len() + after.len()
            <= u64::MAX,
        d.lease_id != blank(),
        ({
            let (q, then) = after_all(p, mem, before);
            pool::belongs_to(
                region::meta(after_all(q, then, after).1, d.slot_index as int),
                d.lease_id,
                d.generation,
            )
        }),
    ensures
        ({
            let (q, then) = after_all(p, mem, before);
            pool::payload_of(q, then, d) == pool::payload_of(p, mem, d)
        }),
{
    let (q, then) = after_all(p, mem, before);
    law_every_history_is_sound(p, mem, before);
    law_a_descriptor_reads_its_payload_or_nothing(p, mem, before, d);
    lemma_read_or_left(p, mem, before, d);
    if !pool::readable(q, then, d) {
        let lease = Lease {
            slot_index: d.slot_index,
            lease_id: d.lease_id,
            generation: d.generation,
        };
        law_stale_handles_stay_stale(q, then, after, lease, d);
    }
}

} // verus!
