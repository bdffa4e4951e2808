//! What holds of the pool as a whole.
use vstd::prelude::*;

use crate::pool::flags;
use crate::pool::header;
use crate::pool::header::SlotMetaView;
use crate::pool::pool;
use crate::pool::pool::PoolView;
use crate::pool::region;
use crate::pool::{Descriptor, Lease, LeaseId};

verus! {

/// The pool after the slot at the head of the free list was leased.
pub open spec fn pool_after_acquire(p: PoolView) -> PoolView {
    PoolView { free: p.free.drop_first(), ..p }
}

/// The segment after the slot at the head of the free list was leased.
pub open spec fn mem_after_acquire(p: PoolView, mem: Seq<u8>, id: LeaseId, now: u64) -> Seq<u8> {
    let slot = p.free[0] as int;
    region::with_meta(mem, slot, pool::leased(region::meta(mem, slot), id, now))
}

/// The lease that an acquire hands out.
pub open spec fn acquired_lease(p: PoolView, mem: Seq<u8>, id: LeaseId) -> Lease {
    Lease {
        slot_index: p.free[0],
        lease_id: id,
        generation: pool::next_generation(region::meta(mem, p.free[0] as int).generation),
    }
}

/// The pool after a lease was released.
pub open spec fn pool_after_release(p: PoolView, lease: Lease) -> PoolView {
    PoolView { free: p.free.push(lease.slot_index), ..p }
}

/// The segment after a lease was released.
pub open spec fn mem_after_release(mem: Seq<u8>, lease: Lease) -> Seq<u8> {
    let i = lease.slot_index as int;
    region::with_meta(mem, i, SlotMetaView::cleared(region::meta(mem, i).generation))
}

/// The segment after a lease was renewed.
pub open spec fn mem_after_renew(mem: Seq<u8>, lease: Lease, now: u64) -> Seq<u8> {
    let i = lease.slot_index as int;
    region::with_meta(mem, i, pool::renewed(region::meta(mem, i), now))
}

/// The pool after a sweep.
pub open spec fn pool_after_reclaim(p: PoolView, mem: Seq<u8>, now: u64) -> PoolView {
    PoolView {
        free: p.free + pool::stale_slots(mem, p.slot_count as nat, now, p.ttl_micros),
        ..p
    }
}

/// The segment after a sweep.
pub open spec fn mem_after_reclaim(p: PoolView, mem: Seq<u8>, now: u64) -> Seq<u8> {
    pool::swept(mem, p.slot_count as nat, now, p.ttl_micros)
}

/// Effect of replacing one slot's metadata.
pub proof fn lemma_meta_change(p: PoolView, mem: Seq<u8>, i: int, m: SlotMetaView)
    requires
        p.fits(mem),
        0 <= i < p.slot_count,
        m.reserved.len() == 32,
    ensures
        region::with_meta(mem, i, m).len() == mem.len(),
        region::meta(region::with_meta(mem, i, m), i) == m,
        forall|j: int|
            0 <= j < p.slot_count && j != i ==> region::meta(region::with_meta(mem, i, m), j)
                == region::meta(mem, j),
{
    region::law_slots_are_independent(
        mem,
        i,
        p.slot_count as int,
        p.slot_size_bytes as int,
        m,
        Seq::empty(),
    );
}

/// A freshly created pool has every slot free and listed.
pub proof fn law_new_pool_is_consistent(
    mem: Seq<u8>,
    digest: Seq<u8>,
    epoch: u64,
    n: u32,
    size: u32,
    ttl: u64,
)
    requires
        digest.len() == 32,
        header::segment_len(n as int, size as int) <= mem.len() <= usize::MAX,
    ensures
        (PoolView {
            slot_count: n,
            slot_size_bytes: size,
            ttl_micros: ttl,
            owner: true,
            free: pool::all_slots(n as nat),
        }).consistent(
            region::stamped(mem, region::fresh_header(digest, epoch, n, size, ttl), n as int),
        ),
{
    let h = region::fresh_header(digest, epoch, n, size, ttl);
    region::law_stamped(mem, h, n as int, size as int);
    header::lemma_flag_words(0);
    let free = pool::all_slots(n as nat);
    assert forall|i: u32| i < n implies (#[trigger] free.contains(i) <==> !region::meta(
        region::stamped(mem, h, n as int),
        i as int,
    ).in_use()) by {
        assert(free[i as int] == i);
    }
}

/// An acquire takes a slot that was free, marks it in use under the lease it
/// hands out, and keeps the free list and the slot table in agreement.
pub proof fn law_acquire(p: PoolView, mem: Seq<u8>, id: LeaseId, now: u64)
    requires
        p.consistent(mem),
        p.free.len() > 0,
    ensures
        !region::meta(mem, p.free[0] as int).in_use(),
        region::meta(mem_after_acquire(p, mem, id, now), p.free[0] as int).in_use(),
        !region::meta(mem_after_acquire(p, mem, id, now), p.free[0] as int).finalized(),
        pool::holds(
            pool_after_acquire(p),
            mem_after_acquire(p, mem, id, now),
            acquired_lease(p, mem, id),
        ),
        pool_after_acquire(p).consistent(mem_after_acquire(p, mem, id, now)),
{
    let slot = p.free[0];
    let m = pool::leased(region::meta(mem, slot as int), id, now);
    assert(p.free.contains(slot));
    lemma_meta_change(p, mem, slot as int, m);
    header::lemma_flag_words(0);
    let rest = p.free.drop_first();
    let after = mem_after_acquire(p, mem, id, now);
    assert(forall|k: int| 0 <= k < rest.len() ==> rest[k] == p.free[k + 1]);
    assert forall|i: u32| i < p.slot_count implies (#[trigger] rest.contains(i) <==> !region::meta(
        after,
        i as int,
    ).in_use()) by {
        if rest.contains(i) {
            let k = choose|k: int| 0 <= k < rest.len() && rest[k] == i;
            assert(p.free[k + 1] == i);
            assert(p.free.contains(i));
        }
        if i != slot && p.free.contains(i) {
            let k = choose|k: int| 0 <= k < p.free.len() && p.free[k] == i;
            assert(rest[k - 1] == i);
        }
    }
}

/// A slot that is in use is never handed out again: the slot of an acquire
/// differs from that of every lease in use.
pub proof fn law_leases_have_distinct_slots(p: PoolView, mem: Seq<u8>, lease: Lease)
    requires
        p.consistent(mem),
        p.free.len() > 0,
        pool::holds(p, mem, lease),
        region::meta(mem, lease.slot_index as int).in_use(),
    ensures
        p.free[0] != lease.slot_index,
{
    assert(p.free.contains(p.free[0]));
}

/// Releasing a lease that is in use lists its slot again and keeps the free
/// list and the slot table in agreement.
pub proof fn law_release(p: PoolView, mem: Seq<u8>, lease: Lease)
    requires
        p.consistent(mem),
        pool::holds(p, mem, lease),
        region::meta(mem, lease.slot_index as int).in_use(),
    ensures
        !region::meta(mem_after_release(mem, lease), lease.slot_index as int).in_use(),
        pool_after_release(p, lease).consistent(mem_after_release(mem, lease)),
{
    let slot = lease.slot_index;
    lemma_meta_change(
        p,
        mem,
        slot as int,
        SlotMetaView::cleared(region::meta(mem, slot as int).generation),
    );
    header::lemma_flag_words(0);
    let free = p.free.push(slot);
    let after = mem_after_release(mem, lease);
    assert(!p.free.contains(slot));
    assert forall|i: u32| i < p.slot_count implies (#[trigger] free.contains(i) <==> !region::meta(
        after,
        i as int,
    ).in_use()) by {
        if free.contains(i) && i != slot {
            let k = choose|k: int| 0 <= k < free.len() && free[k] == i;
            assert(p.free[k] == i);
            assert(p.free.contains(i));
        }
        if p.free.contains(i) {
            let k = choose|k: int| 0 <= k < p.free.len() && p.free[k] == i;
            assert(free[k] == i);
        }
        if i == slot {
            assert(free[p.free.len() as int] == slot);
        }
    }
}

/// Writing and renewing keep the free list and the slot table in agreement.
pub proof fn law_write_and_renew_keep_the_free_list(
    p: PoolView,
    mem: Seq<u8>,
    lease: Lease,
    b: Seq<u8>,
    now: u64,
)
    requires
        p.consistent(mem),
        pool::holds(p, mem, lease),
        b.len() <= p.slot_size_bytes,
    ensures
        p.consistent(pool::after_write(p, mem, lease, b)),
        p.consistent(mem_after_renew(mem, lease, now)),
{
    let i = lease.slot_index as int;
    let n = p.slot_count as int;
    let size = p.slot_size_bytes as int;
    let m = region::meta(mem, i);
    header::lemma_flag_words(m.flags);
    header::law_layout(i, i, n, size);
    assert(m.reserved.len() == 32);
    region::law_slots_are_independent(mem, i, n, size, m, b);
    let mid = region::with_payload(mem, i, n, size, b);
    lemma_meta_change(p, mid, i, pool::written(m, b.len() as u32));
    lemma_meta_change(p, mem, i, pool::renewed(m, now));
    let after = pool::after_write(p, mem, lease, b);
    let after2 = mem_after_renew(mem, lease, now);
    assert forall|j: u32| j < p.slot_count implies (#[trigger] p.free.contains(j)
        <==> !region::meta(after, j as int).in_use()) by {
        assert(region::meta(mid, j as int) == region::meta(mem, j as int));
    }
    assert forall|j: u32| j < p.slot_count implies (#[trigger] p.free.contains(j)
        <==> !region::meta(after2, j as int).in_use()) by {}
}

/// What a sweep lists: exactly the stale slots, each once.
pub proof fn lemma_stale_slots(mem: Seq<u8>, k: nat, now: u64, ttl: u64)
    requires
        k <= u32::MAX,
    ensures
        pool::stale_slots(mem, k, now, ttl).no_duplicates(),
        forall|i: u32|
            #[trigger] pool::stale_slots(mem, k, now, ttl).contains(i) <==> i < k && pool::stale(
                region::meta(mem, i as int),
                now,
                ttl,
            ),
    decreases k,
{
    if k > 0 {
        let before = pool::stale_slots(mem, (k - 1) as nat, now, ttl);
        let after = pool::stale_slots(mem, k, now, ttl);
        lemma_stale_slots(mem, (k - 1) as nat, now, ttl);
        let last = (k - 1) as u32;
        assert(!before.contains(last));
        assert forall|i: u32| #[trigger] after.contains(i) <==> i < k && pool::stale(
            region::meta(mem, i as int),
            now,
            ttl,
        ) by {
            if after.contains(i) {
                let q = choose|q: int| 0 <= q < after.len() && after[q] == i;
                if q < before.len() {
                    assert(before[q] == i);
                    assert(before.contains(i));
                }
            }
            if before.contains(i) {
                let q = choose|q: int| 0 <= q < before.len() && before[q] == i;
                assert(after[q] == i);
            }
            if i == last && pool::stale(region::meta(mem, i as int), now, ttl) {
                assert(after[before.len() as int] == i);
            }
        }
    }
}

/// A sweep lists exactly the slots it freed and keeps the free list and the
/// slot table in agreement.
pub proof fn law_reclaim(p: PoolView, mem: Seq<u8>, now: u64)
    requires
        p.consistent(mem),
    ensures
        pool_after_reclaim(p, mem, now).consistent(mem_after_reclaim(p, mem, now)),
{
    let n = p.slot_count as nat;
    let gone = pool::stale_slots(mem, n, now, p.ttl_micros);
    let after = mem_after_reclaim(p, mem, now);
    let free = p.free + gone;
    lemma_stale_slots(mem, n, now, p.ttl_micros);
    pool::law_sweep(mem, n, n as int, p.slot_size_bytes as int, now, p.ttl_micros);
    header::lemma_flag_words(0);
    assert forall|k: int| 0 <= k < free.len() implies #[trigger] free[k] < p.slot_count by {
        if k >= p.free.len() {
            assert(gone.contains(gone[k - p.free.len()]));
        }
    }
    assert forall|i: u32| i < p.slot_count implies (#[trigger] free.contains(i) <==> !region::meta(
        after,
        i as int,
    ).in_use()) by {
        if free.contains(i) {
            let k = choose|k: int| 0 <= k < free.len() && free[k] == i;
            if k < p.free.len() {
                assert(p.free.contains(i));
            } else {
                assert(gone[k - p.free.len()] == i);
                assert(gone.contains(i));
            }
        }
        if p.free.contains(i) {
            let k = choose|k: int| 0 <= k < p.free.len() && p.free[k] == i;
            assert(free[k] == i);
        }
        if gone.contains(i) {
            let k = choose|k: int| 0 <= k < gone.len() && gone[k] == i;
            assert(free[p.free.len() + k] == i);
        }
    }
    assert forall|a: int, b: int| 0 <= a < free.len() && 0 <= b < free.len() && a != b implies free[a]
        != free[b] by {
        let la = p.free.len();
        if a < la {
            assert(p.free.contains(free[a]));
        } else {
            assert(gone.contains(gone[a - la]));
        }
        if b < la {
            assert(p.free.contains(free[b]));
        } else {
            assert(gone.contains(gone[b - la]));
        }
    }
}

/// The free indices below `k`.
spec fn free_below(p: PoolView, k: nat) -> Set<u32> {
    Set::new(|i: u32| i < k && p.free.contains(i))
}

proof fn lemma_free_below(p: PoolView, mem: Seq<u8>, k: nat)
    requires
        p.consistent(mem),
        k <= p.slot_count,
    ensures
        free_below(p, k).finite(),
        free_below(p, k).len() + pool::in_use_among(mem, k) == k,
    decreases k,
{
    if k == 0 {
        assert(free_below(p, 0) =~= Set::empty());
    } else {
        let j = (k - 1) as nat;
        lemma_free_below(p, mem, j);
        let i = j as u32;
        if p.free.contains(i) {
            assert(free_below(p, k) =~= free_below(p, j).insert(i));
        } else {
            assert(free_below(p, k) =~= free_below(p, j));
        }
    }
}

/// Every slot is either free or in use: the two counts add up to the number
/// of slots.
pub proof fn law_slots_are_accounted_for(p: PoolView, mem: Seq<u8>)
    requires
        p.consistent(mem),
    ensures
        p.free.len() + pool::in_use_among(mem, p.slot_count as nat) == p.slot_count,
{
    let n = p.slot_count as nat;
    lemma_free_below(p, mem, n);
    p.free.unique_seq_to_set();
    assert(p.free.to_set() =~= free_below(p, n));
}

/// What was written under a lease is what its descriptor reads.
pub proof fn law_read_gives_back_the_write(p: PoolView, mem: Seq<u8>, lease: Lease, b: Seq<u8>)
    requires
        p.fits(mem),
        pool::holds(p, mem, lease),
        b.len() <= p.slot_size_bytes,
    ensures
        pool::readable(
            p,
            pool::after_write(p, mem, lease, b),
            pool::descriptor_of(lease, b.len() as u32),
        ),
        pool::payload_of(
            p,
            pool::after_write(p, mem, lease, b),
            pool::descriptor_of(lease, b.len() as u32),
        ) == b,
{
    let i = lease.slot_index as int;
    let n = p.slot_count as int;
    let size = p.slot_size_bytes as int;
    let m = region::meta(mem, i);
    header::law_layout(i, i, n, size);
    region::law_slots_are_independent(mem, i, n, size, m, b);
    let mid = region::with_payload(mem, i, n, size, b);
    region::law_slots_are_independent(mid, i, n, size, pool::written(m, b.len() as u32), b);
}

/// A lease writes once: after a write it still holds its slot, and the slot
/// is finalized, so that a second write is refused.
pub proof fn law_write_is_one_shot(p: PoolView, mem: Seq<u8>, lease: Lease, b: Seq<u8>)
    requires
        p.fits(mem),
        pool::holds(p, mem, lease),
        b.len() <= p.slot_size_bytes,
    ensures
        pool::holds(p, pool::after_write(p, mem, lease, b), lease),
        region::meta(pool::after_write(p, mem, lease, b), lease.slot_index as int).finalized(),
{
    let i = lease.slot_index as int;
    let n = p.slot_count as int;
    let size = p.slot_size_bytes as int;
    let m = region::meta(mem, i);
    header::law_layout(i, i, n, size);
    region::law_slots_are_independent(mem, i, n, size, m, b);
    let mid = region::with_payload(mem, i, n, size, b);
    lemma_meta_change(p, mid, i, pool::written(m, b.len() as u32));
    header::lemma_flag_words(m.flags);
}

/// After a release the lease and its descriptors are stale, unless their
/// identifier is zero, as that of a free slot is.
pub proof fn law_release_makes_handles_stale(p: PoolView, mem: Seq<u8>, lease: Lease, d: Descriptor)
    requires
        p.fits(mem),
        pool::holds(p, mem, lease),
        lease.lease_id != (LeaseId { high: 0, low: 0 }),
        d.slot_index == lease.slot_index,
        d.lease_id == lease.lease_id,
    ensures
        !pool::holds(p, mem_after_release(mem, lease), lease),
        !pool::readable(p, mem_after_release(mem, lease), d),
{
    let i = lease.slot_index as int;
    lemma_meta_change(p, mem, i, SlotMetaView::cleared(region::meta(mem, i).generation));
}

/// After a slot is leased anew, every lease and descriptor of its previous
/// generation is stale.
pub proof fn law_reacquire_makes_handles_stale(
    p: PoolView,
    mem: Seq<u8>,
    id: LeaseId,
    now: u64,
    lease: Lease,
    d: Descriptor,
)
    requires
        p.consistent(mem),
        p.free.len() > 0,
        lease.slot_index == p.free[0],
        lease.generation == region::meta(mem, p.free[0] as int).generation,
        d.slot_index == lease.slot_index,
        d.generation == lease.generation,
    ensures
        !pool::holds(p, mem_after_acquire(p, mem, id, now), lease),
        !pool::readable(p, mem_after_acquire(p, mem, id, now), d),
{
    law_acquire(p, mem, id, now);
    let slot = p.free[0] as int;
    lemma_meta_change(p, mem, slot, pool::leased(region::meta(mem, slot), id, now));
}

/// After a sweep every handle of a lease that had outlived its time to live
/// is stale.
pub proof fn law_reclaim_makes_handles_stale(
    p: PoolView,
    mem: Seq<u8>,
    now: u64,
    lease: Lease,
    d: Descriptor,
)
    requires
        p.fits(mem),
        pool::holds(p, mem, lease),
        pool::stale(region::meta(mem, lease.slot_index as int), now, p.ttl_micros),
        d.slot_index == lease.slot_index,
        d.generation == lease.generation,
    ensures
        !pool::holds(p, mem_after_reclaim(p, mem, now), lease),
        !pool::readable(p, mem_after_reclaim(p, mem, now), d),
{
    let n = p.slot_count as nat;
    pool::law_sweep(mem, n, n as int, p.slot_size_bytes as int, now, p.ttl_micros);
    assert(region::meta(mem_after_reclaim(p, mem, now), lease.slot_index as int)
        == SlotMetaView::cleared(pool::next_generation(lease.generation)));
}

/// A lease that was renewed within its time to live survives a sweep, and
/// its payload with it.
pub proof fn law_renewed_lease_survives(
    p: PoolView,
    mem: Seq<u8>,
    lease: Lease,
    renewed_at: u64,
    now: u64,
    d: Descriptor,
)
    requires
        p.fits(mem),
        pool::holds(p, mem, lease),
        now - renewed_at <= p.ttl_micros,
        pool::readable(p, mem, d),
        d.slot_index == lease.slot_index,
    ensures
        pool::holds(p, mem_after_reclaim(p, mem_after_renew(mem, lease, renewed_at), now), lease),
        pool::readable(p, mem_after_reclaim(p, mem_after_renew(mem, lease, renewed_at), now), d),
        pool::payload_of(p, mem_after_reclaim(p, mem_after_renew(mem, lease, renewed_at), now), d)
            == pool::payload_of(p, mem, d),
{
    let i = lease.slot_index as int;
    let n = p.slot_count as int;
    let size = p.slot_size_bytes as int;
    let m = region::meta(mem, i);
    header::law_layout(i, i, n, size);
    region::law_slots_are_independent(
        mem,
        i,
        n,
        size,
        pool::renewed(m, renewed_at),
        Seq::empty(),
    );
    let mid = mem_after_renew(mem, lease, renewed_at);
    pool::law_sweep(mid, n as nat, n, size, now, p.ttl_micros);
    let after = mem_after_reclaim(p, mid, now);
    assert(region::meta(after, i) == region::meta(mid, i));
    assert(region::payload(after, i, n, size, d.size_bytes as int) == region::payload(
        mid,
        i,
        n,
        size,
        d.size_bytes as int,
    ));
}

/// What is done under one lease, or at the head of the free list, leaves the
/// leases, descriptors and payloads of other slots as they are.
pub proof fn law_other_slots_are_untouched(
    p: PoolView,
    mem: Seq<u8>,
    i: int,
    m: SlotMetaView,
    b: Seq<u8>,
    lease: Lease,
    d: Descriptor,
)
    requires
        p.fits(mem),
        0 <= i < p.slot_count,
        m.reserved.len() == 32,
        b.len() <= p.slot_size_bytes,
        lease.slot_index != i,
        lease.slot_index < p.slot_count,
        d.slot_index == lease.slot_index,
        d.size_bytes <= p.slot_size_bytes,
    ensures
        ({
            let n = p.slot_count as int;
            let size = p.slot_size_bytes as int;
            let after = region::with_meta(region::with_payload(mem, i, n, size, b), i, m);
            &&& pool::holds(p, after, lease) == pool::holds(p, mem, lease)
            &&& pool::readable(p, after, d) == pool::readable(p, mem, d)
            &&& pool::payload_of(p, after, d) == pool::payload_of(p, mem, d)
        }),
{
    let n = p.slot_count as int;
    let size = p.slot_size_bytes as int;
    let j = lease.slot_index as int;
    let mid = region::with_payload(mem, i, n, size, b);
    region::law_slots_are_independent(mem, i, n, size, m, b);
    region::law_slots_are_independent(mid, i, n, size, m, b);
    let after = region::with_meta(mid, i, m);
    assert(region::meta(after, j) == region::meta(mid, j));
    assert(region::meta(mid, j) == region::meta(mem, j));
    assert(region::payload(after, j, n, size, d.size_bytes as int) == region::payload(
        mid,
        j,
        n,
        size,
        d.size_bytes as int,
    ));
}

} // verus!
