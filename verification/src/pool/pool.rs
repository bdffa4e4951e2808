//! The pool's state machine.
//!
//! All changes to the slot table are made here, by the owner. Each
//! operation is given the mapped bytes, and the clock readings and random
//! bytes it needs.
use vstd::prelude::*;

use crossbeam_queue::SegQueue;

use crate::bytes;
use crate::bytes::{push_le, read_array};
use crate::pool::error;
use crate::pool::error::{Result, TesseraPoolError};
use crate::pool::flags;
use crate::pool::free_list;
use crate::pool::free_list::{queue_new, queue_pop, queue_push};
use crate::pool::header;
use crate::pool::header::{Header, HeaderView, SlotMeta, SlotMetaView};
use crate::pool::history;
use crate::pool::laws;
use crate::pool::namespace;
use crate::pool::namespace::NamespaceHandle;
use crate::pool::region;
use crate::pool::region::Region;
use crate::pool::{Descriptor, Lease, LeaseId};
use crate::text;

verus! {

/// How long to wait between two attempts to acquire a slot.
pub const ACQUIRE_POLL_MILLIS: u64 = 5;

/// Construction parameters of a pool.
#[derive(Clone, Debug)]
pub struct PoolConfig {
    /// Names the segment: processes with the same description meet there.
    pub description: String,
    /// Number of slots.
    pub slot_count: u32,
    /// Bytes per slot.
    pub slot_size_bytes: u32,
    /// Create the segment, as opposed to attaching to it.
    pub is_owner: bool,
    /// Time to live of a lease. Attachers take the owner's from the header.
    pub ttl_micros: u64,
    /// Owner only: remove an existing segment of that name. The caller
    /// asserts that its owner is gone.
    pub force_recreate: bool,
}

/// How to get at the segment of a pool.
#[derive(Debug)]
pub enum OpenPlan {
    /// Create a segment of this name and size.
    Create {
        /// Segment name.
        name: String,
        /// Segment size in bytes.
        size: usize,
    },
    /// Open the segment of this name.
    Attach {
        /// Segment name.
        name: String,
    },
}

/// Why a configuration is refused, where it is.
pub open spec fn config_refusal(c: PoolConfig) -> Option<Seq<char>> {
    if c.description@.len() == 0 {
        Some("description must be non-empty"@)
    } else if c.slot_count == 0 {
        Some("slot_count must be > 0"@)
    } else if c.slot_size_bytes == 0 {
        Some("slot_size_bytes must be > 0"@)
    } else if c.is_owner && c.ttl_micros == 0 {
        Some("ttl_micros must be > 0 for owner Pool"@)
    } else if c.is_owner {
        region::geometry_refusal(c.slot_count, c.slot_size_bytes)
    } else {
        None
    }
}

/// Name of the segment that a configuration leads to.
pub open spec fn config_name(c: PoolConfig) -> Seq<char> {
    namespace::shm_name_of(crate::namespace::description_digest(c.description@))
}

impl PoolConfig {
    /// Checks the configuration and says how to get at the segment.
    pub fn plan(&self) -> (r: Result<OpenPlan>)
        ensures
            match config_refusal(*self) {
                Some(words) => r matches Err(e) && error::is_config(e, words),
                None => if self.is_owner {
                    r matches Ok(OpenPlan::Create { name, size }) && name@ == config_name(*self)
                        && size == header::segment_len(
                        self.slot_count as int,
                        self.slot_size_bytes as int,
                    )
                } else {
                    r matches Ok(OpenPlan::Attach { name }) && name@ == config_name(*self)
                },
            },
    {
        if self.description.as_str().is_empty() {
            return Err(TesseraPoolError::Config(String::from_str("description must be non-empty")));
        }
        if self.slot_count == 0 {
            return Err(TesseraPoolError::Config(String::from_str("slot_count must be > 0")));
        }
        if self.slot_size_bytes == 0 {
            return Err(TesseraPoolError::Config(String::from_str("slot_size_bytes must be > 0")));
        }
        if self.is_owner && self.ttl_micros == 0 {
            return Err(
                TesseraPoolError::Config(String::from_str("ttl_micros must be > 0 for owner Pool")),
            );
        }
        let name = NamespaceHandle::derive(self.description.as_str()).shm_name();
        if self.is_owner {
            match Region::plan_create(self.slot_count, self.slot_size_bytes) {
                Ok(size) => Ok(OpenPlan::Create { name, size }),
                Err(e) => Err(e),
            }
        } else {
            Ok(OpenPlan::Attach { name })
        }
    }
}

/// What only the owner keeps, in its own memory.
#[derive(Debug)]
struct OwnerState {
    /// Free slots. Acquire takes from the front; release and reclaim add
    /// at the back.
    free_slots: SegQueue<u32>,
}

/// Lease-backed pool over a shared segment.
#[derive(Debug)]
pub struct Pool {
    region: Region,
    owner_state: Option<OwnerState>,
    ttl_micros: u64,
}

/// What a pool handle knows.
#[verifier::ext_equal]
pub struct PoolView {
    /// Number of slots.
    pub slot_count: u32,
    /// Bytes per slot.
    pub slot_size_bytes: u32,
    /// Time to live of a lease.
    pub ttl_micros: u64,
    /// This handle owns the pool.
    pub owner: bool,
    /// Free slots in the order in which they will be leased; empty for an
    /// attacher.
    pub free: Seq<u32>,
}

impl View for Pool {
    type V = PoolView;

    closed spec fn view(&self) -> PoolView {
        PoolView {
            slot_count: self.region@.slot_count,
            slot_size_bytes: self.region@.slot_size_bytes,
            ttl_micros: self.ttl_micros,
            owner: self.owner_state is Some,
            free: match self.owner_state {
                Some(state) => free_list::queued(state.free_slots),
                None => Seq::empty(),
            },
        }
    }
}

impl PoolView {
    /// The mapping is long enough for the pool's segment.
    pub open spec fn fits(self, mem: Seq<u8>) -> bool {
        header::segment_len(self.slot_count as int, self.slot_size_bytes as int) <= mem.len()
            <= usize::MAX
    }

    /// Every index in the free list is one of a slot.
    pub open spec fn free_in_range(self) -> bool {
        forall|k: int| 0 <= k < self.free.len() ==> #[trigger] self.free[k] < self.slot_count
    }

    /// The free list and the slot table agree: a slot is listed once if it
    /// is not in use, and not at all if it is.
    pub open spec fn consistent(self, mem: Seq<u8>) -> bool {
        &&& self.fits(mem)
        &&& self.free_in_range()
        &&& self.free.no_duplicates()
        &&& forall|i: u32|
            i < self.slot_count ==> (#[trigger] self.free.contains(i) <==> !region::meta(
                mem,
                i as int,
            ).in_use())
    }
}

/// The generation that follows `g`.
pub open spec fn next_generation(g: u64) -> u64 {
    if g == u64::MAX {
        0
    } else {
        (g + 1) as u64
    }
}

/// Slot metadata right after an acquire.
pub open spec fn leased(m: SlotMetaView, id: LeaseId, now: u64) -> SlotMetaView {
    SlotMetaView {
        lease_id_high: id.high,
        lease_id_low: id.low,
        generation: next_generation(m.generation),
        acquired_at_micros: now,
        payload_len: 0,
        flags: flags::IN_USE,
        reserved: m.reserved,
    }
}

/// Slot metadata right after the payload was written.
pub open spec fn written(m: SlotMetaView, len: u32) -> SlotMetaView {
    SlotMetaView { payload_len: len, flags: m.flags | flags::PAYLOAD_FINALIZED, ..m }
}

/// Slot metadata right after a renewal.
pub open spec fn renewed(m: SlotMetaView, now: u64) -> SlotMetaView {
    SlotMetaView { acquired_at_micros: now, ..m }
}

/// The slot still belongs to the lease with this identifier and generation.
pub open spec fn belongs_to(m: SlotMetaView, id: LeaseId, generation: u64) -> bool {
    m.generation == generation && m.lease_id_high == id.high && m.lease_id_low == id.low
}

/// The lease is a live one of this pool.
pub open spec fn holds(p: PoolView, mem: Seq<u8>, lease: Lease) -> bool {
    lease.slot_index < p.slot_count && belongs_to(
        region::meta(mem, lease.slot_index as int),
        lease.lease_id,
        lease.generation,
    )
}

/// How a lease is refused that is not a live one of this pool.
pub open spec fn lease_refused_with(
    p: PoolView,
    mem: Seq<u8>,
    lease: Lease,
    e: TesseraPoolError,
) -> bool {
    if lease.slot_index >= p.slot_count {
        error::is_region(e, region::slot_range_words(lease.slot_index, p.slot_count))
    } else {
        e == (TesseraPoolError::StaleHandle {
            slot_index: lease.slot_index,
            descriptor_generation: lease.generation,
            current_generation: region::meta(mem, lease.slot_index as int).generation,
        })
    }
}

/// The segment after slot `lease.slot_index` was written.
pub open spec fn after_write(p: PoolView, mem: Seq<u8>, lease: Lease, b: Seq<u8>) -> Seq<u8> {
    let i = lease.slot_index as int;
    region::with_meta(
        region::with_payload(mem, i, p.slot_count as int, p.slot_size_bytes as int, b),
        i,
        written(region::meta(mem, i), b.len() as u32),
    )
}

/// The descriptor that a write hands out.
pub open spec fn descriptor_of(lease: Lease, len: u32) -> Descriptor {
    Descriptor {
        slot_index: lease.slot_index,
        lease_id: lease.lease_id,
        generation: lease.generation,
        size_bytes: len,
    }
}

/// The descriptor reads as a payload of this pool.
pub open spec fn readable(p: PoolView, mem: Seq<u8>, d: Descriptor) -> bool {
    &&& d.slot_index < p.slot_count
    &&& told_by(region::meta(mem, d.slot_index as int), p.slot_size_bytes, d)
}

/// The slot, as its metadata tells, has what the descriptor tells of, and a
/// slot of this size can hold it.
pub open spec fn told_by(m: SlotMetaView, slot_size_bytes: u32, d: Descriptor) -> bool {
    &&& belongs_to(m, d.lease_id, d.generation)
    &&& d.size_bytes == m.payload_len
    &&& d.size_bytes <= slot_size_bytes
}

/// `e` says that the slot has moved on to another lease than `d`'s.
pub open spec fn is_stale(e: TesseraPoolError, m: SlotMetaView, d: Descriptor) -> bool {
    e == (TesseraPoolError::StaleHandle {
        slot_index: d.slot_index,
        descriptor_generation: d.generation,
        current_generation: m.generation,
    })
}

/// How a descriptor is refused that its slot does not bear out: the lease
/// first, then the size against the slot, then against the capacity.
pub open spec fn told_otherwise(
    m: SlotMetaView,
    slot_size_bytes: u32,
    d: Descriptor,
    e: TesseraPoolError,
) -> bool {
    if !belongs_to(m, d.lease_id, d.generation) {
        is_stale(e, m, d)
    } else if d.size_bytes != m.payload_len {
        error::is_region(
            e,
            "descriptor size_bytes ("@ + text::dec(d.size_bytes as nat)
                + ") does not match slot's stored payload_len ("@ + text::dec(m.payload_len as nat)
                + "); refusing to read"@,
        )
    } else {
        error::is_region(
            e,
            "descriptor size_bytes ("@ + text::dec(d.size_bytes as nat)
                + ") exceeds slot capacity ("@ + text::dec(slot_size_bytes as nat) + ")"@,
        )
    }
}

/// Words for a descriptor of a slot that there is not.
pub open spec fn descriptor_range_words(slot_index: u32, slot_count: u32) -> Seq<char> {
    "descriptor slot_index "@ + text::dec(slot_index as nat) + " out of range (slot_count="@
        + text::dec(slot_count as nat) + ")"@
}

/// The payload of a readable descriptor.
pub open spec fn payload_of(p: PoolView, mem: Seq<u8>, d: Descriptor) -> Seq<u8> {
    region::payload(
        mem,
        d.slot_index as int,
        p.slot_count as int,
        p.slot_size_bytes as int,
        d.size_bytes as int,
    )
}

/// How a descriptor is refused that is not readable: the slot first, then
/// the lease, then the size against the slot, then against the capacity.
pub open spec fn read_refused_with(
    p: PoolView,
    mem: Seq<u8>,
    d: Descriptor,
    e: TesseraPoolError,
) -> bool {
    if d.slot_index >= p.slot_count {
        error::is_region(e, descriptor_range_words(d.slot_index, p.slot_count))
    } else {
        told_otherwise(region::meta(mem, d.slot_index as int), p.slot_size_bytes, d, e)
    }
}

/// The slot is leased and its lease has outlived `ttl`.
pub open spec fn stale(m: SlotMetaView, now: u64, ttl: u64) -> bool {
    m.in_use() && now - m.acquired_at_micros > ttl
}

/// The segment after the first `k` slots were swept.
pub open spec fn swept(mem: Seq<u8>, k: nat, now: u64, ttl: u64) -> Seq<u8>
    decreases k,
{
    if k == 0 {
        mem
    } else {
        let before = swept(mem, (k - 1) as nat, now, ttl);
        let m = region::meta(mem, k - 1);
        if stale(m, now, ttl) {
            region::with_meta(
                before,
                k - 1,
                SlotMetaView::cleared(next_generation(m.generation)),
            )
        } else {
            before
        }
    }
}

/// The stale ones among the first `k` slots, in order.
pub open spec fn stale_slots(mem: Seq<u8>, k: nat, now: u64, ttl: u64) -> Seq<u32>
    decreases k,
{
    if k == 0 {
        Seq::empty()
    } else {
        let before = stale_slots(mem, (k - 1) as nat, now, ttl);
        if stale(region::meta(mem, k - 1), now, ttl) {
            before.push((k - 1) as u32)
        } else {
            before
        }
    }
}

/// How many of the first `k` slots are in use.
pub open spec fn in_use_among(mem: Seq<u8>, k: nat) -> nat
    decreases k,
{
    if k == 0 {
        0
    } else {
        in_use_among(mem, (k - 1) as nat) + if region::meta(mem, k - 1).in_use() {
            1nat
        } else {
            0nat
        }
    }
}

/// The indices of `n` slots, in order.
pub open spec fn all_slots(n: nat) -> Seq<u32> {
    Seq::new(n, |i: int| i as u32)
}

/// Sweeping changes stale slots alone, and leaves payloads and header be.
pub proof fn law_sweep(mem: Seq<u8>, k: nat, n: int, size: int, now: u64, ttl: u64)
    requires
        k <= n,
        0 <= size,
        header::segment_len(n, size) <= mem.len(),
    ensures
        swept(mem, k, now, ttl).len() == mem.len(),
        bytes::range(swept(mem, k, now, ttl), 0, 128) == bytes::range(mem, 0, 128),
        forall|i: int|
            #![trigger region::meta(swept(mem, k, now, ttl), i)]
            0 <= i < n ==> region::meta(swept(mem, k, now, ttl), i) == (if i < k && stale(
                region::meta(mem, i),
                now,
                ttl,
            ) {
                SlotMetaView::cleared(next_generation(region::meta(mem, i).generation))
            } else {
                region::meta(mem, i)
            }),
        forall|i: int, len: int|
            #![trigger region::payload(swept(mem, k, now, ttl), i, n, size, len)]
            0 <= i < n && 0 <= len <= size ==> region::payload(
                swept(mem, k, now, ttl),
                i,
                n,
                size,
                len,
            ) == region::payload(mem, i, n, size, len),
    decreases k,
{
    if k > 0 {
        let j = k - 1;
        law_sweep(mem, j as nat, n, size, now, ttl);
        let before = swept(mem, j as nat, now, ttl);
        region::law_slots_are_independent(
            before,
            j,
            n,
            size,
            SlotMetaView::cleared(next_generation(region::meta(mem, j).generation)),
            Seq::empty(),
        );
        let after = swept(mem, k, now, ttl);
        assert forall|i: int|
            #![trigger region::meta(after, i)]
            0 <= i < n implies region::meta(after, i) == (if i < k && stale(
            region::meta(mem, i),
            now,
            ttl,
        ) {
            SlotMetaView::cleared(next_generation(region::meta(mem, i).generation))
        } else {
            region::meta(mem, i)
        }) by {
            assert(region::meta(before, i) == if i < j && stale(region::meta(mem, i), now, ttl) {
                SlotMetaView::cleared(next_generation(region::meta(mem, i).generation))
            } else {
                region::meta(mem, i)
            });
        }
        assert forall|i: int, len: int|
            #![trigger region::payload(after, i, n, size, len)]
            0 <= i < n && 0 <= len <= size implies region::payload(after, i, n, size, len)
            == region::payload(mem, i, n, size, len) by {
            assert(region::payload(before, i, n, size, len) == region::payload(
                mem,
                i,
                n,
                size,
                len,
            ));
        }
    }
}

impl Pool {
    /// Opens a pool over its mapped segment. The owner stamps the mapping;
    /// an attacher checks its header.
    pub fn new(config: PoolConfig, mem: &mut [u8], epoch_micros: u64) -> (r: Result<Pool>)
        requires
            config_refusal(config) is None ==> if config.is_owner {
                header::segment_len(config.slot_count as int, config.slot_size_bytes as int)
                    <= old(mem)@.len()
            } else {
                Header::SIZE <= old(mem)@.len()
            },
        ensures
            match config_refusal(config) {
                Some(words) => r matches Err(e) && error::is_config(e, words) && final(mem)@
                    == old(mem)@,
                None => if config.is_owner {
                    r matches Ok(pool) && pool@ == (PoolView {
                        slot_count: config.slot_count,
                        slot_size_bytes: config.slot_size_bytes,
                        ttl_micros: config.ttl_micros,
                        owner: true,
                        free: all_slots(config.slot_count as nat),
                    }) && final(mem)@ == region::stamped(
                        old(mem)@,
                        region::fresh_header(
                            crate::namespace::description_digest(config.description@),
                            epoch_micros,
                            config.slot_count,
                            config.slot_size_bytes,
                            config.ttl_micros,
                        ),
                        config.slot_count as int,
                    ) && history::sound(pool@, final(mem)@)
                } else {
                    let h = HeaderView::of(old(mem)@);
                    let digest = crate::namespace::description_digest(config.description@);
                    &&& final(mem)@ == old(mem)@
                    &&& match r {
                        Ok(pool) => region::accepts(
                            h,
                            digest,
                            config.slot_count,
                            config.slot_size_bytes,
                        ) && pool@ == (PoolView {
                            slot_count: config.slot_count,
                            slot_size_bytes: config.slot_size_bytes,
                            ttl_micros: h.ttl_micros,
                            owner: false,
                            free: Seq::empty(),
                        }),
                        Err(e) => !region::accepts(
                            h,
                            digest,
                            config.slot_count,
                            config.slot_size_bytes,
                        ) && region::refused_with(
                            h,
                            digest,
                            config.slot_count,
                            config.slot_size_bytes,
                            e,
                        ),
                    }
                },
            },
    {
        match config.plan() {
            Ok(_) => {},
            Err(e) => return Err(e),
        }
        let handle = NamespaceHandle::derive(config.description.as_str());
        assert(mem@.len() == mem.len());
        if config.is_owner {
            let region = match Region::create(
                mem,
                &handle,
                config.slot_count,
                config.slot_size_bytes,
                config.ttl_micros,
                epoch_micros,
            ) {
                Ok(region) => region,
                Err(e) => return Err(e),
            };
            proof {
                history::law_new_pool_is_sound(
                    old(mem)@,
                    handle@,
                    epoch_micros,
                    config.slot_count,
                    config.slot_size_bytes,
                    config.ttl_micros,
                );
            }
            let mut free_slots = queue_new();
            let mut i: u32 = 0;
            assert(free_list::queued(free_slots) =~= all_slots(0));
            while i < config.slot_count
                invariant
                    i <= config.slot_count,
                    free_list::queued(free_slots) == all_slots(i as nat),
                decreases config.slot_count - i,
            {
                queue_push(&mut free_slots, i);
                i = i + 1;
                assert(free_list::queued(free_slots) =~= all_slots(i as nat));
            }
            Ok(
                Pool {
                    region,
                    owner_state: Some(OwnerState { free_slots }),
                    ttl_micros: config.ttl_micros,
                },
            )
        } else {
            let region = match Region::attach(
                mem,
                &handle,
                config.slot_count,
                config.slot_size_bytes,
            ) {
                Ok(region) => region,
                Err(e) => return Err(e),
            };
            let ttl_micros: u64 = region.ttl_micros(mem);
            Ok(Pool { region, owner_state: None, ttl_micros })
        }
    }

    /// True for the owner's handle, false for an attacher's.
    pub fn is_owner(&self) -> (r: bool)
        ensures
            r == self@.owner,
    {
        self.owner_state.is_some()
    }

    /// Time to live of a lease, in microseconds.
    pub fn ttl_micros(&self) -> (r: u64)
        ensures
            r == self@.ttl_micros,
    {
        self.ttl_micros
    }

    /// Number of slots.
    pub fn slot_count(&self) -> (r: u32)
        ensures
            r == self@.slot_count,
    {
        self.region.slot_count()
    }

    /// Bytes per slot.
    pub fn slot_size_bytes(&self) -> (r: u32)
        ensures
            r == self@.slot_size_bytes,
    {
        self.region.slot_size_bytes()
    }

    /// Makes one attempt to lease a free slot, under a fresh identifier.
    ///
    /// `Ok(None)` says that no slot is free and the deadline is not yet
    /// reached: the caller waits `ACQUIRE_POLL_MILLIS` and tries again.
    /// Nothing is held across the wait, so a release can free a slot.
    pub fn acquire(
        &mut self,
        mem: &mut [u8],
        fresh_id: [u8; 16],
        now_micros: u64,
        deadline_reached: bool,
        timeout_micros: u64,
    ) -> (r: Result<Option<Lease>>)
        requires
            old(self)@.fits(old(mem)@),
            old(self)@.free_in_range(),
        ensures
            if !old(self)@.owner {
                &&& r == Err::<Option<Lease>, TesseraPoolError>(TesseraPoolError::OwnerOnly)
                &&& final(self)@ == old(self)@
                &&& final(mem)@ == old(mem)@
            } else if old(self)@.free.len() == 0 {
                &&& final(self)@ == old(self)@
                &&& final(mem)@ == old(mem)@
                &&& r == if deadline_reached {
                    Err::<Option<Lease>, TesseraPoolError>(
                        TesseraPoolError::Timeout { timeout_micros },
                    )
                } else {
                    Ok::<Option<Lease>, TesseraPoolError>(None)
                }
            } else {
                let slot = old(self)@.free[0];
                let m = leased(
                    region::meta(old(mem)@, slot as int),
                    LeaseId::of(fresh_id@),
                    now_micros,
                );
                &&& final(self)@ == (PoolView {
                    free: old(self)@.free.drop_first(),
                    ..old(self)@
                })
                &&& final(mem)@ == region::with_meta(old(mem)@, slot as int, m)
                &&& r == Ok::<Option<Lease>, TesseraPoolError>(
                    Some(
                        Lease {
                            slot_index: slot,
                            lease_id: LeaseId::of(fresh_id@),
                            generation: m.generation,
                        },
                    ),
                )
            },
            r matches Ok(Some(lease)) ==> holds(final(self)@, final(mem)@, lease) && !region::meta(
                final(mem)@,
                lease.slot_index as int,
            ).finalized(),
            old(self)@.owner ==> (final(self)@, final(mem)@) == history::after_op(
                old(self)@,
                old(mem)@,
                history::Op::Acquire { id: LeaseId::of(fresh_id@), now: now_micros },
            ),
    {
        let popped: Option<u32> = match &mut self.owner_state {
            Some(state) => queue_pop(&mut state.free_slots),
            None => return Err(TesseraPoolError::OwnerOnly),
        };
        let slot_index: u32 = match popped {
            Some(i) => i,
            None => {
                if deadline_reached {
                    return Err(TesseraPoolError::Timeout { timeout_micros });
                }
                return Ok(None);
            },
        };
        let mut meta = match self.region.read_slot_meta(mem, slot_index) {
            Ok(m) => m,
            Err(e) => return Err(e),
        };
        let lease_id = LeaseId::from_bytes(fresh_id);
        meta.generation = meta.generation.wrapping_add(1);
        meta.lease_id_high = lease_id.high();
        meta.lease_id_low = lease_id.low();
        meta.acquired_at_micros = now_micros;
        meta.payload_len = 0;
        meta.flags = flags::IN_USE;
        match self.region.write_slot_meta(mem, slot_index, meta) {
            Ok(_) => {},
            Err(e) => return Err(e),
        }
        proof {
            laws::lemma_meta_change(old(self)@, old(mem)@, slot_index as int, meta@);
            header::lemma_flag_words(0);
        }
        Ok(Some(Lease::new(slot_index, lease_id, meta.generation)))
    }

    /// Writes the payload of a lease, once, and returns the descriptor to
    /// hand to readers.
    pub fn write(&self, mem: &mut [u8], lease: &Lease, payload: &[u8]) -> (r: Result<Descriptor>)
        requires
            self@.fits(old(mem)@),
        ensures
            match r {
                Ok(d) => {
                    &&& self@.owner
                    &&& payload@.len() <= self@.slot_size_bytes
                    &&& holds(self@, old(mem)@, *lease)
                    &&& !region::meta(old(mem)@, lease.slot_index as int).finalized()
                    &&& d == descriptor_of(*lease, payload@.len() as u32)
                    &&& final(mem)@ == after_write(self@, old(mem)@, *lease, payload@)
                    &&& holds(self@, final(mem)@, *lease)
                    &&& readable(self@, final(mem)@, d)
                    &&& payload_of(self@, final(mem)@, d) == payload@
                },
                Err(e) => final(mem)@ == old(mem)@ && if !self@.owner {
                    e == TesseraPoolError::OwnerOnly
                } else if payload@.len() > self@.slot_size_bytes {
                    e == (TesseraPoolError::OversizedPayload {
                        payload_size: payload@.len() as usize,
                        slot_size: self@.slot_size_bytes as usize,
                    })
                } else if !holds(self@, old(mem)@, *lease) {
                    lease_refused_with(self@, old(mem)@, *lease, e)
                } else {
                    &&& region::meta(old(mem)@, lease.slot_index as int).finalized()
                    &&& e == (TesseraPoolError::WriteAfterFinalize { slot_index: lease.slot_index })
                },
            },
            self@.owner ==> (self@, final(mem)@) == history::after_op(
                self@,
                old(mem)@,
                history::Op::Write { lease: *lease, payload: payload@ },
            ),
    {
        if self.owner_state.is_none() {
            return Err(TesseraPoolError::OwnerOnly);
        }
        if payload.len() > self.region.slot_size_bytes() as usize {
            return Err(
                TesseraPoolError::OversizedPayload {
                    payload_size: payload.len(),
                    slot_size: self.region.slot_size_bytes() as usize,
                },
            );
        }
        let mut meta = match self.region.read_slot_meta(mem, lease.slot_index()) {
            Ok(m) => m,
            Err(e) => return Err(e),
        };
        match validate_lease(lease, &meta) {
            Ok(_) => {},
            Err(e) => return Err(e),
        }
        if meta.payload_finalized() {
            return Err(TesseraPoolError::WriteAfterFinalize { slot_index: lease.slot_index() });
        }
        match self.region.write_slot_payload(mem, lease.slot_index(), payload) {
            Ok(_) => {},
            Err(e) => return Err(e),
        }
        let len: u32 = payload.len() as u32;
        meta.payload_len = len;
        meta.flags = meta.flags | flags::PAYLOAD_FINALIZED;
        match self.region.write_slot_meta(mem, lease.slot_index(), meta) {
            Ok(_) => {},
            Err(e) => return Err(e),
        }
        proof {
            laws::law_read_gives_back_the_write(self@, old(mem)@, *lease, payload@);
            laws::law_write_is_one_shot(self@, old(mem)@, *lease, payload@);
        }
        Ok(Descriptor::new(lease.slot_index(), lease.lease_id(), lease.generation(), len))
    }

    /// Reads the metadata of the slot that a descriptor refers to.
    pub fn slot_meta(&self, mem: &[u8], descriptor: &Descriptor) -> (r: Result<SlotMeta>)
        requires
            self@.fits(mem@),
        ensures
            match r {
                Ok(m) => descriptor.slot_index < self@.slot_count && m@ == region::meta(
                    mem@,
                    descriptor.slot_index as int,
                ),
                Err(e) => descriptor.slot_index >= self@.slot_count && error::is_region(
                    e,
                    descriptor_range_words(descriptor.slot_index, self@.slot_count),
                ),
            },
    {
        let slot_index: u32 = descriptor.slot_index();
        if slot_index >= self.region.slot_count() {
            let mut m = String::from_str("descriptor slot_index ");
            text::push_dec(&mut m, slot_index as u64);
            m.append(" out of range (slot_count=");
            text::push_dec(&mut m, self.region.slot_count() as u64);
            m.append(")");
            return Err(TesseraPoolError::Region(m));
        }
        self.region.read_slot_meta(mem, slot_index)
    }

    /// Copies out as many bytes of a slot as a descriptor tells of, whatever
    /// the slot was last leased for: [`check_read`] comes before, and
    /// [`judge_read`] after.
    pub fn copy_payload(&self, mem: &[u8], descriptor: &Descriptor) -> (r: Result<Vec<u8>>)
        requires
            self@.fits(mem@),
        ensures
            match r {
                Ok(out) => descriptor.slot_index < self@.slot_count && descriptor.size_bytes
                    <= self@.slot_size_bytes && out@ == payload_of(self@, mem@, *descriptor),
                Err(e) => if descriptor.slot_index >= self@.slot_count {
                    error::is_region(
                        e,
                        region::slot_range_words(descriptor.slot_index, self@.slot_count),
                    )
                } else {
                    descriptor.size_bytes > self@.slot_size_bytes && error::is_region(
                        e,
                        "payload_len "@ + text::dec(descriptor.size_bytes as nat)
                            + " exceeds slot capacity "@ + text::dec(
                            self@.slot_size_bytes as nat,
                        ),
                    )
                },
            },
    {
        self.region.read_slot_payload(mem, descriptor.slot_index(), descriptor.size_bytes())
    }

    /// Reads the payload that a descriptor refers to. Open to owner and
    /// attachers.
    ///
    /// The descriptor is checked against the slot before the copy, and once
    /// more after it. Over one borrow of the segment the two looks agree;
    /// who shares the segment with other processes makes them one by one.
    pub fn read_payload(&self, mem: &[u8], descriptor: &Descriptor) -> (r: Result<Vec<u8>>)
        requires
            self@.fits(mem@),
        ensures
            match r {
                Ok(out) => readable(self@, mem@, *descriptor) && out@ == payload_of(
                    self@,
                    mem@,
                    *descriptor,
                ),
                Err(e) => !readable(self@, mem@, *descriptor) && read_refused_with(
                    self@,
                    mem@,
                    *descriptor,
                    e,
                ),
            },
    {
        let size: u32 = self.region.slot_size_bytes();
        let before = match self.slot_meta(mem, descriptor) {
            Ok(m) => m,
            Err(e) => return Err(e),
        };
        match check_read(descriptor, size, &before) {
            Ok(_) => {},
            Err(e) => return Err(e),
        }
        let out = match self.copy_payload(mem, descriptor) {
            Ok(out) => out,
            Err(e) => return Err(e),
        };
        let after = match self.slot_meta(mem, descriptor) {
            Ok(m) => m,
            Err(e) => return Err(e),
        };
        match judge_read(descriptor, size, &before, &after) {
            Ok(_) => Ok(out),
            Err(e) => Err(e),
        }
    }

    /// Gives a leased slot back. The generation stays; the identifier goes.
    pub fn release(&mut self, mem: &mut [u8], lease: &Lease) -> (r: Result<()>)
        requires
            old(self)@.fits(old(mem)@),
        ensures
            match r {
                Ok(_) => {
                    let i = lease.slot_index as int;
                    &&& old(self)@.owner
                    &&& holds(old(self)@, old(mem)@, *lease)
                    &&& final(mem)@ == region::with_meta(
                        old(mem)@,
                        i,
                        SlotMetaView::cleared(region::meta(old(mem)@, i).generation),
                    )
                    &&& final(self)@ == (PoolView {
                        free: old(self)@.free.push(lease.slot_index),
                        ..old(self)@
                    })
                },
                Err(e) => final(mem)@ == old(mem)@ && final(self)@ == old(self)@
                    && if !old(self)@.owner {
                    e == TesseraPoolError::OwnerOnly
                } else {
                    &&& !holds(old(self)@, old(mem)@, *lease)
                    &&& lease_refused_with(old(self)@, old(mem)@, *lease, e)
                },
            },
            old(self)@.owner ==> (final(self)@, final(mem)@) == history::after_op(
                old(self)@,
                old(mem)@,
                history::Op::Release { lease: *lease },
            ),
    {
        if self.owner_state.is_none() {
            return Err(TesseraPoolError::OwnerOnly);
        }
        let meta = match self.region.read_slot_meta(mem, lease.slot_index()) {
            Ok(m) => m,
            Err(e) => return Err(e),
        };
        match validate_lease(lease, &meta) {
            Ok(_) => {},
            Err(e) => return Err(e),
        }
        let cleared = SlotMeta::cleared(meta.generation);
        match self.region.write_slot_meta(mem, lease.slot_index(), cleared) {
            Ok(_) => {},
            Err(e) => return Err(e),
        }
        match &mut self.owner_state {
            Some(state) => queue_push(&mut state.free_slots, lease.slot_index()),
            None => {},
        }
        Ok(())
    }

    /// Restarts a lease's time to live.
    pub fn renew(&self, mem: &mut [u8], lease: &Lease, now_micros: u64) -> (r: Result<()>)
        requires
            self@.fits(old(mem)@),
        ensures
            match r {
                Ok(_) => {
                    let i = lease.slot_index as int;
                    &&& self@.owner
                    &&& holds(self@, old(mem)@, *lease)
                    &&& final(mem)@ == region::with_meta(
                        old(mem)@,
                        i,
                        renewed(region::meta(old(mem)@, i), now_micros),
                    )
                },
                Err(e) => final(mem)@ == old(mem)@ && if !self@.owner {
                    e == TesseraPoolError::OwnerOnly
                } else {
                    &&& !holds(self@, old(mem)@, *lease)
                    &&& lease_refused_with(self@, old(mem)@, *lease, e)
                },
            },
            self@.owner ==> (self@, final(mem)@) == history::after_op(
                self@,
                old(mem)@,
                history::Op::Renew { lease: *lease, now: now_micros },
            ),
    {
        if self.owner_state.is_none() {
            return Err(TesseraPoolError::OwnerOnly);
        }
        let mut meta = match self.region.read_slot_meta(mem, lease.slot_index()) {
            Ok(m) => m,
            Err(e) => return Err(e),
        };
        match validate_lease(lease, &meta) {
            Ok(_) => {},
            Err(e) => return Err(e),
        }
        meta.acquired_at_micros = now_micros;
        match self.region.write_slot_meta(mem, lease.slot_index(), meta) {
            Ok(_) => Ok(()),
            Err(e) => Err(e),
        }
    }

    /// Takes back every slot whose lease has outlived the time to live, and
    /// returns how many. Their generations move on, so that descriptors of
    /// the old leases are refused.
    pub fn reclaim_stale(&mut self, mem: &mut [u8], now_micros: u64) -> (r: Result<u32>)
        requires
            old(self)@.fits(old(mem)@),
        ensures
            if !old(self)@.owner {
                &&& r == Err::<u32, TesseraPoolError>(TesseraPoolError::OwnerOnly)
                &&& final(self)@ == old(self)@
                &&& final(mem)@ == old(mem)@
            } else {
                let n = old(self)@.slot_count as nat;
                let ttl = old(self)@.ttl_micros;
                let gone = stale_slots(old(mem)@, n, now_micros, ttl);
                &&& r == Ok::<u32, TesseraPoolError>(gone.len() as u32)
                &&& gone.len() <= n
                &&& final(mem)@ == swept(old(mem)@, n, now_micros, ttl)
                &&& final(self)@ == (PoolView { free: old(self)@.free + gone, ..old(self)@ })
            },
            old(self)@.owner ==> (final(self)@, final(mem)@) == history::after_op(
                old(self)@,
                old(mem)@,
                history::Op::Reclaim { now: now_micros },
            ),
    {
        if self.owner_state.is_none() {
            return Err(TesseraPoolError::OwnerOnly);
        }
        let ttl: u64 = self.ttl_micros;
        let count: u32 = self.region.slot_count();
        let mut reclaimed: u32 = 0;
        let mut i: u32 = 0;
        let ghost mem0 = mem@;
        let ghost view0 = self@;
        assert(view0.free =~= view0.free + stale_slots(mem0, 0, now_micros, ttl));
        while i < count
            invariant
                i <= count,
                reclaimed <= i,
                count == view0.slot_count,
                ttl == view0.ttl_micros,
                view0.owner,
                view0.fits(mem0),
                reclaimed == stale_slots(mem0, i as nat, now_micros, ttl).len(),
                mem@ == swept(mem0, i as nat, now_micros, ttl),
                self@ == (PoolView {
                    free: view0.free + stale_slots(mem0, i as nat, now_micros, ttl),
                    ..view0
                }),
            decreases count - i,
        {
            proof {
                law_sweep(
                    mem0,
                    i as nat,
                    count as int,
                    view0.slot_size_bytes as int,
                    now_micros,
                    ttl,
                );
            }
            let meta = match self.region.read_slot_meta(mem, i) {
                Ok(m) => m,
                Err(e) => return Err(e),
            };
            proof {
                assert(meta@ == region::meta(mem0, i as int));
                assert(view0.free + stale_slots(mem0, i as nat, now_micros, ttl).push(i) =~= (
                view0.free + stale_slots(mem0, i as nat, now_micros, ttl)).push(i));
            }
            if meta.in_use() && now_micros.saturating_sub(meta.acquired_at_micros) > ttl {
                let cleared = SlotMeta::cleared(meta.generation.wrapping_add(1));
                match self.region.write_slot_meta(mem, i, cleared) {
                    Ok(_) => {},
                    Err(e) => return Err(e),
                }
                match &mut self.owner_state {
                    Some(state) => queue_push(&mut state.free_slots, i),
                    None => {},
                }
                reclaimed = reclaimed + 1;
            }
            i = i + 1;
        }
        Ok(reclaimed)
    }

    /// Number of slots in use.
    pub fn in_use_count(&self, mem: &[u8]) -> (r: Result<u32>)
        requires
            self@.fits(mem@),
        ensures
            r == Ok::<u32, TesseraPoolError>(
                in_use_among(mem@, self@.slot_count as nat) as u32,
            ),
            in_use_among(mem@, self@.slot_count as nat) <= self@.slot_count,
    {
        let mut n: u32 = 0;
        let mut i: u32 = 0;
        let count: u32 = self.region.slot_count();
        while i < count
            invariant
                i <= count,
                n <= i,
                count == self@.slot_count,
                self@.fits(mem@),
                n == in_use_among(mem@, i as nat),
            decreases count - i,
        {
            let meta = match self.region.read_slot_meta(mem, i) {
                Ok(m) => m,
                Err(e) => return Err(e),
            };
            if meta.in_use() {
                n = n + 1;
            }
            i = i + 1;
        }
        Ok(n)
    }
}

/// Checks that a lease is the one its slot was last leased under.
pub fn validate_lease(lease: &Lease, meta: &SlotMeta) -> (r: Result<()>)
    ensures
        match r {
            Ok(_) => belongs_to(meta@, lease.lease_id, lease.generation),
            Err(e) => !belongs_to(meta@, lease.lease_id, lease.generation) && e == (
            TesseraPoolError::StaleHandle {
                slot_index: lease.slot_index,
                descriptor_generation: lease.generation,
                current_generation: meta.generation,
            }),
        },
{
    if meta.generation != lease.generation() || meta.lease_id_high != lease.lease_id().high()
        || meta.lease_id_low != lease.lease_id().low() {
        return Err(
            TesseraPoolError::StaleHandle {
                slot_index: lease.slot_index(),
                descriptor_generation: lease.generation(),
                current_generation: meta.generation,
            },
        );
    }
    Ok(())
}

/// Checks that a descriptor is of the lease its slot was last leased under.
pub fn validate_descriptor(descriptor: &Descriptor, meta: &SlotMeta) -> (r: Result<()>)
    ensures
        match r {
            Ok(_) => belongs_to(meta@, descriptor.lease_id, descriptor.generation),
            Err(e) => !belongs_to(meta@, descriptor.lease_id, descriptor.generation) && e == (
            TesseraPoolError::StaleHandle {
                slot_index: descriptor.slot_index,
                descriptor_generation: descriptor.generation,
                current_generation: meta.generation,
            }),
        },
{
    if meta.generation != descriptor.generation() || meta.lease_id_high
        != descriptor.lease_id().high() || meta.lease_id_low != descriptor.lease_id().low() {
        return Err(
            TesseraPoolError::StaleHandle {
                slot_index: descriptor.slot_index(),
                descriptor_generation: descriptor.generation(),
                current_generation: meta.generation,
            },
        );
    }
    Ok(())
}

/// Checks a descriptor against what its slot tells, before any byte of the
/// payload is copied.
pub fn check_read(descriptor: &Descriptor, slot_size_bytes: u32, meta: &SlotMeta) -> (r: Result<()>)
    ensures
        match r {
            Ok(_) => told_by(meta@, slot_size_bytes, *descriptor),
            Err(e) => !told_by(meta@, slot_size_bytes, *descriptor) && told_otherwise(
                meta@,
                slot_size_bytes,
                *descriptor,
                e,
            ),
        },
{
    match validate_descriptor(descriptor, meta) {
        Ok(_) => {},
        Err(e) => return Err(e),
    }
    if descriptor.size_bytes() != meta.payload_len {
        let mut m = String::from_str("descriptor size_bytes (");
        text::push_dec(&mut m, descriptor.size_bytes() as u64);
        m.append(") does not match slot's stored payload_len (");
        text::push_dec(&mut m, meta.payload_len as u64);
        m.append("); refusing to read");
        return Err(TesseraPoolError::Region(m));
    }
    if descriptor.size_bytes() > slot_size_bytes {
        let mut m = String::from_str("descriptor size_bytes (");
        text::push_dec(&mut m, descriptor.size_bytes() as u64);
        m.append(") exceeds slot capacity (");
        text::push_dec(&mut m, slot_size_bytes as u64);
        m.append(")");
        return Err(TesseraPoolError::Region(m));
    }
    Ok(())
}

/// Judges a copy by what the slot told before it and what it tells after
/// it: the copy counts only if the slot was the descriptor's all along. A
/// slot that moved on meanwhile is reported as stale.
pub fn judge_read(
    descriptor: &Descriptor,
    slot_size_bytes: u32,
    before: &SlotMeta,
    after: &SlotMeta,
) -> (r: Result<()>)
    ensures
        match r {
            Ok(_) => told_by(before@, slot_size_bytes, *descriptor) && belongs_to(
                after@,
                descriptor.lease_id,
                descriptor.generation,
            ),
            Err(e) => if !told_by(before@, slot_size_bytes, *descriptor) {
                told_otherwise(before@, slot_size_bytes, *descriptor, e)
            } else {
                &&& !belongs_to(after@, descriptor.lease_id, descriptor.generation)
                &&& is_stale(e, after@, *descriptor)
            },
        },
{
    match check_read(descriptor, slot_size_bytes, before) {
        Ok(_) => validate_descriptor(descriptor, after),
        Err(e) => Err(e),
    }
}

/// Stand-in for random bytes where none can be drawn: the clock, and the
/// clock rotated left by 17 bits.
pub fn fallback_lease_id_bytes(now_micros: u64) -> (out: [u8; 16])
    ensures
        out@ == bytes::le_bytes(now_micros as nat, 8) + bytes::le_bytes(
            ((now_micros << 17) | (now_micros >> 47)) as nat,
            8,
        ),
{
    let mut v: Vec<u8> = Vec::new();
    let rotated: u64 = (now_micros << 17) | (now_micros >> 47);
    push_le(&mut v, now_micros, 8);
    push_le(&mut v, rotated, 8);
    proof {
        bytes::lemma_int_round_trip(0, now_micros);
        bytes::lemma_int_round_trip(0, rotated);
    }
    let out: [u8; 16] = read_array::<16>(v.as_slice(), 0);
    assert(out@ =~= v@);
    out
}

} // verus!
