//! What pools can be had, what a segment of one looks like, and what a
//! holder of a handle that is not good is told.
use vstd::prelude::*;

use crate::bytes;
use crate::pool::header;
use crate::pool::header::{HeaderView, SlotMetaView};
use crate::pool::pool;
use crate::pool::pool::{PoolConfig, PoolView};
use crate::pool::region;
use crate::pool::{Descriptor, Lease, TesseraPoolError};

verus! {

/// The low bit of a slot's flags says that it is in use, the next one that
/// its payload was written.
pub proof fn law_what_the_flags_say(m: SlotMetaView)
    ensures
        m.in_use() <==> m.flags % 2 == 1,
        m.finalized() <==> (m.flags / 2) % 2 == 1,
{
    let f = m.flags;
    assert((f & 1u32 != 0 <==> f % 2 == 1) && (f & 2u32 != 0 <==> (f / 2) % 2 == 1))
        by (bit_vector);
}

/// An empty slot is not in use, has no payload and belongs to nobody.
pub proof fn law_an_empty_slot(generation: u64)
    ensures
        ({
            let m = SlotMetaView::cleared(generation);
            &&& m.generation == generation
            &&& m.lease_id_high == 0 && m.lease_id_low == 0
            &&& m.acquired_at_micros == 0 && m.payload_len == 0
            &&& m.flags == 0
            &&& !m.in_use() && !m.finalized()
            &&& m.reserved.len() == 32
        }),
{
    header::lemma_flag_words(0);
}

/// Where the fields of a segment's header and of a slot's metadata lie, and
/// how many bytes a segment has.
pub proof fn law_where_the_fields_lie(h: HeaderView, m: SlotMetaView, i: int, n: int, size: int)
    requires
        h.handle_blake3.len() == 32,
        h.reserved.len() == 56,
        m.reserved.len() == 32,
    ensures
        h.bytes().len() == 128,
        bytes::u64_at(h.bytes(), 0) == h.magic,
        bytes::u32_at(h.bytes(), 8) == h.format_version,
        bytes::u64_at(h.bytes(), 16) == h.epoch_micros,
        bytes::u32_at(h.bytes(), 24) == h.slot_count,
        bytes::u32_at(h.bytes(), 28) == h.slot_size_bytes,
        bytes::u64_at(h.bytes(), 32) == h.ttl_micros,
        h.bytes().subrange(40, 72) == h.handle_blake3,
        m.bytes().len() == 72,
        bytes::u64_at(m.bytes(), 0) == m.lease_id_high,
        bytes::u64_at(m.bytes(), 8) == m.lease_id_low,
        bytes::u64_at(m.bytes(), 16) == m.generation,
        bytes::u64_at(m.bytes(), 24) == m.acquired_at_micros,
        bytes::u32_at(m.bytes(), 32) == m.payload_len,
        bytes::u32_at(m.bytes(), 36) == m.flags,
        header::meta_start(i) == 128 + 72 * i,
        header::payload_start(i, n, size) == 128 + 72 * n + i * size,
        header::segment_len(n, size) == 128 + 72 * n + n * size,
{
    header::law_header_round_trip(h);
    header::law_slot_meta_round_trip(m);
    assert(HeaderView::of(h.bytes()).handle_blake3 == h.handle_blake3);
}

/// A configuration is taken exactly if it has a description and slots of
/// some size, and, for an owner, a time to live and a segment that can be
/// mapped.
pub proof fn law_which_configurations_are_taken(c: PoolConfig)
    ensures
        pool::config_refusal(c) is None <==> {
            &&& c.description@.len() > 0
            &&& c.slot_count > 0 && c.slot_size_bytes > 0
            &&& c.is_owner ==> c.ttl_micros > 0 && 128 + 72 * c.slot_count + c.slot_count
                * c.slot_size_bytes <= usize::MAX
        },
        region::geometry_refusal(c.slot_count, c.slot_size_bytes) is None <==> c.slot_count > 0
            && c.slot_size_bytes > 0 && 128 + 72 * c.slot_count + c.slot_count * c.slot_size_bytes
            <= usize::MAX,
{
}

/// An attacher takes a segment exactly if it is one of a pool in this
/// format, with the geometry and the description that it expects. Of the
/// others, one of another kind is told first, then format and geometry, then
/// the description.
pub proof fn law_which_segments_are_taken(
    h: HeaderView,
    digest: Seq<u8>,
    n: u32,
    size: u32,
    e: TesseraPoolError,
)
    ensures
        region::accepts(h, digest, n, size) <==> h.magic == header::MAGIC && h.format_version
            == header::FORMAT_VERSION && h.slot_count == n && h.slot_size_bytes == size
            && h.handle_blake3 == digest,
        region::refused_with(h, digest, n, size, e) ==> (e is HeaderMismatch <==> h.magic
            == header::MAGIC && (h.format_version != header::FORMAT_VERSION || h.slot_count != n
            || h.slot_size_bytes != size)) && (e is HeaderMismatch || e is Region),
{
}

/// A new pool's header tells of its geometry, its time to live and its
/// description; all its slots are free, in order.
pub proof fn law_a_new_pool(digest: Seq<u8>, epoch: u64, n: u32, size: u32, ttl: u64)
    ensures
        ({
            let h = region::fresh_header(digest, epoch, n, size, ttl);
            &&& h.magic == header::MAGIC && h.format_version == header::FORMAT_VERSION
            &&& h.epoch_micros == epoch
            &&& h.slot_count == n && h.slot_size_bytes == size
            &&& h.ttl_micros == ttl
            &&& h.handle_blake3 == digest
        }),
        pool::all_slots(n as nat).len() == n,
        forall|i: int| 0 <= i < n ==> #[trigger] pool::all_slots(n as nat)[i] == i,
{
}

/// The holder of a lease that is not good is told that it is stale, with its
/// generation and the slot's; of a slot that there is not, that there is no
/// such slot.
pub proof fn law_what_a_stale_lease_is_told(
    p: PoolView,
    mem: Seq<u8>,
    lease: Lease,
    e: TesseraPoolError,
)
    requires
        pool::lease_refused_with(p, mem, lease, e),
    ensures
        lease.slot_index >= p.slot_count ==> e is Region,
        lease.slot_index < p.slot_count ==> e == (TesseraPoolError::StaleHandle {
            slot_index: lease.slot_index,
            descriptor_generation: lease.generation,
            current_generation: region::meta(mem, lease.slot_index as int).generation,
        }),
{
}

/// A reader whose descriptor's slot has another lease now is told that the
/// descriptor is stale, with its generation and the slot's; one whose
/// descriptor tells of another length than the slot, of more than a slot
/// has, or of no slot of the pool, is told so in words.
pub proof fn law_what_a_stale_descriptor_is_told(
    p: PoolView,
    mem: Seq<u8>,
    d: Descriptor,
    e: TesseraPoolError,
)
    requires
        pool::read_refused_with(p, mem, d, e),
    ensures
        ({
            let m = region::meta(mem, d.slot_index as int);
            let stale = d.slot_index < p.slot_count && !(m.generation == d.generation
                && m.lease_id_high == d.lease_id.high && m.lease_id_low == d.lease_id.low);
            &&& stale ==> e == (TesseraPoolError::StaleHandle {
                slot_index: d.slot_index,
                descriptor_generation: d.generation,
                current_generation: m.generation,
            })
            &&& !stale ==> e is Region
        }),
{
}

/// A slot's generation goes up by one, and starts over at zero behind the
/// largest number there is; a descriptor tells of what was written.
pub proof fn law_what_handles_tell(g: u64, lease: Lease, len: u32)
    ensures
        g < u64::MAX ==> pool::next_generation(g) == g + 1,
        g == u64::MAX ==> pool::next_generation(g) == 0,
        pool::descriptor_of(lease, len) == (Descriptor {
            slot_index: lease.slot_index,
            lease_id: lease.lease_id,
            generation: lease.generation,
            size_bytes: len,
        }),
{
}

/// A pool's segment is found by its description alone: the name is made of
/// the first half of the description's digest.
pub proof fn law_a_pool_is_found_by_its_description(c: PoolConfig)
    ensures
        pool::config_name(c) == "/tessera-pool-"@ + crate::text::hex_bytes(
            crate::digest::blake3_digest(vstd::utf8::encode_utf8(c.description@)).take(16),
        ),
{
}

} // verus!
