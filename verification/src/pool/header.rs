//! Segment layout.
//!
//! ```text
//! offset 0:              Header (Header::SIZE bytes)
//! offset Header::SIZE:   SlotMeta * slot_count
//! offset payload_start:  raw bytes; slot i lives at i * slot_size_bytes
//! ```
//!
//! Numeric fields are little-endian, the native order of the machines that
//! share such segments.
use vstd::prelude::*;

use crate::bytes;
use crate::bytes::{push_bytes, push_le, read_array, read_u32, read_u64};
use crate::pool::flags;

verus! {

/// First eight bytes of every pool segment: ASCII "TESPOOLv".
pub const MAGIC: u64 = 0x764C_4F4F_5053_4554;

/// Layout version. An attacher rejects any other.
pub const FORMAT_VERSION: u32 = 1;

/// Header at the start of the segment, stamped by the owner at creation and
/// checked by each attacher.
#[derive(Clone, Copy, Debug)]
pub struct Header {
    /// Constant `MAGIC`.
    pub magic: u64,
    /// `FORMAT_VERSION` at creation.
    pub format_version: u32,
    /// Padding.
    pub _pad0: u32,
    /// Wall-clock microseconds at creation.
    pub epoch_micros: u64,
    /// Number of slots.
    pub slot_count: u32,
    /// Payload bytes per slot.
    pub slot_size_bytes: u32,
    /// Time to live of a lease, in microseconds.
    pub ttl_micros: u64,
    /// Digest of the description the segment was created under.
    pub handle_blake3: [u8; 32],
    /// Unused, zero.
    pub _reserved: [u8; 56],
}

/// What a header says.
#[verifier::ext_equal]
pub struct HeaderView {
    pub magic: u64,
    pub format_version: u32,
    pub pad0: u32,
    pub epoch_micros: u64,
    pub slot_count: u32,
    pub slot_size_bytes: u32,
    pub ttl_micros: u64,
    pub handle_blake3: Seq<u8>,
    pub reserved: Seq<u8>,
}

impl View for Header {
    type V = HeaderView;

    open spec fn view(&self) -> HeaderView {
        HeaderView {
            magic: self.magic,
            format_version: self.format_version,
            pad0: self._pad0,
            epoch_micros: self.epoch_micros,
            slot_count: self.slot_count,
            slot_size_bytes: self.slot_size_bytes,
            ttl_micros: self.ttl_micros,
            handle_blake3: self.handle_blake3@,
            reserved: self._reserved@,
        }
    }
}

impl HeaderView {
    /// The bytes of the header.
    pub open spec fn bytes(self) -> Seq<u8> {
        bytes::le_bytes(self.magic as nat, 8) + bytes::le_bytes(self.format_version as nat, 4) + bytes::le_bytes(
            self.pad0 as nat,
            4,
        ) + bytes::le_bytes(self.epoch_micros as nat, 8) + bytes::le_bytes(self.slot_count as nat, 4) + bytes::le_bytes(
            self.slot_size_bytes as nat,
            4,
        ) + bytes::le_bytes(self.ttl_micros as nat, 8) + self.handle_blake3 + self.reserved
    }

    /// The header that `s` starts with.
    pub open spec fn of(s: Seq<u8>) -> HeaderView {
        HeaderView {
            magic: bytes::u64_at(s, 0),
            format_version: bytes::u32_at(s, 8),
            pad0: bytes::u32_at(s, 12),
            epoch_micros: bytes::u64_at(s, 16),
            slot_count: bytes::u32_at(s, 24),
            slot_size_bytes: bytes::u32_at(s, 28),
            ttl_micros: bytes::u64_at(s, 32),
            handle_blake3: bytes::range(s, 40, 32),
            reserved: bytes::range(s, 72, 56),
        }
    }
}

/// A header read back from its own bytes is the header.
pub proof fn law_header_round_trip(h: HeaderView)
    requires
        h.handle_blake3.len() == 32,
        h.reserved.len() == 56,
    ensures
        h.bytes().len() == Header::SIZE,
        HeaderView::of(h.bytes()) == h,
{
    bytes::lemma_int_round_trip(h.format_version, h.magic);
    bytes::lemma_int_round_trip(h.pad0, h.epoch_micros);
    bytes::lemma_int_round_trip(h.slot_count, h.ttl_micros);
    bytes::lemma_int_round_trip(h.slot_size_bytes, 0);
    let s = h.bytes();
    assert(bytes::range(s, 0, 8) =~= bytes::le_bytes(h.magic as nat, 8));
    assert(bytes::range(s, 8, 4) =~= bytes::le_bytes(h.format_version as nat, 4));
    assert(bytes::range(s, 12, 4) =~= bytes::le_bytes(h.pad0 as nat, 4));
    assert(bytes::range(s, 16, 8) =~= bytes::le_bytes(h.epoch_micros as nat, 8));
    assert(bytes::range(s, 24, 4) =~= bytes::le_bytes(h.slot_count as nat, 4));
    assert(bytes::range(s, 28, 4) =~= bytes::le_bytes(h.slot_size_bytes as nat, 4));
    assert(bytes::range(s, 32, 8) =~= bytes::le_bytes(h.ttl_micros as nat, 8));
    assert(bytes::range(s, 40, 32) =~= h.handle_blake3);
    assert(bytes::range(s, 72, 56) =~= h.reserved);
}

impl Header {
    /// Size in bytes.
    pub const SIZE: usize = 128;

    /// The bytes of the header.
    pub fn to_bytes(&self) -> (out: Vec<u8>)
        ensures
            out@ == self@.bytes(),
            out@.len() == Header::SIZE,
    {
        let mut out: Vec<u8> = Vec::new();
        push_le(&mut out, self.magic, 8);
        push_le(&mut out, self.format_version as u64, 4);
        push_le(&mut out, self._pad0 as u64, 4);
        push_le(&mut out, self.epoch_micros, 8);
        push_le(&mut out, self.slot_count as u64, 4);
        push_le(&mut out, self.slot_size_bytes as u64, 4);
        push_le(&mut out, self.ttl_micros, 8);
        push_bytes(&mut out, self.handle_blake3.as_slice());
        push_bytes(&mut out, self._reserved.as_slice());
        proof {
            law_header_round_trip(self@);
            assert(out@ =~= self@.bytes());
        }
        out
    }

    /// The header that the bytes start with.
    pub fn from_bytes(bytes: &[u8]) -> (h: Header)
        requires
            bytes@.len() >= Header::SIZE,
        ensures
            h@ == HeaderView::of(bytes@),
    {
        Header {
            magic: read_u64(bytes, 0),
            format_version: read_u32(bytes, 8),
            _pad0: read_u32(bytes, 12),
            epoch_micros: read_u64(bytes, 16),
            slot_count: read_u32(bytes, 24),
            slot_size_bytes: read_u32(bytes, 28),
            ttl_micros: read_u64(bytes, 32),
            handle_blake3: read_array::<32>(bytes, 40),
            _reserved: read_array::<56>(bytes, 72),
        }
    }
}

/// State of one slot, kept in the segment where attachers can see it.
#[derive(Clone, Copy, Debug)]
pub struct SlotMeta {
    /// High 64 bits of the lease identifier.
    pub lease_id_high: u64,
    /// Low 64 bits of the lease identifier.
    pub lease_id_low: u64,
    /// Counts acquires and reclaims. A handle with another generation is
    /// stale.
    pub generation: u64,
    /// Owner's monotonic microseconds at acquire or renew.
    pub acquired_at_micros: u64,
    /// Payload bytes written, zero before the write.
    pub payload_len: u32,
    /// `IN_USE` and `PAYLOAD_FINALIZED` bits.
    pub flags: u32,
    /// Unused, zero.
    pub _reserved: [u8; 32],
}

/// What a slot's metadata says.
#[verifier::ext_equal]
pub struct SlotMetaView {
    pub lease_id_high: u64,
    pub lease_id_low: u64,
    pub generation: u64,
    pub acquired_at_micros: u64,
    pub payload_len: u32,
    pub flags: u32,
    pub reserved: Seq<u8>,
}

impl View for SlotMeta {
    type V = SlotMetaView;

    open spec fn view(&self) -> SlotMetaView {
        SlotMetaView {
            lease_id_high: self.lease_id_high,
            lease_id_low: self.lease_id_low,
            generation: self.generation,
            acquired_at_micros: self.acquired_at_micros,
            payload_len: self.payload_len,
            flags: self.flags,
            reserved: self._reserved@,
        }
    }
}

/// `n` zero bytes.
pub open spec fn zeros(n: nat) -> Seq<u8> {
    Seq::new(n, |i: int| 0u8)
}

impl SlotMetaView {
    /// The bytes of the metadata.
    pub open spec fn bytes(self) -> Seq<u8> {
        bytes::le_bytes(self.lease_id_high as nat, 8) + bytes::le_bytes(self.lease_id_low as nat, 8) + bytes::le_bytes(
            self.generation as nat,
            8,
        ) + bytes::le_bytes(self.acquired_at_micros as nat, 8) + bytes::le_bytes(self.payload_len as nat, 4)
            + bytes::le_bytes(self.flags as nat, 4) + self.reserved
    }

    /// The metadata that `s` starts with.
    pub open spec fn of(s: Seq<u8>) -> SlotMetaView {
        SlotMetaView {
            lease_id_high: bytes::u64_at(s, 0),
            lease_id_low: bytes::u64_at(s, 8),
            generation: bytes::u64_at(s, 16),
            acquired_at_micros: bytes::u64_at(s, 24),
            payload_len: bytes::u32_at(s, 32),
            flags: bytes::u32_at(s, 36),
            reserved: bytes::range(s, 40, 32),
        }
    }

    /// The slot is leased.
    pub open spec fn in_use(self) -> bool {
        self.flags & flags::IN_USE != 0
    }

    /// The payload of the current lease has been written.
    pub open spec fn finalized(self) -> bool {
        self.flags & flags::PAYLOAD_FINALIZED != 0
    }

    /// A free slot of the given generation.
    pub open spec fn cleared(generation: u64) -> SlotMetaView {
        SlotMetaView {
            lease_id_high: 0,
            lease_id_low: 0,
            generation,
            acquired_at_micros: 0,
            payload_len: 0,
            flags: 0,
            reserved: zeros(32),
        }
    }
}

/// Metadata read back from its own bytes is the metadata.
pub proof fn law_slot_meta_round_trip(m: SlotMetaView)
    requires
        m.reserved.len() == 32,
    ensures
        m.bytes().len() == SlotMeta::SIZE,
        SlotMetaView::of(m.bytes()) == m,
{
    bytes::lemma_int_round_trip(m.payload_len, m.lease_id_high);
    bytes::lemma_int_round_trip(m.flags, m.lease_id_low);
    bytes::lemma_int_round_trip(0, m.generation);
    bytes::lemma_int_round_trip(0, m.acquired_at_micros);
    let s = m.bytes();
    assert(bytes::range(s, 0, 8) =~= bytes::le_bytes(m.lease_id_high as nat, 8));
    assert(bytes::range(s, 8, 8) =~= bytes::le_bytes(m.lease_id_low as nat, 8));
    assert(bytes::range(s, 16, 8) =~= bytes::le_bytes(m.generation as nat, 8));
    assert(bytes::range(s, 24, 8) =~= bytes::le_bytes(m.acquired_at_micros as nat, 8));
    assert(bytes::range(s, 32, 4) =~= bytes::le_bytes(m.payload_len as nat, 4));
    assert(bytes::range(s, 36, 4) =~= bytes::le_bytes(m.flags as nat, 4));
    assert(bytes::range(s, 40, 32) =~= m.reserved);
}

/// How the flag words of the state machine read.
pub proof fn lemma_flag_words(f: u32)
    ensures
        flags::IN_USE & flags::IN_USE != 0,
        flags::IN_USE & flags::PAYLOAD_FINALIZED == 0,
        0u32 & flags::IN_USE == 0,
        0u32 & flags::PAYLOAD_FINALIZED == 0,
        (f | flags::PAYLOAD_FINALIZED) & flags::PAYLOAD_FINALIZED != 0,
        (f | flags::PAYLOAD_FINALIZED) & flags::IN_USE == f & flags::IN_USE,
{
    assert(1u32 & 1u32 != 0 && 1u32 & 2u32 == 0 && 0u32 & 1u32 == 0 && 0u32 & 2u32 == 0 && (f
        | 2u32) & 2u32 != 0 && (f | 2u32) & 1u32 == f & 1u32) by (bit_vector);
}

impl SlotMeta {
    /// Size in bytes.
    pub const SIZE: usize = 72;

    /// Metadata of a slot that was never leased.
    pub fn zeroed() -> (m: SlotMeta)
        ensures
            m@ == SlotMetaView::cleared(0),
    {
        SlotMeta::cleared(0)
    }

    /// Metadata of a free slot of the given generation.
    pub fn cleared(generation: u64) -> (m: SlotMeta)
        ensures
            m@ == SlotMetaView::cleared(generation),
    {
        let m = SlotMeta {
            lease_id_high: 0,
            lease_id_low: 0,
            generation,
            acquired_at_micros: 0,
            payload_len: 0,
            flags: 0,
            _reserved: [0u8; 32],
        };
        assert(m@.reserved =~= zeros(32));
        m
    }

    /// True if the slot currently holds an active lease.
    pub fn in_use(&self) -> (r: bool)
        ensures
            r == self@.in_use(),
    {
        (self.flags & flags::IN_USE) != 0
    }

    /// True if the payload of the current lease has been written.
    pub fn payload_finalized(&self) -> (r: bool)
        ensures
            r == self@.finalized(),
    {
        (self.flags & flags::PAYLOAD_FINALIZED) != 0
    }

    /// The bytes of the metadata.
    pub fn to_bytes(&self) -> (out: Vec<u8>)
        ensures
            out@ == self@.bytes(),
            out@.len() == SlotMeta::SIZE,
    {
        let mut out: Vec<u8> = Vec::new();
        push_le(&mut out, self.lease_id_high, 8);
        push_le(&mut out, self.lease_id_low, 8);
        push_le(&mut out, self.generation, 8);
        push_le(&mut out, self.acquired_at_micros, 8);
        push_le(&mut out, self.payload_len as u64, 4);
        push_le(&mut out, self.flags as u64, 4);
        push_bytes(&mut out, self._reserved.as_slice());
        proof {
            law_slot_meta_round_trip(self@);
            assert(out@ =~= self@.bytes());
        }
        out
    }

    /// The metadata at offset `at` of `mem`.
    pub fn read_from(mem: &[u8], at: usize) -> (m: SlotMeta)
        requires
            at + SlotMeta::SIZE <= mem@.len(),
        ensures
            m@ == SlotMetaView::of(bytes::range(mem@, at as int, SlotMeta::SIZE as int)),
    {
        assert(mem@.len() == mem.len());
        proof {
            let len = SlotMeta::SIZE as int;
            bytes::lemma_range_of_range(mem@, at as int, len, 0, 8);
            bytes::lemma_range_of_range(mem@, at as int, len, 8, 8);
            bytes::lemma_range_of_range(mem@, at as int, len, 16, 8);
            bytes::lemma_range_of_range(mem@, at as int, len, 24, 8);
            bytes::lemma_range_of_range(mem@, at as int, len, 32, 4);
            bytes::lemma_range_of_range(mem@, at as int, len, 36, 4);
            bytes::lemma_range_of_range(mem@, at as int, len, 40, 32);
        }
        SlotMeta {
            lease_id_high: read_u64(mem, at),
            lease_id_low: read_u64(mem, at + 8),
            generation: read_u64(mem, at + 16),
            acquired_at_micros: read_u64(mem, at + 24),
            payload_len: read_u32(mem, at + 32),
            flags: read_u32(mem, at + 36),
            _reserved: read_array::<32>(mem, at + 40),
        }
    }
}

/// Where slot `i`'s metadata starts.
pub open spec fn meta_start(i: int) -> int {
    128 + i * 72
}

/// Where slot `i`'s payload starts.
pub open spec fn payload_start(i: int, n: int, size: int) -> int {
    128 + n * 72 + i * size
}

/// Length of a segment of `n` slots of `size` bytes.
pub open spec fn segment_len(n: int, size: int) -> int {
    128 + n * 72 + n * size
}

/// The parts of a segment lie behind one another: the header, then each
/// slot's metadata, then each slot's payload, inside the segment and
/// without overlap.
pub proof fn law_layout(i: int, j: int, n: int, size: int)
    requires
        0 <= i < n,
        0 <= j < n,
        0 <= size,
    ensures
        Header::SIZE <= meta_start(i),
        meta_start(i) + SlotMeta::SIZE <= payload_start(j, n, size),
        payload_start(i, n, size) + size <= segment_len(n, size),
        i < j ==> meta_start(i) + SlotMeta::SIZE <= meta_start(j),
        i < j ==> payload_start(i, n, size) + size <= payload_start(j, n, size),
{
    assert(0 <= j * size) by (nonlinear_arith)
        requires
            0 <= j,
            0 <= size,
    ;
    assert(i * size + size <= n * size) by (nonlinear_arith)
        requires
            i + 1 <= n,
            0 <= size,
    ;
    if i < j {
        assert(i * size + size <= j * size) by (nonlinear_arith)
            requires
                i + 1 <= j,
                0 <= size,
        ;
    }
}

/// Total segment size in bytes, `None` where it does not fit `usize`.
pub fn region_size_bytes(slot_count: u32, slot_size_bytes: u32) -> (r: Option<usize>)
    ensures
        r == (if segment_len(slot_count as int, slot_size_bytes as int) <= usize::MAX {
            Some(segment_len(slot_count as int, slot_size_bytes as int) as usize)
        } else {
            None
        }),
{
    let n: usize = slot_count as usize;
    let slot_size: usize = slot_size_bytes as usize;
    proof {
        assert(n * slot_size >= 0) by (nonlinear_arith);
        assert(n * slot_size == slot_size * n) by (nonlinear_arith);
    }
    let slot_table: usize = match SlotMeta::SIZE.checked_mul(n) {
        Some(v) => v,
        None => return None,
    };
    let payload: usize = match slot_size.checked_mul(n) {
        Some(v) => v,
        None => return None,
    };
    match Header::SIZE.checked_add(slot_table) {
        Some(v) => v.checked_add(payload),
        None => None,
    }
}

/// Offset where the slot-metadata table begins.
pub fn slot_table_offset() -> (r: usize)
    ensures
        r == Header::SIZE,
{
    Header::SIZE
}

/// Offset where slot `slot_index`'s metadata starts.
pub fn slot_meta_offset(slot_index: u32) -> (r: usize)
    requires
        meta_start(slot_index as int) <= usize::MAX,
    ensures
        r == meta_start(slot_index as int),
{
    slot_table_offset() + (slot_index as usize) * SlotMeta::SIZE
}

/// Offset where the payload area begins.
pub fn payload_area_offset(slot_count: u32) -> (r: usize)
    requires
        payload_start(0, slot_count as int, 0) <= usize::MAX,
    ensures
        r == payload_start(0, slot_count as int, 0),
{
    slot_table_offset() + (slot_count as usize) * SlotMeta::SIZE
}

/// Offset where slot `slot_index`'s payload bytes start.
pub fn slot_payload_offset(slot_index: u32, slot_count: u32, slot_size_bytes: u32) -> (r: usize)
    requires
        payload_start(slot_index as int, slot_count as int, slot_size_bytes as int) <= usize::MAX,
    ensures
        r == payload_start(slot_index as int, slot_count as int, slot_size_bytes as int),
{
    proof {
        assert(slot_index * slot_size_bytes >= 0) by (nonlinear_arith);
    }
    payload_area_offset(slot_count) + (slot_index as usize) * (slot_size_bytes as usize)
}

} // verus!
