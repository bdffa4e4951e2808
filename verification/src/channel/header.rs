//! Segment layout.
//!
//! ```text
//! offset 0:              Header (Header::SIZE bytes)
//! offset Header::SIZE:   (SlotHeader + slot_size_bytes) * slot_count
//! ```
//!
//! Numeric fields are little-endian, the native order of the machines that
//! share such segments. The fields that are accessed atomically lie at
//! multiples of eight.
use vstd::prelude::*;

use crate::bytes;
use crate::bytes::{push_bytes, push_le, read_array, read_u32, read_u64};

verus! {

/// First eight bytes of every channel segment: ASCII "TESCHANv".
pub const MAGIC: u64 = 0x764E_4148_4353_4554;

/// Layout version. A sender rejects any other.
pub const FORMAT_VERSION: u32 = 1;

/// Header at the start of the segment, stamped by the receiver at creation
/// and checked by each sender.
#[derive(Clone, Copy, Debug)]
pub struct Header {
    /// Constant `MAGIC`.
    pub magic: u64,
    /// `FORMAT_VERSION` at creation.
    pub format_version: u32,
    /// Padding.
    pub _pad0: u32,
    /// Wall-clock microseconds at creation.
    pub epoch_micros: u64,
    /// Number of slots.
    pub slot_count: u32,
    /// Payload bytes per slot.
    pub slot_size_bytes: u32,
    /// Position of the next message to receive.
    pub head: u64,
    /// Position of the next message to send.
    pub tail: u64,
    /// Digest of the description the segment was created under.
    pub handle_blake3: [u8; 32],
    /// Unused, zero.
    pub _reserved: [u8; 40],
}

/// What a header says.
#[verifier::ext_equal]
pub struct HeaderView {
    pub magic: u64,
    pub format_version: u32,
    pub pad0: u32,
    pub epoch_micros: u64,
    pub slot_count: u32,
    pub slot_size_bytes: u32,
    pub head: u64,
    pub tail: u64,
    pub handle_blake3: Seq<u8>,
    pub reserved: Seq<u8>,
}

impl View for Header {
    type V = HeaderView;

    open spec fn view(&self) -> HeaderView {
        HeaderView {
            magic: self.magic,
            format_version: self.format_version,
            pad0: self._pad0,
            epoch_micros: self.epoch_micros,
            slot_count: self.slot_count,
            slot_size_bytes: self.slot_size_bytes,
            head: self.head,
            tail: self.tail,
            handle_blake3: self.handle_blake3@,
            reserved: self._reserved@,
        }
    }
}

impl HeaderView {
    /// The bytes of the header.
    pub open spec fn bytes(self) -> Seq<u8> {
        bytes::le_bytes(self.magic as nat, 8) + bytes::le_bytes(self.format_version as nat, 4)
            + bytes::le_bytes(self.pad0 as nat, 4) + bytes::le_bytes(self.epoch_micros as nat, 8)
            + bytes::le_bytes(self.slot_count as nat, 4) + bytes::le_bytes(
            self.slot_size_bytes as nat,
            4,
        ) + bytes::le_bytes(self.head as nat, 8) + bytes::le_bytes(self.tail as nat, 8)
            + self.handle_blake3 + self.reserved
    }

    /// The header that `s` starts with.
    pub open spec fn of(s: Seq<u8>) -> HeaderView {
        HeaderView {
            magic: bytes::u64_at(s, 0),
            format_version: bytes::u32_at(s, 8),
            pad0: bytes::u32_at(s, 12),
            epoch_micros: bytes::u64_at(s, 16),
            slot_count: bytes::u32_at(s, 24),
            slot_size_bytes: bytes::u32_at(s, 28),
            head: bytes::u64_at(s, 32),
            tail: bytes::u64_at(s, 40),
            handle_blake3: bytes::range(s, 48, 32),
            reserved: bytes::range(s, 80, 40),
        }
    }
}

/// A header read back from its own bytes is the header.
pub proof fn law_header_round_trip(h: HeaderView)
    requires
        h.handle_blake3.len() == 32,
        h.reserved.len() == 40,
    ensures
        h.bytes().len() == Header::SIZE,
        HeaderView::of(h.bytes()) == h,
{
    bytes::lemma_int_round_trip(h.format_version, h.magic);
    bytes::lemma_int_round_trip(h.pad0, h.epoch_micros);
    bytes::lemma_int_round_trip(h.slot_count, h.head);
    bytes::lemma_int_round_trip(h.slot_size_bytes, h.tail);
    let s = h.bytes();
    assert(bytes::range(s, 0, 8) =~= bytes::le_bytes(h.magic as nat, 8));
    assert(bytes::range(s, 8, 4) =~= bytes::le_bytes(h.format_version as nat, 4));
    assert(bytes::range(s, 12, 4) =~= bytes::le_bytes(h.pad0 as nat, 4));
    assert(bytes::range(s, 16, 8) =~= bytes::le_bytes(h.epoch_micros as nat, 8));
    assert(bytes::range(s, 24, 4) =~= bytes::le_bytes(h.slot_count as nat, 4));
    assert(bytes::range(s, 28, 4) =~= bytes::le_bytes(h.slot_size_bytes as nat, 4));
    assert(bytes::range(s, 32, 8) =~= bytes::le_bytes(h.head as nat, 8));
    assert(bytes::range(s, 40, 8) =~= bytes::le_bytes(h.tail as nat, 8));
    assert(bytes::range(s, 48, 32) =~= h.handle_blake3);
    assert(bytes::range(s, 80, 40) =~= h.reserved);
}

impl Header {
    /// Size in bytes.
    pub const SIZE: usize = 120;

    /// The bytes of the header.
    pub fn to_bytes(&self) -> (out: Vec<u8>)
        ensures
            out@ == self@.bytes(),
            out@.len() == Header::SIZE,
    {
        let mut out: Vec<u8> = Vec::new();
        push_le(&mut out, self.magic, 8);
        push_le(&mut out, self.format_version as u64, 4);
        push_le(&mut out, self._pad0 as u64, 4);
        push_le(&mut out, self.epoch_micros, 8);
        push_le(&mut out, self.slot_count as u64, 4);
        push_le(&mut out, self.slot_size_bytes as u64, 4);
        push_le(&mut out, self.head, 8);
        push_le(&mut out, self.tail, 8);
        push_bytes(&mut out, self.handle_blake3.as_slice());
        push_bytes(&mut out, self._reserved.as_slice());
        proof {
            law_header_round_trip(self@);
            assert(out@ =~= self@.bytes());
        }
        out
    }

    /// The header that the bytes start with.
    pub fn from_bytes(bytes: &[u8]) -> (h: Header)
        requires
            bytes@.len() >= Header::SIZE,
        ensures
            h@ == HeaderView::of(bytes@),
    {
        Header {
            magic: read_u64(bytes, 0),
            format_version: read_u32(bytes, 8),
            _pad0: read_u32(bytes, 12),
            epoch_micros: read_u64(bytes, 16),
            slot_count: read_u32(bytes, 24),
            slot_size_bytes: read_u32(bytes, 28),
            head: read_u64(bytes, 32),
            tail: read_u64(bytes, 40),
            handle_blake3: read_array::<32>(bytes, 48),
            _reserved: read_array::<40>(bytes, 80),
        }
    }
}

/// Header of one slot, in front of its payload bytes.
#[derive(Clone, Copy, Debug)]
pub struct SlotHeader {
    /// Position that the sender claimed.
    pub sequence: u64,
    /// Nonzero once the sender has finished writing.
    pub ready: u64,
    /// Message length in bytes.
    pub length: u32,
    /// Padding.
    pub _pad0: u32,
    /// Wall-clock nanoseconds at send.
    pub timestamp_nanos: u64,
    /// Unused, zero.
    pub _reserved: [u8; 24],
}

/// What a slot header says.
#[verifier::ext_equal]
pub struct SlotHeaderView {
    pub sequence: u64,
    pub ready: u64,
    pub length: u32,
    pub pad0: u32,
    pub timestamp_nanos: u64,
    pub reserved: Seq<u8>,
}

impl View for SlotHeader {
    type V = SlotHeaderView;

    open spec fn view(&self) -> SlotHeaderView {
        SlotHeaderView {
            sequence: self.sequence,
            ready: self.ready,
            length: self.length,
            pad0: self._pad0,
            timestamp_nanos: self.timestamp_nanos,
            reserved: self._reserved@,
        }
    }
}

impl SlotHeaderView {
    /// The bytes of the slot header.
    pub open spec fn bytes(self) -> Seq<u8> {
        bytes::le_bytes(self.sequence as nat, 8) + bytes::le_bytes(self.ready as nat, 8)
            + bytes::le_bytes(self.length as nat, 4) + bytes::le_bytes(self.pad0 as nat, 4)
            + bytes::le_bytes(self.timestamp_nanos as nat, 8) + self.reserved
    }

    /// The slot header that `s` starts with.
    pub open spec fn of(s: Seq<u8>) -> SlotHeaderView {
        SlotHeaderView {
            sequence: bytes::u64_at(s, 0),
            ready: bytes::u64_at(s, 8),
            length: bytes::u32_at(s, 16),
            pad0: bytes::u32_at(s, 20),
            timestamp_nanos: bytes::u64_at(s, 24),
            reserved: bytes::range(s, 32, 24),
        }
    }
}

/// A slot header read back from its own bytes is the slot header.
pub proof fn law_slot_header_round_trip(h: SlotHeaderView)
    requires
        h.reserved.len() == 24,
    ensures
        h.bytes().len() == SlotHeader::SIZE,
        SlotHeaderView::of(h.bytes()) == h,
{
    bytes::lemma_int_round_trip(h.length, h.sequence);
    bytes::lemma_int_round_trip(h.pad0, h.ready);
    bytes::lemma_int_round_trip(0, h.timestamp_nanos);
    let s = h.bytes();
    assert(bytes::range(s, 0, 8) =~= bytes::le_bytes(h.sequence as nat, 8));
    assert(bytes::range(s, 8, 8) =~= bytes::le_bytes(h.ready as nat, 8));
    assert(bytes::range(s, 16, 4) =~= bytes::le_bytes(h.length as nat, 4));
    assert(bytes::range(s, 20, 4) =~= bytes::le_bytes(h.pad0 as nat, 4));
    assert(bytes::range(s, 24, 8) =~= bytes::le_bytes(h.timestamp_nanos as nat, 8));
    assert(bytes::range(s, 32, 24) =~= h.reserved);
}

impl SlotHeader {
    /// Size in bytes.
    pub const SIZE: usize = 56;

    /// The bytes of the slot header.
    pub fn to_bytes(&self) -> (out: Vec<u8>)
        ensures
            out@ == self@.bytes(),
            out@.len() == SlotHeader::SIZE,
    {
        let mut out: Vec<u8> = Vec::new();
        push_le(&mut out, self.sequence, 8);
        push_le(&mut out, self.ready, 8);
        push_le(&mut out, self.length as u64, 4);
        push_le(&mut out, self._pad0 as u64, 4);
        push_le(&mut out, self.timestamp_nanos, 8);
        push_bytes(&mut out, self._reserved.as_slice());
        proof {
            law_slot_header_round_trip(self@);
            assert(out@ =~= self@.bytes());
        }
        out
    }

    /// The slot header that the bytes start with.
    pub fn from_bytes(bytes: &[u8]) -> (h: SlotHeader)
        requires
            bytes@.len() >= SlotHeader::SIZE,
        ensures
            h@ == SlotHeaderView::of(bytes@),
    {
        SlotHeader {
            sequence: read_u64(bytes, 0),
            ready: read_u64(bytes, 8),
            length: read_u32(bytes, 16),
            _pad0: read_u32(bytes, 20),
            timestamp_nanos: read_u64(bytes, 24),
            _reserved: read_array::<24>(bytes, 32),
        }
    }
}

/// Where slot `i` starts.
pub open spec fn slot_start(i: int, size: int) -> int {
    120 + i * (56 + size)
}

/// Length of a segment of `n` slots of `size` bytes.
pub open spec fn segment_len(n: int, size: int) -> int {
    120 + n * (56 + size)
}

/// Slots lie behind the header and behind one another, inside the segment
/// and without overlap, at multiples of eight if the payload size is one.
pub proof fn law_layout(i: int, j: int, n: int, size: int)
    requires
        0 <= i < n,
        0 <= j < n,
        0 <= size,
    ensures
        Header::SIZE <= slot_start(i, size),
        slot_start(i, size) + SlotHeader::SIZE + size <= segment_len(n, size),
        i < j ==> slot_start(i, size) + SlotHeader::SIZE + size <= slot_start(j, size),
        size % 8 == 0 ==> slot_start(i, size) % 8 == 0,
{
    assert(0 <= i * (56 + size)) by (nonlinear_arith)
        requires
            0 <= i,
            0 <= size,
    ;
    assert(i * (56 + size) + (56 + size) <= n * (56 + size)) by (nonlinear_arith)
        requires
            i + 1 <= n,
            0 <= size,
    ;
    if i < j {
        assert(i * (56 + size) + (56 + size) <= j * (56 + size)) by (nonlinear_arith)
            requires
                i + 1 <= j,
                0 <= size,
        ;
    }
    if size % 8 == 0 {
        let k = size / 8;
        assert(i * (56 + size) == 8 * (i * (7 + k))) by (nonlinear_arith)
            requires
                size == 8 * k,
        ;
    }
}

/// Offset where the slot array starts.
pub fn slot_array_offset() -> (r: usize)
    ensures
        r == Header::SIZE,
{
    Header::SIZE
}

/// Bytes from one slot to the next.
pub fn slot_stride(slot_size_bytes: u32) -> (r: usize)
    requires
        56 + slot_size_bytes <= usize::MAX,
    ensures
        r == SlotHeader::SIZE + slot_size_bytes,
{
    SlotHeader::SIZE + (slot_size_bytes as usize)
}

/// Offset of slot `slot_index`'s header.
pub fn slot_header_offset(slot_index: u32, slot_size_bytes: u32) -> (r: usize)
    requires
        56 + slot_size_bytes <= usize::MAX,
        slot_start(slot_index as int, slot_size_bytes as int) <= usize::MAX,
    ensures
        r == slot_start(slot_index as int, slot_size_bytes as int),
{
    proof {
        assert(slot_index * (56 + slot_size_bytes) >= 0) by (nonlinear_arith);
    }
    slot_array_offset() + (slot_index as usize) * slot_stride(slot_size_bytes)
}

/// Offset of slot `slot_index`'s payload.
pub fn slot_payload_offset(slot_index: u32, slot_size_bytes: u32) -> (r: usize)
    requires
        56 + slot_size_bytes <= usize::MAX,
        slot_start(slot_index as int, slot_size_bytes as int) + SlotHeader::SIZE <= usize::MAX,
    ensures
        r == slot_start(slot_index as int, slot_size_bytes as int) + SlotHeader::SIZE,
{
    slot_header_offset(slot_index, slot_size_bytes) + SlotHeader::SIZE
}

/// Total segment size in bytes, `None` where it does not fit `usize`.
pub fn region_size_bytes(slot_count: u32, slot_size_bytes: u32) -> (r: Option<usize>)
    requires
        slot_count > 0 || 56 + slot_size_bytes <= usize::MAX,
    ensures
        r == (if segment_len(slot_count as int, slot_size_bytes as int) <= usize::MAX {
            Some(segment_len(slot_count as int, slot_size_bytes as int) as usize)
        } else {
            None
        }),
{
    proof {
        assert(slot_count * (56 + slot_size_bytes) >= 0) by (nonlinear_arith);
        assert(slot_count * (56 + slot_size_bytes) == (56 + slot_size_bytes) * slot_count)
            by (nonlinear_arith);
        assert(slot_count > 0 ==> slot_count * (56 + slot_size_bytes) >= 56 + slot_size_bytes)
            by (nonlinear_arith);
    }
    let stride: usize = match SlotHeader::SIZE.checked_add(slot_size_bytes as usize) {
        Some(stride) => stride,
        None => return None,
    };
    match stride.checked_mul(slot_count as usize) {
        Some(table) => Header::SIZE.checked_add(table),
        None => None,
    }
}

} // verus!
