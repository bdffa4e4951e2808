//! Segment layout.
//!
//! ```text
//! offset 0:                   GlobalHeader (GlobalHeader::SIZE bytes)
//! offset GlobalHeader::SIZE:  SectionHeader * section_count
//! behind that:                slot arrays of the sections, by section_id;
//!                             each slot is SlotHeader + slot_size_bytes
//! ```
//!
//! Numeric fields are little-endian, the native order of the machines that
//! share such segments. The fields that are accessed atomically lie at
//! multiples of eight.
use vstd::prelude::*;

use crate::bytes;
use crate::bytes::{push_bytes, push_le, read_array, read_u32, read_u64};

verus! {

/// First eight bytes of every ring segment: ASCII "TESRINGv".
pub const MAGIC: u64 = 0x7647_4E49_5253_4554;

/// Layout version. An attacher rejects any other.
pub const FORMAT_VERSION: u32 = 1;

/// Header at the start of the segment, stamped by the creator and checked by
/// each attacher.
#[derive(Clone, Copy, Debug)]
pub struct GlobalHeader {
    /// Constant `MAGIC`.
    pub magic: u64,
    /// `FORMAT_VERSION` at creation.
    pub format_version: u32,
    /// Padding.
    pub _pad0: u32,
    /// Wall-clock microseconds at creation.
    pub epoch_micros: u64,
    /// Number of sections.
    pub section_count: u32,
    /// Padding.
    pub _pad1: u32,
    /// Digest of the description the segment was created under.
    pub handle_blake3: [u8; 32],
    /// Unused, zero.
    pub _reserved: [u8; 64],
}

/// What a global header says.
#[verifier::ext_equal]
pub struct GlobalHeaderView {
    pub magic: u64,
    pub format_version: u32,
    pub pad0: u32,
    pub epoch_micros: u64,
    pub section_count: u32,
    pub pad1: u32,
    pub handle_blake3: Seq<u8>,
    pub reserved: Seq<u8>,
}

impl View for GlobalHeader {
    type V = GlobalHeaderView;

    open spec fn view(&self) -> GlobalHeaderView {
        GlobalHeaderView {
            magic: self.magic,
            format_version: self.format_version,
            pad0: self._pad0,
            epoch_micros: self.epoch_micros,
            section_count: self.section_count,
            pad1: self._pad1,
            handle_blake3: self.handle_blake3@,
            reserved: self._reserved@,
        }
    }
}

impl GlobalHeaderView {
    /// The bytes of the global header.
    pub open spec fn bytes(self) -> Seq<u8> {
        bytes::le_bytes(self.magic as nat, 8)
            + bytes::le_bytes(self.format_version as nat, 4)
            + bytes::le_bytes(self.pad0 as nat, 4)
            + bytes::le_bytes(self.epoch_micros as nat, 8)
            + bytes::le_bytes(self.section_count as nat, 4)
            + bytes::le_bytes(self.pad1 as nat, 4)
            + self.handle_blake3
            + self.reserved
    }

    /// The global header that `s` starts with.
    pub open spec fn of(s: Seq<u8>) -> GlobalHeaderView {
        GlobalHeaderView {
            magic: bytes::u64_at(s, 0),
            format_version: bytes::u32_at(s, 8),
            pad0: bytes::u32_at(s, 12),
            epoch_micros: bytes::u64_at(s, 16),
            section_count: bytes::u32_at(s, 24),
            pad1: bytes::u32_at(s, 28),
            handle_blake3: bytes::range(s, 32, 32),
            reserved: bytes::range(s, 64, 64),
        }
    }
}

/// A global header read back from its own bytes is the global header.
pub proof fn law_global_header_round_trip(h: GlobalHeaderView)
    requires
        h.handle_blake3.len() == 32,
        h.reserved.len() == 64,
    ensures
        h.bytes().len() == GlobalHeader::SIZE,
        GlobalHeaderView::of(h.bytes()) == h,
{
    bytes::lemma_int_round_trip(h.format_version, h.magic);
    bytes::lemma_int_round_trip(h.pad0, h.epoch_micros);
    bytes::lemma_int_round_trip(h.section_count, 0);
    bytes::lemma_int_round_trip(h.pad1, 0);
    let s = h.bytes();
    assert(bytes::range(s, 0, 8) =~= bytes::le_bytes(h.magic as nat, 8));
    assert(bytes::range(s, 8, 4) =~= bytes::le_bytes(h.format_version as nat, 4));
    assert(bytes::range(s, 12, 4) =~= bytes::le_bytes(h.pad0 as nat, 4));
    assert(bytes::range(s, 16, 8) =~= bytes::le_bytes(h.epoch_micros as nat, 8));
    assert(bytes::range(s, 24, 4) =~= bytes::le_bytes(h.section_count as nat, 4));
    assert(bytes::range(s, 28, 4) =~= bytes::le_bytes(h.pad1 as nat, 4));
    assert(bytes::range(s, 32, 32) =~= h.handle_blake3);
    assert(bytes::range(s, 64, 64) =~= h.reserved);
}

impl GlobalHeader {
    /// Size in bytes.
    pub const SIZE: usize = 128;

    /// The bytes of the global header.
    pub fn to_bytes(&self) -> (out: Vec<u8>)
        ensures
            out@ == self@.bytes(),
            out@.len() == GlobalHeader::SIZE,
    {
        let mut out: Vec<u8> = Vec::new();
        push_le(&mut out, self.magic, 8);
        push_le(&mut out, self.format_version as u64, 4);
        push_le(&mut out, self._pad0 as u64, 4);
        push_le(&mut out, self.epoch_micros, 8);
        push_le(&mut out, self.section_count as u64, 4);
        push_le(&mut out, self._pad1 as u64, 4);
        push_bytes(&mut out, self.handle_blake3.as_slice());
        push_bytes(&mut out, self._reserved.as_slice());
        proof {
            law_global_header_round_trip(self@);
            assert(out@ =~= self@.bytes());
        }
        out
    }

    /// The global header at offset `at` of `mem`.
    pub fn read_from(mem: &[u8], at: usize) -> (h: GlobalHeader)
        requires
            at + GlobalHeader::SIZE <= mem@.len(),
        ensures
            h@ == GlobalHeaderView::of(bytes::range(mem@, at as int, GlobalHeader::SIZE as int)),
    {
        assert(mem@.len() == mem.len());
        proof {
            let len = GlobalHeader::SIZE as int;
            bytes::lemma_range_of_range(mem@, at as int, len, 0, 8);
            bytes::lemma_range_of_range(mem@, at as int, len, 8, 4);
            bytes::lemma_range_of_range(mem@, at as int, len, 12, 4);
            bytes::lemma_range_of_range(mem@, at as int, len, 16, 8);
            bytes::lemma_range_of_range(mem@, at as int, len, 24, 4);
            bytes::lemma_range_of_range(mem@, at as int, len, 28, 4);
            bytes::lemma_range_of_range(mem@, at as int, len, 32, 32);
            bytes::lemma_range_of_range(mem@, at as int, len, 64, 64);
        }
        GlobalHeader {
            magic: read_u64(mem, at),
            format_version: read_u32(mem, at + 8),
            _pad0: read_u32(mem, at + 12),
            epoch_micros: read_u64(mem, at + 16),
            section_count: read_u32(mem, at + 24),
            _pad1: read_u32(mem, at + 28),
            handle_blake3: read_array::<32>(mem, at + 32),
            _reserved: read_array::<64>(mem, at + 64),
        }
    }
}

/// Header of one section, in the dense table behind the global header.
#[derive(Clone, Copy, Debug)]
pub struct SectionHeader {
    /// Identifier that callers address the section by.
    pub section_id: u32,
    /// Number of slots.
    pub slot_count: u32,
    /// Payload bytes per slot.
    pub slot_size_bytes: u32,
    /// Padding.
    pub _pad0: u32,
    /// Position of the next event to publish.
    pub writer_position: u64,
    /// Unused, zero.
    pub _reserved: [u8; 40],
}

/// What a section header says.
#[verifier::ext_equal]
pub struct SectionHeaderView {
    pub section_id: u32,
    pub slot_count: u32,
    pub slot_size_bytes: u32,
    pub pad0: u32,
    pub writer_position: u64,
    pub reserved: Seq<u8>,
}

impl View for SectionHeader {
    type V = SectionHeaderView;

    open spec fn view(&self) -> SectionHeaderView {
        SectionHeaderView {
            section_id: self.section_id,
            slot_count: self.slot_count,
            slot_size_bytes: self.slot_size_bytes,
            pad0: self._pad0,
            writer_position: self.writer_position,
            reserved: self._reserved@,
        }
    }
}

impl SectionHeaderView {
    /// The bytes of the section header.
    pub open spec fn bytes(self) -> Seq<u8> {
        bytes::le_bytes(self.section_id as nat, 4)
            + bytes::le_bytes(self.slot_count as nat, 4)
            + bytes::le_bytes(self.slot_size_bytes as nat, 4)
            + bytes::le_bytes(self.pad0 as nat, 4)
            + bytes::le_bytes(self.writer_position as nat, 8)
            + self.reserved
    }

    /// The section header that `s` starts with.
    pub open spec fn of(s: Seq<u8>) -> SectionHeaderView {
        SectionHeaderView {
            section_id: bytes::u32_at(s, 0),
            slot_count: bytes::u32_at(s, 4),
            slot_size_bytes: bytes::u32_at(s, 8),
            pad0: bytes::u32_at(s, 12),
            writer_position: bytes::u64_at(s, 16),
            reserved: bytes::range(s, 24, 40),
        }
    }
}

/// A section header read back from its own bytes is the section header.
pub proof fn law_section_header_round_trip(h: SectionHeaderView)
    requires
        h.reserved.len() == 40,
    ensures
        h.bytes().len() == SectionHeader::SIZE,
        SectionHeaderView::of(h.bytes()) == h,
{
    bytes::lemma_int_round_trip(h.section_id, h.writer_position);
    bytes::lemma_int_round_trip(h.slot_count, 0);
    bytes::lemma_int_round_trip(h.slot_size_bytes, 0);
    bytes::lemma_int_round_trip(h.pad0, 0);
    let s = h.bytes();
    assert(bytes::range(s, 0, 4) =~= bytes::le_bytes(h.section_id as nat, 4));
    assert(bytes::range(s, 4, 4) =~= bytes::le_bytes(h.slot_count as nat, 4));
    assert(bytes::range(s, 8, 4) =~= bytes::le_bytes(h.slot_size_bytes as nat, 4));
    assert(bytes::range(s, 12, 4) =~= bytes::le_bytes(h.pad0 as nat, 4));
    assert(bytes::range(s, 16, 8) =~= bytes::le_bytes(h.writer_position as nat, 8));
    assert(bytes::range(s, 24, 40) =~= h.reserved);
}

impl SectionHeader {
    /// Size in bytes.
    pub const SIZE: usize = 64;

    /// The bytes of the section header.
    pub fn to_bytes(&self) -> (out: Vec<u8>)
        ensures
            out@ == self@.bytes(),
            out@.len() == SectionHeader::SIZE,
    {
        let mut out: Vec<u8> = Vec::new();
        push_le(&mut out, self.section_id as u64, 4);
        push_le(&mut out, self.slot_count as u64, 4);
        push_le(&mut out, self.slot_size_bytes as u64, 4);
        push_le(&mut out, self._pad0 as u64, 4);
        push_le(&mut out, self.writer_position, 8);
        push_bytes(&mut out, self._reserved.as_slice());
        proof {
            law_section_header_round_trip(self@);
            assert(out@ =~= self@.bytes());
        }
        out
    }

    /// The section header at offset `at` of `mem`.
    pub fn read_from(mem: &[u8], at: usize) -> (h: SectionHeader)
        requires
            at + SectionHeader::SIZE <= mem@.len(),
        ensures
            h@ == SectionHeaderView::of(bytes::range(mem@, at as int, SectionHeader::SIZE as int)),
    {
        assert(mem@.len() == mem.len());
        proof {
            let len = SectionHeader::SIZE as int;
            bytes::lemma_range_of_range(mem@, at as int, len, 0, 4);
            bytes::lemma_range_of_range(mem@, at as int, len, 4, 4);
            bytes::lemma_range_of_range(mem@, at as int, len, 8, 4);
            bytes::lemma_range_of_range(mem@, at as int, len, 12, 4);
            bytes::lemma_range_of_range(mem@, at as int, len, 16, 8);
            bytes::lemma_range_of_range(mem@, at as int, len, 24, 40);
        }
        SectionHeader {
            section_id: read_u32(mem, at),
            slot_count: read_u32(mem, at + 4),
            slot_size_bytes: read_u32(mem, at + 8),
            _pad0: read_u32(mem, at + 12),
            writer_position: read_u64(mem, at + 16),
            _reserved: read_array::<40>(mem, at + 24),
        }
    }
}

/// Header of one slot, in front of its payload bytes.
#[derive(Clone, Copy, Debug)]
pub struct SlotHeader {
    /// Sequence word: even while the slot is stable, odd while it is written.
    pub sequence: u64,
    /// Position of the event in the slot.
    pub position: u64,
    /// Event length in bytes.
    pub length: u32,
    /// Padding.
    pub _pad0: u32,
    /// Wall-clock nanoseconds at publish.
    pub timestamp_nanos: u64,
    /// Unused, zero.
    pub _reserved: [u8; 32],
}

/// What a slot header says.
#[verifier::ext_equal]
pub struct SlotHeaderView {
    pub sequence: u64,
    pub position: u64,
    pub length: u32,
    pub pad0: u32,
    pub timestamp_nanos: u64,
    pub reserved: Seq<u8>,
}

impl View for SlotHeader {
    type V = SlotHeaderView;

    open spec fn view(&self) -> SlotHeaderView {
        SlotHeaderView {
            sequence: self.sequence,
            position: self.position,
            length: self.length,
            pad0: self._pad0,
            timestamp_nanos: self.timestamp_nanos,
            reserved: self._reserved@,
        }
    }
}

impl SlotHeaderView {
    /// The bytes of the slot header.
    pub open spec fn bytes(self) -> Seq<u8> {
        bytes::le_bytes(self.sequence as nat, 8)
            + bytes::le_bytes(self.position as nat, 8)
            + bytes::le_bytes(self.length as nat, 4)
            + bytes::le_bytes(self.pad0 as nat, 4)
            + bytes::le_bytes(self.timestamp_nanos as nat, 8)
            + self.reserved
    }

    /// The slot header that `s` starts with.
    pub open spec fn of(s: Seq<u8>) -> SlotHeaderView {
        SlotHeaderView {
            sequence: bytes::u64_at(s, 0),
            position: bytes::u64_at(s, 8),
            length: bytes::u32_at(s, 16),
            pad0: bytes::u32_at(s, 20),
            timestamp_nanos: bytes::u64_at(s, 24),
            reserved: bytes::range(s, 32, 32),
        }
    }
}

/// A slot header read back from its own bytes is the slot header.
pub proof fn law_slot_header_round_trip(h: SlotHeaderView)
    requires
        h.reserved.len() == 32,
    ensures
        h.bytes().len() == SlotHeader::SIZE,
        SlotHeaderView::of(h.bytes()) == h,
{
    bytes::lemma_int_round_trip(h.length, h.sequence);
    bytes::lemma_int_round_trip(h.pad0, h.position);
    bytes::lemma_int_round_trip(0, h.timestamp_nanos);
    let s = h.bytes();
    assert(bytes::range(s, 0, 8) =~= bytes::le_bytes(h.sequence as nat, 8));
    assert(bytes::range(s, 8, 8) =~= bytes::le_bytes(h.position as nat, 8));
    assert(bytes::range(s, 16, 4) =~= bytes::le_bytes(h.length as nat, 4));
    assert(bytes::range(s, 20, 4) =~= bytes::le_bytes(h.pad0 as nat, 4));
    assert(bytes::range(s, 24, 8) =~= bytes::le_bytes(h.timestamp_nanos as nat, 8));
    assert(bytes::range(s, 32, 32) =~= h.reserved);
}

impl SlotHeader {
    /// Size in bytes.
    pub const SIZE: usize = 64;

    /// The bytes of the slot header.
    pub fn to_bytes(&self) -> (out: Vec<u8>)
        ensures
            out@ == self@.bytes(),
            out@.len() == SlotHeader::SIZE,
    {
        let mut out: Vec<u8> = Vec::new();
        push_le(&mut out, self.sequence, 8);
        push_le(&mut out, self.position, 8);
        push_le(&mut out, self.length as u64, 4);
        push_le(&mut out, self._pad0 as u64, 4);
        push_le(&mut out, self.timestamp_nanos, 8);
        push_bytes(&mut out, self._reserved.as_slice());
        proof {
            law_slot_header_round_trip(self@);
            assert(out@ =~= self@.bytes());
        }
        out
    }

    /// The slot header at offset `at` of `mem`.
    pub fn read_from(mem: &[u8], at: usize) -> (h: SlotHeader)
        requires
            at + SlotHeader::SIZE <= mem@.len(),
        ensures
            h@ == SlotHeaderView::of(bytes::range(mem@, at as int, SlotHeader::SIZE as int)),
    {
        assert(mem@.len() == mem.len());
        proof {
            let len = SlotHeader::SIZE as int;
            bytes::lemma_range_of_range(mem@, at as int, len, 0, 8);
            bytes::lemma_range_of_range(mem@, at as int, len, 8, 8);
            bytes::lemma_range_of_range(mem@, at as int, len, 16, 4);
            bytes::lemma_range_of_range(mem@, at as int, len, 20, 4);
            bytes::lemma_range_of_range(mem@, at as int, len, 24, 8);
            bytes::lemma_range_of_range(mem@, at as int, len, 32, 32);
        }
        SlotHeader {
            sequence: read_u64(mem, at),
            position: read_u64(mem, at + 8),
            length: read_u32(mem, at + 16),
            _pad0: read_u32(mem, at + 20),
            timestamp_nanos: read_u64(mem, at + 24),
            _reserved: read_array::<32>(mem, at + 32),
        }
    }
}

/// Bytes of the slot array of a section of `n` slots of `size` bytes.
pub open spec fn data_size(n: int, size: int) -> int {
    n * (64 + size)
}

/// Where the header of section `k` starts.
pub open spec fn section_header_start(k: int) -> int {
    128 + k * 64
}

/// Where the slot array of section `k` starts, among sections with these
/// slot counts and sizes.
pub open spec fn data_start(sections: Seq<(u32, u32)>, k: nat) -> int
    decreases k,
{
    if k == 0 {
        128 + sections.len() as int * 64
    } else {
        let (n, size) = sections[k - 1];
        data_start(sections, (k - 1) as nat) + data_size(n as int, size as int)
    }
}

/// Where slot `i` of section `k` starts.
pub open spec fn slot_start(sections: Seq<(u32, u32)>, k: nat, i: int) -> int {
    data_start(sections, k) + i * (64 + sections[k as int].1)
}

/// Length of a segment of sections with these slot counts and sizes.
pub open spec fn segment_len(sections: Seq<(u32, u32)>) -> int {
    data_start(sections, sections.len())
}

/// Slot arrays lie behind the section table and behind one another.
pub proof fn lemma_data_start(sections: Seq<(u32, u32)>, j: nat, k: nat)
    requires
        j <= k <= sections.len(),
    ensures
        128 + sections.len() * 64 <= data_start(sections, j),
        data_start(sections, j) <= data_start(sections, k),
        j < k ==> data_start(sections, j) + data_size(
            sections[j as int].0 as int,
            sections[j as int].1 as int,
        ) <= data_start(sections, k),
    decreases k,
{
    if k > 0 {
        let (n, size) = sections[k - 1];
        assert(0 <= n * (64 + size)) by (nonlinear_arith);
        if j < k {
            lemma_data_start(sections, j, (k - 1) as nat);
        } else {
            lemma_data_start(sections, (k - 1) as nat, (k - 1) as nat);
        }
    }
}

/// Slots lie behind the section table, inside the segment and without
/// overlap.
pub proof fn law_layout(sections: Seq<(u32, u32)>, k: nat, i: int, l: nat, j: int)
    requires
        k < sections.len(),
        l < sections.len(),
        0 <= i < sections[k as int].0,
        0 <= j < sections[l as int].0,
    ensures
        128 + sections.len() * 64 <= slot_start(sections, k, i),
        slot_start(sections, k, i) + 64 + sections[k as int].1 <= segment_len(sections),
        k < l || (k == l && i < j) ==> slot_start(sections, k, i) + 64 + sections[k as int].1
            <= slot_start(sections, l, j),
{
    let n = sections[k as int].0 as int;
    let size = sections[k as int].1 as int;
    assert(0 <= i * (64 + size)) by (nonlinear_arith)
        requires
            0 <= i,
            0 <= size,
    ;
    assert(i * (64 + size) + (64 + size) <= n * (64 + size)) by (nonlinear_arith)
        requires
            i + 1 <= n,
            0 <= size,
    ;
    lemma_data_start(sections, k, sections.len());
    if k < l {
        let size2 = sections[l as int].1 as int;
        assert(0 <= j * (64 + size2)) by (nonlinear_arith)
            requires
                0 <= j,
                0 <= size2,
        ;
        lemma_data_start(sections, k, l);
    }
    if k == l && i < j {
        assert(i * (64 + size) + (64 + size) <= j * (64 + size)) by (nonlinear_arith)
            requires
                i + 1 <= j,
                0 <= size,
        ;
    }
}

/// Slots start at multiples of eight if all slot sizes are multiples of
/// eight.
pub proof fn law_slots_are_aligned(sections: Seq<(u32, u32)>, k: nat, i: int)
    requires
        k < sections.len(),
        0 <= i,
        forall|s: int| 0 <= s < sections.len() ==> (#[trigger] sections[s]).1 % 8 == 0,
    ensures
        data_start(sections, k) % 8 == 0,
        slot_start(sections, k, i) % 8 == 0,
    decreases k,
{
    let size = sections[k as int].1 as int;
    if k > 0 {
        law_slots_are_aligned(sections, (k - 1) as nat, 0);
        let (n2, size2) = sections[k - 1];
        let b = (size2 / 8) as int;
        assert(n2 * (64 + size2) == 8 * (n2 * (8 + b))) by (nonlinear_arith)
            requires
                size2 == 8 * b,
        ;
    }
    let a = size / 8;
    assert(i * (64 + size) == 8 * (i * (8 + a))) by (nonlinear_arith)
        requires
            size == 8 * a,
    ;
}

/// Offset where the section-header table starts.
pub fn section_table_offset() -> (r: usize)
    ensures
        r == GlobalHeader::SIZE,
{
    GlobalHeader::SIZE
}

/// Offset of the header of the section with this ordinal.
pub fn section_header_offset(ordinal: u32) -> (r: usize)
    requires
        section_header_start(ordinal as int) <= usize::MAX,
    ensures
        r == section_header_start(ordinal as int),
{
    section_table_offset() + (ordinal as usize) * SectionHeader::SIZE
}

/// Offset where slot arrays start.
pub fn sections_data_offset(section_count: u32) -> (r: usize)
    requires
        section_header_start(section_count as int) <= usize::MAX,
    ensures
        r == section_header_start(section_count as int),
{
    section_table_offset() + (section_count as usize) * SectionHeader::SIZE
}

/// Bytes from one slot to the next.
pub fn slot_stride(slot_size_bytes: u32) -> (r: usize)
    requires
        64 + slot_size_bytes <= usize::MAX,
    ensures
        r == SlotHeader::SIZE + slot_size_bytes,
{
    SlotHeader::SIZE + (slot_size_bytes as usize)
}

/// Bytes of one section's slot array, `None` where they do not fit `usize`.
pub fn section_data_size(slot_count: u32, slot_size_bytes: u32) -> (r: Option<usize>)
    ensures
        r == (if data_size(slot_count as int, slot_size_bytes as int) <= usize::MAX {
            Some(data_size(slot_count as int, slot_size_bytes as int) as usize)
        } else {
            None
        }),
{
    proof {
        assert(slot_count * (64 + slot_size_bytes) >= 0) by (nonlinear_arith);
        assert(slot_count * (64 + slot_size_bytes) == (64 + slot_size_bytes) * slot_count)
            by (nonlinear_arith);
        assert(slot_count > 0 ==> slot_count * (64 + slot_size_bytes) >= 64 + slot_size_bytes)
            by (nonlinear_arith);
    }
    if slot_count == 0 {
        return Some(0);
    }
    match SlotHeader::SIZE.checked_add(slot_size_bytes as usize) {
        Some(stride) => stride.checked_mul(slot_count as usize),
        None => None,
    }
}

/// Total segment size in bytes for sections with these slot counts and
/// sizes, `None` where it does not fit `usize` or there are too many.
pub fn region_size_bytes(sections: &[(u32, u32)]) -> (r: Option<usize>)
    ensures
        r == (if sections@.len() <= u32::MAX && segment_len(sections@) <= usize::MAX {
            Some(segment_len(sections@) as usize)
        } else {
            None
        }),
{
    let len: usize = sections.len();
    if len > u32::MAX as usize {
        return None;
    }
    proof {
        lemma_data_start(sections@, 0, sections@.len());
    }
    let mut total: usize = match SectionHeader::SIZE.checked_mul(len) {
        Some(table) => match GlobalHeader::SIZE.checked_add(table) {
            Some(total) => total,
            None => return None,
        },
        None => return None,
    };
    let mut i: usize = 0;
    while i < len
        invariant
            len == sections@.len(),
            i <= len,
            len <= u32::MAX,
            total == data_start(sections@, i as nat),
        decreases len - i,
    {
        proof {
            lemma_data_start(sections@, (i + 1) as nat, sections@.len());
            assert(0 <= data_start(sections@, i as nat)) by {
                lemma_data_start(sections@, i as nat, i as nat);
            }
        }
        let (slot_count, slot_size_bytes) = sections[i];
        let data: usize = match section_data_size(slot_count, slot_size_bytes) {
            Some(data) => data,
            None => return None,
        };
        total = match total.checked_add(data) {
            Some(total) => total,
            None => return None,
        };
        i = i + 1;
    }
    Some(total)
}

} // verus!
