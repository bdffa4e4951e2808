//! A mapped ring segment: its stamping, checking and the accessors of its
//! section and slot headers and payloads.
//!
//! The mapped bytes are passed to each accessor; a `Region` holds what is
//! known about them. Sections are kept sorted by identifier, whatever order
//! they were listed in, and lie in the segment in that order.
use vstd::prelude::*;

use std::collections::HashMap;

use crate::bytes;
use crate::bytes::{bytes_eq, copy_in, copy_out, push_le, read_u32, read_u64};
use crate::lifecycle;
use crate::lifecycle::{CreateStep, MapOutcome, UnlinkStep};
use crate::ring::error;
use crate::ring::error::{Result, TesseraRingError};
use crate::ring::header;
use crate::ring::header::{
    region_size_bytes, section_header_offset, slot_stride, GlobalHeader, GlobalHeaderView,
    SectionHeader, SectionHeaderView, SlotHeader, SlotHeaderView, FORMAT_VERSION, MAGIC,
};
use crate::ring::namespace;
use crate::ring::namespace::NamespaceHandle;
use crate::ring::sections;
use crate::ring::sections::{
    build_section_lookup_tables, canonicalize, section_ids, section_pairs,
    validate_section_config, SectionConfig,
};
use crate::text;

verus! {

broadcast use vstd::std_specs::hash::group_hash_axioms;

/// Offset of the writer position in a section header.
pub const WRITER_POSITION_FIELD_OFFSET: usize = 16;

/// Offset of the sequence word in a slot header.
pub const SEQUENCE_FIELD_OFFSET: usize = 0;

/// Offset of the position in a slot header.
pub const POSITION_FIELD_OFFSET: usize = 8;

/// Offset of the event length in a slot header.
pub const LENGTH_FIELD_OFFSET: usize = 16;

/// Offset of the timestamp in a slot header.
pub const TIMESTAMP_FIELD_OFFSET: usize = 24;

/// One mapped ring segment.
#[derive(Debug)]
pub struct Region {
    sections: Vec<SectionConfig>,
    section_id_to_ordinal: HashMap<u32, u32>,
    section_data_offsets: Vec<usize>,
    shm_name: String,
    is_owner: bool,
    manually_unlinked: bool,
}

/// What a `Region` knows of its segment.
pub struct RegionView {
    /// The sections, in canonical order.
    pub sections: Seq<SectionConfig>,
    /// Name of the segment.
    pub name: Seq<char>,
    /// Created, not attached.
    pub owner: bool,
    /// The name was given back.
    pub unlinked: bool,
}

impl View for Region {
    type V = RegionView;

    closed spec fn view(&self) -> RegionView {
        RegionView {
            sections: self.sections@,
            name: self.shm_name@,
            owner: self.is_owner,
            unlinked: self.manually_unlinked,
        }
    }
}

impl RegionView {
    /// Slot counts and sizes of the sections.
    pub open spec fn pairs(self) -> Seq<(u32, u32)> {
        sections::pairs(self.sections)
    }

    /// The sections are in order and well shaped, and their segment has a
    /// size.
    pub open spec fn valid(self) -> bool {
        &&& 0 < self.sections.len() <= u32::MAX
        &&& sections::well_shaped(self.sections)
        &&& sections::ascending(self.sections)
        &&& header::segment_len(self.pairs()) <= usize::MAX
    }

    /// The mapping is long enough for the segment.
    pub open spec fn fits(self, mem: Seq<u8>) -> bool {
        header::segment_len(self.pairs()) <= mem.len() <= usize::MAX
    }

    /// What the segment holds, by section.
    pub open spec fn ring(self, mem: Seq<u8>) -> Seq<SectionView> {
        ring_of(mem, self.pairs())
    }
}

impl Region {
    /// The lookup tables are those of the sections.
    pub closed spec fn tables_ok(&self) -> bool {
        &&& sections::is_ordinal_table(self.sections@, self.section_id_to_ordinal@)
        &&& sections::are_data_offsets(self.sections@, self.section_data_offsets@)
    }

    /// The region is as its constructors make it.
    pub open spec fn wf(&self) -> bool {
        self@.valid() && self.tables_ok()
    }
}

/// What one slot holds.
#[verifier::ext_equal]
pub struct SlotView {
    /// Sequence word.
    pub sequence: u64,
    /// Position of the event.
    pub position: u64,
    /// Event length.
    pub length: u32,
    /// Time of publishing.
    pub timestamp: u64,
    /// All payload bytes of the slot.
    pub payload: Seq<u8>,
}

impl SlotView {
    /// The event in the slot: as many bytes as its length says, as far as
    /// the slot has them.
    pub open spec fn event(self) -> Seq<u8> {
        if self.length as nat <= self.payload.len() {
            self.payload.take(self.length as int)
        } else {
            self.payload
        }
    }
}

/// What one section holds.
#[verifier::ext_equal]
pub struct SectionView {
    /// Position of the next event to publish.
    pub position: u64,
    /// The slots.
    pub slots: Seq<SlotView>,
}

impl SectionView {
    /// The section with another slot `i`.
    pub open spec fn with_slot(self, i: int, s: SlotView) -> SectionView {
        SectionView { slots: self.slots.update(i, s), ..self }
    }
}

/// The slot that starts at `at`.
pub open spec fn slot_at(mem: Seq<u8>, at: int, size: int) -> SlotView {
    SlotView {
        sequence: bytes::u64_at(mem, at),
        position: bytes::u64_at(mem, at + 8),
        length: bytes::u32_at(mem, at + 16),
        timestamp: bytes::u64_at(mem, at + 24),
        payload: bytes::range(mem, at + 64, size),
    }
}

/// What section `k` of a segment holds.
pub open spec fn section_of(mem: Seq<u8>, ps: Seq<(u32, u32)>, k: nat) -> SectionView {
    SectionView {
        position: bytes::u64_at(mem, header::section_header_start(k as int) + 16),
        slots: Seq::new(
            ps[k as int].0 as nat,
            |i: int| slot_at(mem, header::slot_start(ps, k, i), ps[k as int].1 as int),
        ),
    }
}

/// What a segment holds, by section.
pub open spec fn ring_of(mem: Seq<u8>, ps: Seq<(u32, u32)>) -> Seq<SectionView> {
    Seq::new(ps.len(), |k: int| section_of(mem, ps, k as nat))
}

/// The parts of the headers that never change after creation are the same.
pub open spec fn same_headers(a: Seq<u8>, b: Seq<u8>, count: int) -> bool {
    &&& a.len() == b.len()
    &&& bytes::range(a, 0, 128) == bytes::range(b, 0, 128)
    &&& forall|k: int|
        #![trigger header::section_header_start(k)]
        0 <= k < count ==> bytes::range(a, header::section_header_start(k), 16) == bytes::range(
            b,
            header::section_header_start(k),
            16,
        ) && bytes::range(a, header::section_header_start(k) + 24, 40) == bytes::range(
            b,
            header::section_header_start(k) + 24,
            40,
        )
}

/// Header of a fresh segment.
pub open spec fn fresh_header(digest: Seq<u8>, epoch_micros: u64, section_count: u32) -> GlobalHeaderView {
    GlobalHeaderView {
        magic: MAGIC,
        format_version: FORMAT_VERSION,
        pad0: 0,
        epoch_micros,
        section_count,
        pad1: 0,
        handle_blake3: digest,
        reserved: Seq::new(64, |i: int| 0u8),
    }
}

/// Header of a fresh section.
pub open spec fn fresh_section_header(c: SectionConfig) -> SectionHeaderView {
    SectionHeaderView {
        section_id: c.section_id,
        slot_count: c.slot_count,
        slot_size_bytes: c.slot_size_bytes,
        pad0: 0,
        writer_position: 0,
        reserved: Seq::new(40, |i: int| 0u8),
    }
}

/// The mapping with its global header and the headers of the first `k`
/// sections stamped.
pub open spec fn stamped(
    mem: Seq<u8>,
    h: GlobalHeaderView,
    list: Seq<SectionConfig>,
    k: nat,
) -> Seq<u8>
    decreases k,
{
    if k == 0 {
        bytes::overwrite(mem, 0, h.bytes())
    } else {
        bytes::overwrite(
            stamped(mem, h, list, (k - 1) as nat),
            header::section_header_start(k - 1),
            fresh_section_header(list[k - 1]).bytes(),
        )
    }
}

/// What the header of section `k` says.
pub open spec fn section_header(mem: Seq<u8>, k: int) -> SectionHeaderView {
    SectionHeaderView::of(bytes::range(mem, header::section_header_start(k), 64))
}

/// Words for a section ordinal outside the segment.
pub open spec fn ordinal_words(ordinal: u32, count: nat) -> Seq<char> {
    "section ordinal "@ + text::dec(ordinal as nat) + " out of range (section_count="@ + text::dec(
        count,
    ) + ")"@
}

/// Words for a slot index outside its section.
pub open spec fn slot_range_words(slot_index: u32, ordinal: u32, slot_count: u32) -> Seq<char> {
    "slot_index "@ + text::dec(slot_index as nat) + " out of range for section ordinal "@
        + text::dec(ordinal as nat) + " (slot_count="@ + text::dec(slot_count as nat) + ")"@
}

/// A slot is refused: its section, or its index in the section.
pub open spec fn slot_refused_with(
    list: Seq<SectionConfig>,
    ordinal: u32,
    slot_index: u32,
    e: TesseraRingError,
) -> bool {
    if ordinal >= list.len() {
        error::is_region(e, ordinal_words(ordinal, list.len()))
    } else {
        slot_index >= list[ordinal as int].slot_count && error::is_region(
            e,
            slot_range_words(slot_index, ordinal, list[ordinal as int].slot_count),
        )
    }
}

/// The slot is one of the segment.
pub open spec fn has_slot(list: Seq<SectionConfig>, ordinal: u32, slot_index: u32) -> bool {
    ordinal < list.len() && slot_index < list[ordinal as int].slot_count
}

/// The segment of these sections has no size.
pub open spec fn too_large(list: Seq<SectionConfig>) -> bool {
    let ps = sections::pairs(sections::canonical(list));
    list.len() > u32::MAX || header::segment_len(ps) > usize::MAX
}

/// Why a section list is refused at creation, where it is.
pub open spec fn create_refusal(list: Seq<SectionConfig>) -> Option<Seq<char>> {
    match sections::list_refusal(list) {
        Some(words) => Some(words),
        None => if too_large(list) {
            Some(
                "region size overflow across "@ + text::dec(list.len())
                    + " sections (per-section slot_count * slot_size_bytes exceeds usize::MAX). Reduce slot_count or slot_size_bytes."@,
            )
        } else {
            None
        },
    }
}

/// Words for a name that is taken.
pub open spec fn exists_words(name: Seq<char>) -> Seq<char> {
    "Ring region '"@ + name
        + "' already exists. Refusing to clobber. Possible causes: another owner is alive (do not create a second), OR a prior owner crashed without unlinking. For recovery from a crashed owner, retry with `force_recreate=true` — but only after confirming no live owner exists, since `force_recreate` will unconditionally unlink the existing segment."@
}

/// Words for a mapping that is too short.
pub open spec fn short_words(name: Seq<char>, need: nat, count: nat, have: nat) -> Seq<char> {
    "attached SHM region '"@ + name
        + "' is smaller than expected: caller's section config requires at least "@ + text::dec(
        need,
    ) + " bytes (GlobalHeader 128 + section table + per-section slot data for "@ + text::dec(count)
        + " sections), but the mapped region is only "@ + text::dec(have)
        + " bytes. Possible causes: stale SHM segment from a prior crashed peer, wrong namespace handle, or caller's section config doesn't match the creator's. Bailing out before any raw byte access (Codex P1 #2)."@
}

/// Words for an attacher that tries to remove the name.
pub open spec fn attacher_unlink_words() -> Seq<char> {
    "Region::unlink called by an attacher (is_owner=false). Only the creator may unlink the shared-memory name. Drop this Region to release the attacher's mapping; the creator decides when to unlink."@
}

/// The global header is one that an attacher accepts.
pub open spec fn accepts(h: GlobalHeaderView, digest: Seq<u8>, count: nat) -> bool {
    &&& h.magic == MAGIC
    &&& h.format_version == FORMAT_VERSION
    &&& h.section_count == count
    &&& h.handle_blake3 == digest
}

/// How a global header is refused that an attacher does not accept.
pub open spec fn refused_with(
    h: GlobalHeaderView,
    digest: Seq<u8>,
    count: nat,
    e: TesseraRingError,
) -> bool {
    if h.magic != MAGIC {
        error::is_region(
            e,
            "magic mismatch: expected 0x"@ + text::hex(MAGIC as nat) + ", found 0x"@ + text::hex(
                h.magic as nat,
            ) + " (not a Tessera Ring region?)"@,
        )
    } else if h.format_version != FORMAT_VERSION {
        error::is_header_mismatch(
            e,
            "format_version mismatch"@,
            FORMAT_VERSION,
            h.format_version,
        )
    } else if h.section_count != count {
        error::is_header_mismatch(
            e,
            "section_count mismatch: expected "@ + text::dec(count) + ", found "@ + text::dec(
                h.section_count as nat,
            ),
            FORMAT_VERSION,
            h.format_version,
        )
    } else {
        error::is_region(
            e,
            "handle digest mismatch on attach — your description derives a different handle than the creator's; verify the description string matches across processes (header_blake3 in SHM differs from BLAKE3("@
                + text::debug_text(namespace::shm_name_of(digest)) + "))"@,
        )
    }
}

/// The header of section `k` is that of the configuration.
pub open spec fn section_matches(mem: Seq<u8>, list: Seq<SectionConfig>, k: int) -> bool {
    let h = section_header(mem, k);
    h.section_id == list[k].section_id && h.slot_count == list[k].slot_count && h.slot_size_bytes
        == list[k].slot_size_bytes
}

/// Every section header is that of the configuration.
pub open spec fn sections_match(mem: Seq<u8>, list: Seq<SectionConfig>) -> bool {
    forall|k: int| 0 <= k < list.len() ==> #[trigger] section_matches(mem, list, k)
}

/// The first section whose header is not that of the configuration is `k`,
/// and `e` says so.
pub open spec fn section_refused_with(
    mem: Seq<u8>,
    list: Seq<SectionConfig>,
    k: int,
    e: TesseraRingError,
) -> bool {
    &&& 0 <= k < list.len()
    &&& forall|j: int| 0 <= j < k ==> #[trigger] section_matches(mem, list, j)
    &&& !section_matches(mem, list, k)
    &&& e == (TesseraRingError::SectionConfigMismatch {
        section_id: list[k].section_id,
        expected_count: list[k].slot_count,
        found_count: section_header(mem, k).slot_count,
        expected_size: list[k].slot_size_bytes,
        found_size: section_header(mem, k).slot_size_bytes,
    })
}

/// Stamping leaves everything behind the section table alone, and what was
/// stamped is read back.
pub proof fn law_stamped(
    mem: Seq<u8>,
    h: GlobalHeaderView,
    list: Seq<SectionConfig>,
    k: nat,
)
    requires
        h.handle_blake3.len() == 32,
        h.reserved.len() == 64,
        k <= list.len(),
        128 + list.len() * 64 <= mem.len(),
    ensures
        stamped(mem, h, list, k).len() == mem.len(),
        GlobalHeaderView::of(bytes::range(stamped(mem, h, list, k), 0, 128)) == h,
        forall|j: int|
            0 <= j < k ==> #[trigger] section_header(stamped(mem, h, list, k), j)
                == fresh_section_header(list[j]),
        forall|i: int|
            128 + list.len() * 64 <= i < mem.len() ==> #[trigger] stamped(mem, h, list, k)[i]
                == mem[i],
    decreases k,
{
    if k == 0 {
        header::law_global_header_round_trip(h);
        bytes::lemma_overwrite(mem, 0, h.bytes());
    } else {
        law_stamped(mem, h, list, (k - 1) as nat);
        let before = stamped(mem, h, list, (k - 1) as nat);
        let s = fresh_section_header(list[k - 1]);
        let at = header::section_header_start(k - 1);
        header::law_section_header_round_trip(s);
        bytes::lemma_overwrite(before, at, s.bytes());
        let after = stamped(mem, h, list, k);
        assert(bytes::range(after, 0, 128) == bytes::range(before, 0, 128));
        assert forall|j: int| 0 <= j < k implies #[trigger] section_header(after, j)
            == fresh_section_header(list[j]) by {
            if j < k - 1 {
                assert(section_header(before, j) == fresh_section_header(list[j]));
                assert(bytes::range(after, header::section_header_start(j), 64) == bytes::range(
                    before,
                    header::section_header_start(j),
                    64,
                ));
            }
        }
    }
}

/// An attacher that lists the sections the creator listed, in any order, is
/// accepted.
pub proof fn law_attach_accepts_created(
    mem: Seq<u8>,
    digest: Seq<u8>,
    epoch: u64,
    list: Seq<SectionConfig>,
    other: Seq<SectionConfig>,
)
    requires
        digest.len() == 32,
        other.to_multiset() == list.to_multiset(),
        sections::canonical(list).len() <= u32::MAX,
        128 + sections::canonical(list).len() * 64 <= mem.len(),
    ensures
        ({
            let made = sections::canonical(list);
            let after = stamped(
                mem,
                fresh_header(digest, epoch, made.len() as u32),
                made,
                made.len(),
            );
            let asked = sections::canonical(other);
            &&& accepts(
                GlobalHeaderView::of(bytes::range(after, 0, 128)),
                digest,
                asked.len(),
            )
            &&& sections_match(after, asked)
        }),
{
    sections::law_list_order_is_irrelevant(list, other);
    let made = sections::canonical(list);
    let h = fresh_header(digest, epoch, made.len() as u32);
    law_stamped(mem, h, made, made.len());
    let after = stamped(mem, h, made, made.len());
    assert forall|k: int| 0 <= k < made.len() implies #[trigger] section_matches(after, made, k) by {
        assert(section_header(after, k) == fresh_section_header(made[k]));
    }
}

/// A fresh mapping, all zeros, becomes a ring without events.
pub proof fn law_fresh_ring_is_empty(
    mem: Seq<u8>,
    h: GlobalHeaderView,
    list: Seq<SectionConfig>,
    k: nat,
)
    requires
        h.handle_blake3.len() == 32,
        h.reserved.len() == 64,
        k < list.len(),
        header::segment_len(sections::pairs(list)) <= mem.len(),
        bytes::is_zero(mem),
    ensures
        ({
            let s = section_of(
                stamped(mem, h, list, list.len()),
                sections::pairs(list),
                k,
            );
            &&& s.position == 0
            &&& s.slots.len() == list[k as int].slot_count
            &&& forall|i: int|
                0 <= i < s.slots.len() ==> (#[trigger] s.slots[i]).sequence == 0
                    && s.slots[i].position == 0 && s.slots[i].payload.len()
                    == list[k as int].slot_size_bytes
        }),
{
    let ps = sections::pairs(list);
    header::lemma_data_start(ps, k, ps.len());
    law_stamped(mem, h, list, list.len());
    let after = stamped(mem, h, list, list.len());
    let hs = header::section_header_start(k as int);
    assert(section_header(after, k as int) == fresh_section_header(list[k as int]));
    bytes::lemma_range_of_range(after, hs, 64, 16, 8);
    let s = section_of(after, ps, k);
    assert(s.position == 0);
    assert forall|i: int| 0 <= i < s.slots.len() implies (#[trigger] s.slots[i]).sequence == 0
        && s.slots[i].position == 0 && s.slots[i].payload.len()
        == list[k as int].slot_size_bytes by {
        header::law_layout(ps, k, i, k, i);
        let at = header::slot_start(ps, k, i);
        bytes::lemma_int_round_trip(0, 0);
        reveal_with_fuel(bytes::le_bytes, 9);
        assert(bytes::range(after, at, 8) =~= bytes::le_bytes(0, 8));
        assert(bytes::range(after, at + 8, 8) =~= bytes::le_bytes(0, 8));
    }
}

/// What moving the writer position of section `k` does to the ring: nothing
/// else changes.
proof fn lemma_position_change(mem: Seq<u8>, ps: Seq<(u32, u32)>, k: nat, v: u64)
    requires
        k < ps.len(),
        header::segment_len(ps) <= mem.len(),
    ensures
        ({
            let out = bytes::overwrite(
                mem,
                header::section_header_start(k as int) + 16,
                bytes::le_bytes(v as nat, 8),
            );
            &&& ring_of(out, ps) == ring_of(mem, ps).update(
                k as int,
                SectionView { position: v, ..ring_of(mem, ps)[k as int] },
            )
            &&& same_headers(mem, out, ps.len() as int)
        }),
{
    let at = header::section_header_start(k as int) + 16;
    let w = bytes::le_bytes(v as nat, 8);
    bytes::lemma_int_round_trip(0, v);
    header::lemma_data_start(ps, 0, ps.len());
    bytes::lemma_overwrite(mem, at, w);
    let out = bytes::overwrite(mem, at, w);
    assert forall|j: nat| j < ps.len() implies #[trigger] section_of(out, ps, j) == (if j == k {
        SectionView { position: v, ..section_of(mem, ps, j) }
    } else {
        section_of(mem, ps, j)
    }) by {
        assert forall|i: int| 0 <= i < ps[j as int].0 implies slot_at(
            out,
            #[trigger] header::slot_start(ps, j, i),
            ps[j as int].1 as int,
        ) == slot_at(mem, header::slot_start(ps, j, i), ps[j as int].1 as int) by {
            header::law_layout(ps, j, i, j, i);
        }
        assert(section_of(out, ps, j).slots =~= section_of(mem, ps, j).slots);
        if j != k {
            assert(bytes::range(out, header::section_header_start(j as int) + 16, 8)
                == bytes::range(mem, header::section_header_start(j as int) + 16, 8));
        }
    }
    assert(ring_of(out, ps) =~= ring_of(mem, ps).update(
        k as int,
        SectionView { position: v, ..ring_of(mem, ps)[k as int] },
    ));
}

/// What writing inside slot `i` of section `k` does to the ring: nothing
/// outside that slot changes.
proof fn lemma_slot_frame(
    mem: Seq<u8>,
    ps: Seq<(u32, u32)>,
    k: nat,
    i: int,
    off: int,
    w: Seq<u8>,
)
    requires
        k < ps.len(),
        0 <= i < ps[k as int].0,
        header::segment_len(ps) <= mem.len(),
        0 <= off,
        off + w.len() <= 64 + ps[k as int].1,
    ensures
        ({
            let at = header::slot_start(ps, k, i);
            let size = ps[k as int].1 as int;
            let out = bytes::overwrite(mem, at + off, w);
            let s = ring_of(mem, ps)[k as int];
            &&& ring_of(out, ps) == ring_of(mem, ps).update(
                k as int,
                s.with_slot(i, slot_at(out, at, size)),
            )
            &&& same_headers(mem, out, ps.len() as int)
        }),
{
    let at = header::slot_start(ps, k, i);
    let size = ps[k as int].1 as int;
    let out = bytes::overwrite(mem, at + off, w);
    header::law_layout(ps, k, i, k, i);
    header::lemma_data_start(ps, 0, ps.len());
    bytes::lemma_overwrite(mem, at + off, w);
    assert forall|l: nat, j: int|
        l < ps.len() && 0 <= j < ps[l as int].0 && !(l == k && j == i) implies slot_at(
        out,
        #[trigger] header::slot_start(ps, l, j),
        ps[l as int].1 as int,
    ) == slot_at(mem, header::slot_start(ps, l, j), ps[l as int].1 as int) by {
        header::law_layout(ps, k, i, l, j);
        header::law_layout(ps, l, j, k, i);
    }
    let s = ring_of(mem, ps)[k as int];
    assert forall|l: nat| l < ps.len() && l != k implies #[trigger] section_of(out, ps, l)
        == section_of(mem, ps, l) by {
        assert(section_of(out, ps, l).slots =~= section_of(mem, ps, l).slots);
    }
    assert(section_of(out, ps, k).slots =~= s.with_slot(i, slot_at(out, at, size)).slots);
    assert(ring_of(out, ps) =~= ring_of(mem, ps).update(
        k as int,
        s.with_slot(i, slot_at(out, at, size)),
    ));
}

/// Writes a 64-bit word.
fn put_u64(mem: &mut [u8], at: usize, v: u64)
    requires
        at + 8 <= old(mem)@.len(),
    ensures
        final(mem)@ == bytes::overwrite(old(mem)@, at as int, bytes::le_bytes(v as nat, 8)),
{
    let mut w: Vec<u8> = Vec::new();
    push_le(&mut w, v, 8);
    proof {
        bytes::lemma_int_round_trip(0, v);
        assert(w@ =~= bytes::le_bytes(v as nat, 8));
    }
    copy_in(mem, at, w.as_slice());
}

/// Writes a 32-bit word.
fn put_u32(mem: &mut [u8], at: usize, v: u32)
    requires
        at + 4 <= old(mem)@.len(),
    ensures
        final(mem)@ == bytes::overwrite(old(mem)@, at as int, bytes::le_bytes(v as nat, 4)),
{
    let mut w: Vec<u8> = Vec::new();
    push_le(&mut w, v as u64, 4);
    proof {
        bytes::lemma_int_round_trip(v, 0);
        assert(w@ =~= bytes::le_bytes(v as nat, 4));
    }
    copy_in(mem, at, w.as_slice());
}

/// The canonical list of an accepted one, and the size of its segment where
/// it has one.
fn plan(list: &[SectionConfig]) -> (r: Result<(Vec<SectionConfig>, Option<usize>)>)
    ensures
        match sections::list_refusal(list@) {
            Some(words) => r matches Err(e) && error::is_config(e, words),
            None => r matches Ok((canonical, size)) && {
                &&& canonical@ == sections::canonical(list@)
                &&& canonical@.len() == list@.len()
                &&& canonical@.len() > 0
                &&& sections::well_shaped(canonical@)
                &&& sections::ascending(canonical@)
                &&& size is Some <==> !too_large(list@)
                &&& size is Some ==> size->0 == header::segment_len(sections::pairs(canonical@))
            },
        },
{
    match validate_section_config(list) {
        Ok(_) => {},
        Err(e) => return Err(e),
    }
    proof {
        sections::law_accepted_list(list@);
    }
    let canonical = canonicalize(list);
    let pairs = section_pairs(canonical.as_slice());
    let size: Option<usize> = region_size_bytes(pairs.as_slice());
    proof {
        header::lemma_data_start(pairs@, 0, pairs@.len());
    }
    Ok((canonical, size))
}

impl Region {
    /// Size of the segment to create, or why the section list is refused.
    pub fn plan_create(list: &[SectionConfig]) -> (r: Result<usize>)
        ensures
            match create_refusal(list@) {
                Some(words) => r matches Err(e) && error::is_config(e, words),
                None => r == Ok::<usize, TesseraRingError>(
                    header::segment_len(sections::pairs(sections::canonical(list@))) as usize,
                ),
            },
    {
        let (canonical, size) = match plan(list) {
            Ok(p) => p,
            Err(e) => return Err(e),
        };
        match size {
            Some(size) => Ok(size),
            None => {
                let mut m = String::from_str("region size overflow across ");
                text::push_dec(&mut m, list.len() as u64);
                m.append(
                    " sections (per-section slot_count * slot_size_bytes exceeds usize::MAX). Reduce slot_count or slot_size_bytes.",
                );
                Err(TesseraRingError::Config(m))
            },
        }
    }

    /// Decides what follows an attempt to create the named segment.
    pub fn create_step(
        handle: &NamespaceHandle,
        outcome: MapOutcome,
        retried: bool,
        force_recreate: bool,
    ) -> (r: Result<CreateStep>)
        ensures
            match outcome {
                MapOutcome::Mapped => r == Ok::<CreateStep, TesseraRingError>(CreateStep::Stamp),
                MapOutcome::Exists(e) => if !retried && force_recreate {
                    r == Ok::<CreateStep, TesseraRingError>(CreateStep::UnlinkAndRetry)
                } else if !retried {
                    r matches Err(x) && error::is_region(
                        x,
                        exists_words(namespace::shm_name_of(handle@)),
                    )
                } else {
                    r matches Err(x) && error::is_region(
                        x,
                        lifecycle::create_failure_text(retried, e@),
                    )
                },
                MapOutcome::Failed(e) => r matches Err(x) && error::is_region(
                    x,
                    lifecycle::create_failure_text(retried, e@),
                ),
            },
    {
        let mut refusal = String::from_str("Ring region '");
        refusal.append(handle.shm_name().as_str());
        refusal.append(
            "' already exists. Refusing to clobber. Possible causes: another owner is alive (do not create a second), OR a prior owner crashed without unlinking. For recovery from a crashed owner, retry with `force_recreate=true` — but only after confirming no live owner exists, since `force_recreate` will unconditionally unlink the existing segment.",
        );
        match lifecycle::create_step(outcome, retried, force_recreate, refusal) {
            Ok(step) => Ok(step),
            Err(m) => Err(TesseraRingError::Region(m)),
        }
    }

    /// Creator path: stamps the headers of a fresh mapping. The mapping is
    /// expected to be zeroed, which is a ring without events.
    pub fn create(
        mem: &mut [u8],
        handle: &NamespaceHandle,
        list: &[SectionConfig],
        epoch_micros: u64,
    ) -> (r: Result<Region>)
        requires
            create_refusal(list@) is None ==> header::segment_len(
                sections::pairs(sections::canonical(list@)),
            ) <= old(mem)@.len(),
        ensures
            match create_refusal(list@) {
                Some(words) => r matches Err(e) && error::is_config(e, words) && final(mem)@
                    == old(mem)@,
                None => r matches Ok(region) && region.wf() && region@ == (RegionView {
                    sections: sections::canonical(list@),
                    name: namespace::shm_name_of(handle@),
                    owner: true,
                    unlinked: false,
                }) && final(mem)@ == stamped(
                    old(mem)@,
                    fresh_header(handle@, epoch_micros, list@.len() as u32),
                    sections::canonical(list@),
                    list@.len(),
                ),
            },
            final(mem)@.len() == old(mem)@.len(),
    {
        match Region::plan_create(list) {
            Ok(_) => {},
            Err(e) => return Err(e),
        }
        let (canonical, _) = match plan(list) {
            Ok(p) => p,
            Err(e) => return Err(e),
        };
        let (section_id_to_ordinal, section_data_offsets) = build_section_lookup_tables(
            canonical.as_slice(),
        );
        let count: u32 = canonical.len() as u32;
        let h = GlobalHeader {
            magic: MAGIC,
            format_version: FORMAT_VERSION,
            _pad0: 0,
            epoch_micros,
            section_count: count,
            _pad1: 0,
            handle_blake3: handle.full_digest(),
            _reserved: [0u8; 64],
        };
        let ghost mem0 = mem@;
        let ghost ps = sections::pairs(canonical@);
        assert(mem@.len() == mem.len());
        proof {
            assert(h@ =~= fresh_header(handle@, epoch_micros, count));
            header::lemma_data_start(ps, 0, ps.len());
        }
        copy_in(mem, 0, h.to_bytes().as_slice());
        let mut i: u32 = 0;
        while i < count
            invariant
                i <= count,
                count == canonical@.len(),
                128 + count * 64 <= mem0.len() <= usize::MAX,
                mem@.len() == mem0.len(),
                h@ == fresh_header(handle@, epoch_micros, count),
                mem@ == stamped(mem0, h@, canonical@, i as nat),
            decreases count - i,
        {
            let c = canonical[i as usize];
            let sh = SectionHeader {
                section_id: c.section_id(),
                slot_count: c.slot_count(),
                slot_size_bytes: c.slot_size_bytes(),
                _pad0: 0,
                writer_position: 0,
                _reserved: [0u8; 40],
            };
            assert(sh@ =~= fresh_section_header(canonical@[i as int]));
            copy_in(mem, section_header_offset(i), sh.to_bytes().as_slice());
            i = i + 1;
        }
        Ok(
            Region {
                sections: canonical,
                section_id_to_ordinal,
                section_data_offsets,
                shm_name: handle.shm_name(),
                is_owner: true,
                manually_unlinked: false,
            },
        )
    }

    /// Attacher path: checks the length and the headers of an existing
    /// mapping against what the caller expects. A mapping that is too short
    /// is refused before anything in it is read.
    pub fn attach(mem: &[u8], handle: &NamespaceHandle, list: &[SectionConfig]) -> (r: Result<
        Region,
    >)
        ensures
            ({
                let canonical = sections::canonical(list@);
                let need = header::segment_len(sections::pairs(canonical));
                let h = GlobalHeaderView::of(bytes::range(mem@, 0, 128));
                if sections::list_refusal(list@) is Some {
                    r matches Err(e) && error::is_config(e, sections::list_refusal(list@)->0)
                } else if too_large(list@) {
                    r matches Err(e) && error::is_config(
                        e,
                        "region size overflow across "@ + text::dec(list@.len())
                            + " sections (caller's per-section slot_count * slot_size_bytes exceeds usize::MAX)"@,
                    )
                } else if mem@.len() < need {
                    r matches Err(e) && error::is_region(
                        e,
                        short_words(
                            namespace::shm_name_of(handle@),
                            need as nat,
                            list@.len(),
                            mem@.len(),
                        ),
                    )
                } else if !accepts(h, handle@, list@.len()) {
                    r matches Err(e) && refused_with(h, handle@, list@.len(), e)
                } else {
                    match r {
                        Ok(region) => sections_match(mem@, canonical) && region.wf() && region@
                            == (RegionView {
                            sections: canonical,
                            name: namespace::shm_name_of(handle@),
                            owner: false,
                            unlinked: false,
                        }),
                        Err(e) => exists|k: int| section_refused_with(mem@, canonical, k, e),
                    }
                }
            }),
    {
        let (canonical, size) = match plan(list) {
            Ok(p) => p,
            Err(e) => return Err(e),
        };
        let expected_size: usize = match size {
            Some(size) => size,
            None => {
                let mut m = String::from_str("region size overflow across ");
                text::push_dec(&mut m, list.len() as u64);
                m.append(
                    " sections (caller's per-section slot_count * slot_size_bytes exceeds usize::MAX)",
                );
                return Err(TesseraRingError::Config(m));
            },
        };
        let shm_name = handle.shm_name();
        if mem.len() < expected_size {
            let mut m = String::from_str("attached SHM region '");
            m.append(shm_name.as_str());
            m.append("' is smaller than expected: caller's section config requires at least ");
            text::push_dec(&mut m, expected_size as u64);
            m.append(" bytes (GlobalHeader 128 + section table + per-section slot data for ");
            text::push_dec(&mut m, list.len() as u64);
            m.append(" sections), but the mapped region is only ");
            text::push_dec(&mut m, mem.len() as u64);
            m.append(
                " bytes. Possible causes: stale SHM segment from a prior crashed peer, wrong namespace handle, or caller's section config doesn't match the creator's. Bailing out before any raw byte access (Codex P1 #2).",
            );
            return Err(TesseraRingError::Region(m));
        }
        let ghost ps = sections::pairs(canonical@);
        assert(mem@.len() == mem.len());
        proof {
            header::lemma_data_start(ps, 0, ps.len());
        }
        let (section_id_to_ordinal, section_data_offsets) = build_section_lookup_tables(
            canonical.as_slice(),
        );
        let region = Region {
            sections: canonical,
            section_id_to_ordinal,
            section_data_offsets,
            shm_name,
            is_owner: false,
            manually_unlinked: false,
        };
        match region.validate_attached_global_header(mem, handle) {
            Ok(_) => {},
            Err(e) => return Err(e),
        }
        match region.validate_attached_section_headers(mem) {
            Ok(_) => {},
            Err(e) => return Err(e),
        }
        Ok(region)
    }

    fn validate_attached_global_header(&self, mem: &[u8], handle: &NamespaceHandle) -> (r: Result<
        (),
    >)
        requires
            self.wf(),
            self@.fits(mem@),
        ensures
            ({
                let h = GlobalHeaderView::of(bytes::range(mem@, 0, 128));
                match r {
                    Ok(_) => accepts(h, handle@, self@.sections.len()),
                    Err(e) => !accepts(h, handle@, self@.sections.len()) && refused_with(
                        h,
                        handle@,
                        self@.sections.len(),
                        e,
                    ),
                }
            }),
    {
        let h = self.read_global_header(mem);
        if h.magic != MAGIC {
            let mut m = String::from_str("magic mismatch: expected 0x");
            text::push_hex(&mut m, MAGIC);
            m.append(", found 0x");
            text::push_hex(&mut m, h.magic);
            m.append(" (not a Tessera Ring region?)");
            return Err(TesseraRingError::Region(m));
        }
        if h.format_version != FORMAT_VERSION {
            return Err(
                TesseraRingError::HeaderMismatch {
                    message: String::from_str("format_version mismatch"),
                    expected_format: FORMAT_VERSION,
                    found_format: h.format_version,
                },
            );
        }
        if h.section_count != self.sections.len() as u32 {
            let mut m = String::from_str("section_count mismatch: expected ");
            text::push_dec(&mut m, self.sections.len() as u64);
            m.append(", found ");
            text::push_dec(&mut m, h.section_count as u64);
            return Err(
                TesseraRingError::HeaderMismatch {
                    message: m,
                    expected_format: FORMAT_VERSION,
                    found_format: h.format_version,
                },
            );
        }
        if !bytes_eq(h.handle_blake3.as_slice(), handle.full_digest().as_slice()) {
            let mut m = String::from_str(
                "handle digest mismatch on attach — your description derives a different handle than the creator's; verify the description string matches across processes (header_blake3 in SHM differs from BLAKE3(",
            );
            m.append(text::debug_string(handle.shm_name().as_str()).as_str());
            m.append("))");
            return Err(TesseraRingError::Region(m));
        }
        Ok(())
    }

    fn validate_attached_section_headers(&self, mem: &[u8]) -> (r: Result<()>)
        requires
            self.wf(),
            self@.fits(mem@),
        ensures
            match r {
                Ok(_) => sections_match(mem@, self@.sections),
                Err(e) => exists|k: int| section_refused_with(mem@, self@.sections, k, e),
            },
    {
        let count: u32 = self.sections.len() as u32;
        let mut i: u32 = 0;
        while i < count
            invariant
                i <= count,
                count == self@.sections.len(),
                self.sections@ == self@.sections,
                self.wf(),
                self@.fits(mem@),
                forall|j: int| 0 <= j < i ==> #[trigger] section_matches(mem@, self@.sections, j),
            decreases count - i,
        {
            let c = self.sections[i as usize];
            let h = match self.read_section_header(mem, i) {
                Ok(h) => h,
                Err(e) => return Err(e),
            };
            if h.section_id != c.section_id() || h.slot_count != c.slot_count()
                || h.slot_size_bytes != c.slot_size_bytes() {
                let e = TesseraRingError::SectionConfigMismatch {
                    section_id: c.section_id(),
                    expected_count: c.slot_count(),
                    found_count: h.slot_count,
                    expected_size: c.slot_size_bytes(),
                    found_size: h.slot_size_bytes,
                };
                assert(section_refused_with(mem@, self@.sections, i as int, e));
                return Err(e);
            }
            assert(section_matches(mem@, self@.sections, i as int));
            i = i + 1;
        }
        Ok(())
    }

    /// Whether this region was created, as opposed to attached.
    pub fn is_owner(&self) -> (r: bool)
        ensures
            r == self@.owner,
    {
        self.is_owner
    }

    /// Number of sections.
    pub fn section_count(&self) -> (r: u32)
        requires
            self.wf(),
        ensures
            r == self@.sections.len(),
    {
        self.sections.len() as u32
    }

    /// The sections, in canonical order.
    pub fn sections(&self) -> (r: &[SectionConfig])
        ensures
            r@ == self@.sections,
    {
        self.sections.as_slice()
    }

    /// Name of the segment.
    pub fn shm_name(&self) -> (r: &str)
        ensures
            r@ == self@.name,
    {
        self.shm_name.as_str()
    }

    /// Configuration of the section with this ordinal.
    pub fn section_config(&self, ordinal: u32) -> (r: Result<SectionConfig>)
        ensures
            match r {
                Ok(c) => ordinal < self@.sections.len() && c == self@.sections[ordinal as int],
                Err(e) => ordinal >= self@.sections.len() && error::is_region(
                    e,
                    ordinal_words(ordinal, self@.sections.len()),
                ),
            },
    {
        match self.check_ordinal(ordinal) {
            Ok(_) => Ok(self.sections[ordinal as usize]),
            Err(e) => Err(e),
        }
    }

    /// Ordinal of the section with this identifier.
    pub fn section_ordinal(&self, section_id: u32) -> (r: Result<u32>)
        requires
            self.wf(),
        ensures
            match r {
                Ok(k) => k < self@.sections.len() && self@.sections[k as int].section_id
                    == section_id,
                Err(e) => {
                    &&& forall|k: int|
                        0 <= k < self@.sections.len() ==> (
                        #[trigger] self@.sections[k]).section_id != section_id
                    &&& e matches TesseraRingError::UnknownSection { section_id: id, configured }
                        && id == section_id && configured@ == sections::ids(self@.sections)
                },
            },
    {
        match self.section_id_to_ordinal.get(&section_id) {
            Some(k) => Ok(*k),
            None => Err(
                TesseraRingError::UnknownSection {
                    section_id,
                    configured: section_ids(&self.sections),
                },
            ),
        }
    }

    /// Wall-clock microseconds at creation, as the header says.
    pub fn epoch_micros(&self, mem: &[u8]) -> (r: u64)
        requires
            mem@.len() >= GlobalHeader::SIZE,
        ensures
            r == GlobalHeaderView::of(bytes::range(mem@, 0, 128)).epoch_micros,
    {
        GlobalHeader::read_from(mem, 0).epoch_micros
    }

    /// The global header of the segment.
    pub fn read_global_header(&self, mem: &[u8]) -> (h: GlobalHeader)
        requires
            self.wf(),
            self@.fits(mem@),
        ensures
            h@ == GlobalHeaderView::of(bytes::range(mem@, 0, 128)),
    {
        proof {
            header::lemma_data_start(self@.pairs(), 0, self@.pairs().len());
        }
        GlobalHeader::read_from(mem, 0)
    }

    fn check_ordinal(&self, ordinal: u32) -> (r: Result<()>)
        ensures
            match r {
                Ok(_) => ordinal < self@.sections.len(),
                Err(e) => ordinal >= self@.sections.len() && error::is_region(
                    e,
                    ordinal_words(ordinal, self@.sections.len()),
                ),
            },
    {
        if ordinal as usize >= self.sections.len() {
            let mut m = String::from_str("section ordinal ");
            text::push_dec(&mut m, ordinal as u64);
            m.append(" out of range (section_count=");
            text::push_dec(&mut m, self.sections.len() as u64);
            m.append(")");
            return Err(TesseraRingError::Region(m));
        }
        Ok(())
    }

    fn check_slot_index(&self, ordinal: u32, slot_index: u32) -> (r: Result<()>)
        ensures
            match r {
                Ok(_) => has_slot(self@.sections, ordinal, slot_index),
                Err(e) => !has_slot(self@.sections, ordinal, slot_index) && slot_refused_with(
                    self@.sections,
                    ordinal,
                    slot_index,
                    e,
                ),
            },
    {
        match self.check_ordinal(ordinal) {
            Ok(_) => {},
            Err(e) => return Err(e),
        }
        let c = self.sections[ordinal as usize];
        if slot_index >= c.slot_count() {
            let mut m = String::from_str("slot_index ");
            text::push_dec(&mut m, slot_index as u64);
            m.append(" out of range for section ordinal ");
            text::push_dec(&mut m, ordinal as u64);
            m.append(" (slot_count=");
            text::push_dec(&mut m, c.slot_count() as u64);
            m.append(")");
            return Err(TesseraRingError::Region(m));
        }
        Ok(())
    }

    /// Reads the header of the section with this ordinal.
    pub fn read_section_header(&self, mem: &[u8], ordinal: u32) -> (r: Result<SectionHeader>)
        requires
            self.wf(),
            self@.fits(mem@),
        ensures
            match r {
                Ok(h) => ordinal < self@.sections.len() && h@ == section_header(
                    mem@,
                    ordinal as int,
                ),
                Err(e) => ordinal >= self@.sections.len() && error::is_region(
                    e,
                    ordinal_words(ordinal, self@.sections.len()),
                ),
            },
    {
        match self.check_ordinal(ordinal) {
            Ok(_) => {},
            Err(e) => return Err(e),
        }
        proof {
            header::lemma_data_start(self@.pairs(), 0, self@.pairs().len());
        }
        Ok(SectionHeader::read_from(mem, section_header_offset(ordinal)))
    }

    /// Writes the header of the section with this ordinal.
    pub fn write_section_header(&self, mem: &mut [u8], ordinal: u32, sh: SectionHeader) -> (r:
        Result<()>)
        requires
            self.wf(),
            self@.fits(old(mem)@),
        ensures
            match r {
                Ok(_) => ordinal < self@.sections.len() && final(mem)@ == bytes::overwrite(
                    old(mem)@,
                    header::section_header_start(ordinal as int),
                    sh@.bytes(),
                ),
                Err(e) => ordinal >= self@.sections.len() && error::is_region(
                    e,
                    ordinal_words(ordinal, self@.sections.len()),
                ) && final(mem)@ == old(mem)@,
            },
    {
        match self.check_ordinal(ordinal) {
            Ok(_) => {},
            Err(e) => return Err(e),
        }
        proof {
            header::lemma_data_start(self@.pairs(), 0, self@.pairs().len());
        }
        copy_in(mem, section_header_offset(ordinal), sh.to_bytes().as_slice());
        Ok(())
    }

    /// Offset of a slot that the segment has.
    fn slot_offset(&self, ordinal: u32, slot_index: u32) -> (at: usize)
        requires
            self.wf(),
            has_slot(self@.sections, ordinal, slot_index),
        ensures
            at == header::slot_start(self@.pairs(), ordinal as nat, slot_index as int),
            at + 64 + self@.sections[ordinal as int].slot_size_bytes <= header::segment_len(
                self@.pairs(),
            ),
            at % 8 == 0,
    {
        let c = self.sections[ordinal as usize];
        proof {
            let ps = self@.pairs();
            header::law_layout(
                ps,
                ordinal as nat,
                slot_index as int,
                ordinal as nat,
                slot_index as int,
            );
            header::lemma_data_start(ps, 0, ordinal as nat);
            header::law_slots_are_aligned(ps, ordinal as nat, slot_index as int);
            assert(0 <= slot_index * (64 + c.slot_size_bytes)) by (nonlinear_arith);
            assert(ps[ordinal as int].1 == c.slot_size_bytes);
        }
        let section_start: usize = self.section_data_offsets[ordinal as usize];
        section_start + (slot_index as usize) * slot_stride(c.slot_size_bytes())
    }

    /// Reads the header of a slot.
    pub fn read_slot_header(&self, mem: &[u8], ordinal: u32, slot_index: u32) -> (r: Result<
        SlotHeader,
    >)
        requires
            self.wf(),
            self@.fits(mem@),
        ensures
            match r {
                Ok(h) => has_slot(self@.sections, ordinal, slot_index) && h@ == SlotHeaderView::of(
                    bytes::range(
                        mem@,
                        header::slot_start(self@.pairs(), ordinal as nat, slot_index as int),
                        64,
                    ),
                ),
                Err(e) => !has_slot(self@.sections, ordinal, slot_index) && slot_refused_with(
                    self@.sections,
                    ordinal,
                    slot_index,
                    e,
                ),
            },
    {
        match self.check_slot_index(ordinal, slot_index) {
            Ok(_) => {},
            Err(e) => return Err(e),
        }
        Ok(SlotHeader::read_from(mem, self.slot_offset(ordinal, slot_index)))
    }

    /// Writes the header of a slot.
    pub fn write_slot_header(
        &self,
        mem: &mut [u8],
        ordinal: u32,
        slot_index: u32,
        sh: SlotHeader,
    ) -> (r: Result<()>)
        requires
            self.wf(),
            self@.fits(old(mem)@),
        ensures
            match r {
                Ok(_) => has_slot(self@.sections, ordinal, slot_index) && final(mem)@
                    == bytes::overwrite(
                    old(mem)@,
                    header::slot_start(self@.pairs(), ordinal as nat, slot_index as int),
                    sh@.bytes(),
                ),
                Err(e) => !has_slot(self@.sections, ordinal, slot_index) && slot_refused_with(
                    self@.sections,
                    ordinal,
                    slot_index,
                    e,
                ) && final(mem)@ == old(mem)@,
            },
    {
        match self.check_slot_index(ordinal, slot_index) {
            Ok(_) => {},
            Err(e) => return Err(e),
        }
        let at: usize = self.slot_offset(ordinal, slot_index);
        copy_in(mem, at, sh.to_bytes().as_slice());
        Ok(())
    }

    /// Copies `payload` to the start of a slot's payload.
    pub fn write_slot_payload(
        &self,
        mem: &mut [u8],
        ordinal: u32,
        slot_index: u32,
        payload: &[u8],
    ) -> (r: Result<()>)
        requires
            self.wf(),
            self@.fits(old(mem)@),
        ensures
            same_headers(old(mem)@, final(mem)@, self@.sections.len() as int),
            match r {
                Ok(_) => {
                    let k = ordinal as int;
                    let s = self@.ring(old(mem)@)[k];
                    let t = s.slots[slot_index as int];
                    &&& has_slot(self@.sections, ordinal, slot_index)
                    &&& payload@.len() <= self@.sections[k].slot_size_bytes
                    &&& self@.ring(final(mem)@) == self@.ring(old(mem)@).update(
                        k,
                        s.with_slot(
                            slot_index as int,
                            SlotView { payload: bytes::overwrite(t.payload, 0, payload@), ..t },
                        ),
                    )
                },
                Err(e) => final(mem)@ == old(mem)@ && if !has_slot(
                    self@.sections,
                    ordinal,
                    slot_index,
                ) {
                    slot_refused_with(self@.sections, ordinal, slot_index, e)
                } else {
                    let size = self@.sections[ordinal as int].slot_size_bytes;
                    payload@.len() > size && error::is_region(
                        e,
                        "payload size "@ + text::dec(payload@.len()) + " exceeds slot capacity "@
                            + text::dec(size as nat) + " for section ordinal "@ + text::dec(
                            ordinal as nat,
                        ),
                    )
                },
            },
    {
        match self.check_slot_index(ordinal, slot_index) {
            Ok(_) => {},
            Err(e) => return Err(e),
        }
        let c = self.sections[ordinal as usize];
        if payload.len() > c.slot_size_bytes() as usize {
            let mut m = String::from_str("payload size ");
            text::push_dec(&mut m, payload.len() as u64);
            m.append(" exceeds slot capacity ");
            text::push_dec(&mut m, c.slot_size_bytes() as u64);
            m.append(" for section ordinal ");
            text::push_dec(&mut m, ordinal as u64);
            return Err(TesseraRingError::Region(m));
        }
        let at: usize = self.slot_offset(ordinal, slot_index);
        let ghost mem0 = mem@;
        let ghost ps = self@.pairs();
        proof {
            lemma_slot_frame(
                mem@,
                ps,
                ordinal as nat,
                slot_index as int,
                64,
                payload@,
            );
        }
        copy_in(mem, at + SlotHeader::SIZE, payload);
        proof {
            let size = c.slot_size_bytes as int;
            bytes::lemma_overwrite(mem0, at + 64, payload@);
            let t = slot_at(mem0, at as int, size);
            assert(self@.ring(mem0)[ordinal as int].slots[slot_index as int] == t);
            assert(bytes::range(mem@, at + 64, size) =~= bytes::overwrite(t.payload, 0, payload@));
            assert(slot_at(mem@, at as int, size) == (SlotView {
                payload: bytes::overwrite(t.payload, 0, payload@),
                ..t
            }));
        }
        Ok(())
    }

    /// Copies out the first `payload_len` bytes of a slot's payload.
    pub fn read_slot_payload(
        &self,
        mem: &[u8],
        ordinal: u32,
        slot_index: u32,
        payload_len: u32,
    ) -> (r: Result<Vec<u8>>)
        requires
            self.wf(),
            self@.fits(mem@),
        ensures
            match r {
                Ok(out) => {
                    let k = ordinal as int;
                    &&& has_slot(self@.sections, ordinal, slot_index)
                    &&& payload_len <= self@.sections[k].slot_size_bytes
                    &&& out@ == self@.ring(mem@)[k].slots[slot_index as int].payload.take(
                        payload_len as int,
                    )
                },
                Err(e) => if !has_slot(self@.sections, ordinal, slot_index) {
                    slot_refused_with(self@.sections, ordinal, slot_index, e)
                } else {
                    let size = self@.sections[ordinal as int].slot_size_bytes;
                    payload_len > size && error::is_region(
                        e,
                        "payload_len "@ + text::dec(payload_len as nat) + " exceeds slot capacity "@
                            + text::dec(size as nat) + " for section ordinal "@ + text::dec(
                            ordinal as nat,
                        ),
                    )
                },
            },
    {
        match self.check_slot_index(ordinal, slot_index) {
            Ok(_) => {},
            Err(e) => return Err(e),
        }
        let c = self.sections[ordinal as usize];
        if payload_len > c.slot_size_bytes() {
            let mut m = String::from_str("payload_len ");
            text::push_dec(&mut m, payload_len as u64);
            m.append(" exceeds slot capacity ");
            text::push_dec(&mut m, c.slot_size_bytes() as u64);
            m.append(" for section ordinal ");
            text::push_dec(&mut m, ordinal as u64);
            return Err(TesseraRingError::Region(m));
        }
        let at: usize = self.slot_offset(ordinal, slot_index);
        let out = copy_out(mem, at + SlotHeader::SIZE, payload_len as usize);
        assert(out@ =~= self@.ring(mem@)[ordinal as int].slots[slot_index as int].payload.take(
            payload_len as int,
        ));
        Ok(out)
    }

    /// Offset of a section's writer position, for atomic access.
    pub fn writer_position_atomic(&self, ordinal: u32) -> (r: Result<usize>)
        requires
            self.wf(),
        ensures
            match r {
                Ok(at) => {
                    &&& ordinal < self@.sections.len()
                    &&& at == header::section_header_start(ordinal as int) + 16
                    &&& at % 8 == 0
                    &&& at + 8 <= header::segment_len(self@.pairs())
                },
                Err(e) => ordinal >= self@.sections.len() && error::is_region(
                    e,
                    ordinal_words(ordinal, self@.sections.len()),
                ),
            },
    {
        match self.check_ordinal(ordinal) {
            Ok(_) => {},
            Err(e) => return Err(e),
        }
        proof {
            header::lemma_data_start(self@.pairs(), 0, self@.pairs().len());
        }
        Ok(section_header_offset(ordinal) + WRITER_POSITION_FIELD_OFFSET)
    }

    /// Offset of a slot's sequence word, for atomic access.
    pub fn slot_sequence_atomic(&self, ordinal: u32, slot_index: u32) -> (r: Result<usize>)
        requires
            self.wf(),
        ensures
            match r {
                Ok(at) => {
                    &&& has_slot(self@.sections, ordinal, slot_index)
                    &&& at == header::slot_start(
                        self@.pairs(),
                        ordinal as nat,
                        slot_index as int,
                    )
                    &&& at % 8 == 0
                    &&& at + 8 <= header::segment_len(self@.pairs())
                },
                Err(e) => !has_slot(self@.sections, ordinal, slot_index) && slot_refused_with(
                    self@.sections,
                    ordinal,
                    slot_index,
                    e,
                ),
            },
    {
        match self.check_slot_index(ordinal, slot_index) {
            Ok(_) => {},
            Err(e) => return Err(e),
        }
        Ok(self.slot_offset(ordinal, slot_index) + SEQUENCE_FIELD_OFFSET)
    }

    /// Offset of a slot's payload, inside which all its payload bytes lie.
    pub fn slot_payload_ptr(&self, ordinal: u32, slot_index: u32) -> (r: Result<usize>)
        requires
            self.wf(),
        ensures
            match r {
                Ok(at) => {
                    &&& has_slot(self@.sections, ordinal, slot_index)
                    &&& at == header::slot_start(
                        self@.pairs(),
                        ordinal as nat,
                        slot_index as int,
                    ) + 64
                    &&& at + self@.sections[ordinal as int].slot_size_bytes <= header::segment_len(
                        self@.pairs(),
                    )
                },
                Err(e) => !has_slot(self@.sections, ordinal, slot_index) && slot_refused_with(
                    self@.sections,
                    ordinal,
                    slot_index,
                    e,
                ),
            },
    {
        match self.check_slot_index(ordinal, slot_index) {
            Ok(_) => {},
            Err(e) => return Err(e),
        }
        Ok(self.slot_offset(ordinal, slot_index) + SlotHeader::SIZE)
    }

    /// A section's writer position.
    pub fn load_position(&self, mem: &[u8], ordinal: u32) -> (v: u64)
        requires
            self.wf(),
            self@.fits(mem@),
            ordinal < self@.sections.len(),
        ensures
            v == self@.ring(mem@)[ordinal as int].position,
    {
        proof {
            header::lemma_data_start(self@.pairs(), 0, self@.pairs().len());
        }
        read_u64(mem, section_header_offset(ordinal) + WRITER_POSITION_FIELD_OFFSET)
    }

    /// Sets a section's writer position.
    pub fn store_position(&self, mem: &mut [u8], ordinal: u32, v: u64)
        requires
            self.wf(),
            self@.fits(old(mem)@),
            ordinal < self@.sections.len(),
        ensures
            same_headers(old(mem)@, final(mem)@, self@.sections.len() as int),
            self@.ring(final(mem)@) == self@.ring(old(mem)@).update(
                ordinal as int,
                SectionView { position: v, ..self@.ring(old(mem)@)[ordinal as int] },
            ),
    {
        proof {
            header::lemma_data_start(self@.pairs(), 0, self@.pairs().len());
            lemma_position_change(mem@, self@.pairs(), ordinal as nat, v);
        }
        put_u64(mem, section_header_offset(ordinal) + WRITER_POSITION_FIELD_OFFSET, v);
    }

    /// A slot's sequence word.
    pub fn load_sequence(&self, mem: &[u8], ordinal: u32, slot_index: u32) -> (v: u64)
        requires
            self.wf(),
            self@.fits(mem@),
            has_slot(self@.sections, ordinal, slot_index),
        ensures
            v == self@.ring(mem@)[ordinal as int].slots[slot_index as int].sequence,
    {
        read_u64(mem, self.slot_offset(ordinal, slot_index))
    }

    /// Sets a slot's sequence word.
    pub fn store_sequence(&self, mem: &mut [u8], ordinal: u32, slot_index: u32, v: u64)
        requires
            self.wf(),
            self@.fits(old(mem)@),
            has_slot(self@.sections, ordinal, slot_index),
        ensures
            same_headers(old(mem)@, final(mem)@, self@.sections.len() as int),
            ({
                let s = self@.ring(old(mem)@)[ordinal as int];
                let t = s.slots[slot_index as int];
                self@.ring(final(mem)@) == self@.ring(old(mem)@).update(
                    ordinal as int,
                    s.with_slot(slot_index as int, SlotView { sequence: v, ..t }),
                )
            }),
    {
        let at: usize = self.slot_offset(ordinal, slot_index);
        let ghost mem0 = mem@;
        proof {
            bytes::lemma_int_round_trip(0, v);
            lemma_slot_frame(
                mem@,
                self@.pairs(),
                ordinal as nat,
                slot_index as int,
                0,
                bytes::le_bytes(v as nat, 8),
            );
            bytes::lemma_overwrite(mem@, at as int, bytes::le_bytes(v as nat, 8));
        }
        put_u64(mem, at, v);
        proof {
            let size = self@.sections[ordinal as int].slot_size_bytes as int;
            assert(self@.pairs()[ordinal as int].1 == size);
            assert(slot_at(mem@, at as int, size) == (SlotView {
                sequence: v,
                ..slot_at(mem0, at as int, size)
            }));
        }
    }

    /// Writes position, length and timestamp of a slot.
    pub fn write_slot_header_fields(
        &self,
        mem: &mut [u8],
        ordinal: u32,
        slot_index: u32,
        position: u64,
        length: u32,
        timestamp_nanos: u64,
    ) -> (r: Result<()>)
        requires
            self.wf(),
            self@.fits(old(mem)@),
        ensures
            same_headers(old(mem)@, final(mem)@, self@.sections.len() as int),
            match r {
                Ok(_) => {
                    let s = self@.ring(old(mem)@)[ordinal as int];
                    let t = s.slots[slot_index as int];
                    &&& has_slot(self@.sections, ordinal, slot_index)
                    &&& self@.ring(final(mem)@) == self@.ring(old(mem)@).update(
                        ordinal as int,
                        s.with_slot(
                            slot_index as int,
                            SlotView { position, length, timestamp: timestamp_nanos, ..t },
                        ),
                    )
                },
                Err(e) => !has_slot(self@.sections, ordinal, slot_index) && slot_refused_with(
                    self@.sections,
                    ordinal,
                    slot_index,
                    e,
                ) && final(mem)@ == old(mem)@,
            },
    {
        match self.check_slot_index(ordinal, slot_index) {
            Ok(_) => {},
            Err(e) => return Err(e),
        }
        let at: usize = self.slot_offset(ordinal, slot_index);
        let ghost mem0 = mem@;
        let ghost ps = self@.pairs();
        let ghost size = self@.sections[ordinal as int].slot_size_bytes as int;
        let ghost i = slot_index as int;
        let ghost k = ordinal as nat;
        proof {
            assert(ps[ordinal as int].1 == size);
            bytes::lemma_int_round_trip(length, position);
            bytes::lemma_int_round_trip(0, timestamp_nanos);
            lemma_slot_frame(mem@, ps, k, i, 8, bytes::le_bytes(position as nat, 8));
            bytes::lemma_overwrite(mem@, at + 8, bytes::le_bytes(position as nat, 8));
        }
        put_u64(mem, at + POSITION_FIELD_OFFSET, position);
        let ghost mem1 = mem@;
        proof {
            assert(slot_at(mem1, at as int, size) == (SlotView {
                position,
                ..slot_at(mem0, at as int, size)
            }));
            lemma_slot_frame(mem@, ps, k, i, 16, bytes::le_bytes(length as nat, 4));
            bytes::lemma_overwrite(mem@, at + 16, bytes::le_bytes(length as nat, 4));
        }
        put_u32(mem, at + LENGTH_FIELD_OFFSET, length);
        let ghost mem2 = mem@;
        proof {
            assert(slot_at(mem2, at as int, size) == (SlotView {
                length,
                ..slot_at(mem1, at as int, size)
            }));
            lemma_slot_frame(mem@, ps, k, i, 24, bytes::le_bytes(timestamp_nanos as nat, 8));
            bytes::lemma_overwrite(mem@, at + 24, bytes::le_bytes(timestamp_nanos as nat, 8));
        }
        put_u64(mem, at + TIMESTAMP_FIELD_OFFSET, timestamp_nanos);
        proof {
            assert(slot_at(mem@, at as int, size) == (SlotView {
                timestamp: timestamp_nanos,
                ..slot_at(mem2, at as int, size)
            }));
            let s = self@.ring(mem0)[ordinal as int];
            let t = s.slots[i];
            let u = SlotView { position, length, timestamp: timestamp_nanos, ..t };
            assert(slot_at(mem@, at as int, size) == u);
            assert(self@.ring(mem@)[ordinal as int].slots =~= s.with_slot(i, u).slots);
            assert(self@.ring(mem@) =~= self@.ring(mem0).update(
                ordinal as int,
                s.with_slot(i, u),
            ));
        }
        Ok(())
    }

    /// Reads position, length and timestamp of a slot.
    pub fn read_slot_header_fields(&self, mem: &[u8], ordinal: u32, slot_index: u32) -> (r: Result<
        (u64, u32, u64),
    >)
        requires
            self.wf(),
            self@.fits(mem@),
        ensures
            match r {
                Ok((position, length, timestamp)) => {
                    let t = self@.ring(mem@)[ordinal as int].slots[slot_index as int];
                    &&& has_slot(self@.sections, ordinal, slot_index)
                    &&& position == t.position
                    &&& length == t.length
                    &&& timestamp == t.timestamp
                },
                Err(e) => !has_slot(self@.sections, ordinal, slot_index) && slot_refused_with(
                    self@.sections,
                    ordinal,
                    slot_index,
                    e,
                ),
            },
    {
        match self.check_slot_index(ordinal, slot_index) {
            Ok(_) => {},
            Err(e) => return Err(e),
        }
        let at: usize = self.slot_offset(ordinal, slot_index);
        let position: u64 = read_u64(mem, at + POSITION_FIELD_OFFSET);
        let length: u32 = read_u32(mem, at + LENGTH_FIELD_OFFSET);
        let timestamp: u64 = read_u64(mem, at + TIMESTAMP_FIELD_OFFSET);
        Ok((position, length, timestamp))
    }

    /// Payload capacity of a section's slots.
    pub fn slot_capacity(&self, ordinal: u32) -> (r: Result<u32>)
        ensures
            match r {
                Ok(c) => ordinal < self@.sections.len() && c
                    == self@.sections[ordinal as int].slot_size_bytes,
                Err(e) => ordinal >= self@.sections.len() && error::is_region(
                    e,
                    ordinal_words(ordinal, self@.sections.len()),
                ),
            },
    {
        match self.section_config(ordinal) {
            Ok(c) => Ok(c.slot_size_bytes()),
            Err(e) => Err(e),
        }
    }

    /// Number of a section's slots.
    pub fn slot_count(&self, ordinal: u32) -> (r: Result<u32>)
        ensures
            match r {
                Ok(n) => ordinal < self@.sections.len() && n
                    == self@.sections[ordinal as int].slot_count,
                Err(e) => ordinal >= self@.sections.len() && error::is_region(
                    e,
                    ordinal_words(ordinal, self@.sections.len()),
                ),
            },
    {
        match self.section_config(ordinal) {
            Ok(c) => Ok(c.slot_count()),
            Err(e) => Err(e),
        }
    }

    /// Whether the segment's name is to be removed: only by the creator,
    /// and only once, since a successor may hold the name afterwards.
    pub fn unlink(&self) -> (r: Result<UnlinkStep>)
        ensures
            match lifecycle::unlink_asked(self@.owner, self@.unlinked) {
                Some(step) => r == Ok::<UnlinkStep, TesseraRingError>(step),
                None => r matches Err(e) && error::is_region(e, attacher_unlink_words()),
            },
    {
        if self.manually_unlinked {
            return Ok(UnlinkStep::Done);
        }
        if !self.is_owner {
            return Err(
                TesseraRingError::Region(
                    String::from_str(
                        "Region::unlink called by an attacher (is_owner=false). Only the creator may unlink the shared-memory name. Drop this Region to release the attacher's mapping; the creator decides when to unlink.",
                    ),
                ),
            );
        }
        Ok(UnlinkStep::Call)
    }

    /// Whether the name goes with the handle: a creator that has not given
    /// it back removes it when the handle is dropped.
    pub fn unlinks_on_drop(&self) -> (r: bool)
        ensures
            r == lifecycle::name_goes_with_handle(self@.owner, self@.unlinked),
    {
        self.is_owner && !self.manually_unlinked
    }

    /// Takes in what came of removing the name: where it is gone, the
    /// region remembers so; where the call failed, nothing changes and the
    /// caller may try again.
    pub fn finish_unlink(&mut self, rc: i32, errno: Option<i32>, error: &str) -> (r: Result<()>)
        ensures
            old(self).wf() ==> final(self).wf(),
            match r {
                Ok(_) => lifecycle::name_is_gone(rc, errno) && final(self)@ == (RegionView {
                    unlinked: true,
                    ..old(self)@
                }),
                Err(e) => !lifecycle::name_is_gone(rc, errno) && error::is_region(
                    e,
                    lifecycle::unlink_failure_text(old(self)@.name, error@, errno),
                ) && final(self)@ == old(self)@,
            },
    {
        match lifecycle::judge_unlink(self.shm_name.as_str(), rc, errno, error) {
            Ok(_) => {},
            Err(m) => return Err(TesseraRingError::Region(m)),
        }
        self.manually_unlinked = true;
        Ok(())
    }
}

} // verus!
