//! Section lists: their validation, canonical order and lookup tables.
use vstd::prelude::*;

use std::collections::{HashMap, HashSet};

use crate::ring::error;
use crate::ring::error::{Result, TesseraRingError};
use crate::ring::header;
use crate::ring::header::{section_data_size, sections_data_offset};
use crate::text;

verus! {

broadcast use vstd::std_specs::hash::group_hash_axioms;

/// Configuration of one section, a stream of its own inside a ring.
#[derive(Clone, Copy, Debug, PartialEq, Eq)]
pub struct SectionConfig {
    /// Identifier that callers address the section by.
    pub section_id: u32,
    /// Number of slots.
    pub slot_count: u32,
    /// Payload bytes per slot.
    pub slot_size_bytes: u32,
}

impl SectionConfig {
    /// Construct a section configuration. It is validated when a ring is
    /// opened.
    pub fn new(section_id: u32, slot_count: u32, slot_size_bytes: u32) -> (r: SectionConfig)
        ensures
            r == (SectionConfig { section_id, slot_count, slot_size_bytes }),
    {
        SectionConfig { section_id, slot_count, slot_size_bytes }
    }

    /// Section identifier.
    pub fn section_id(self) -> (r: u32)
        ensures
            r == self.section_id,
    {
        self.section_id
    }

    /// Number of slots.
    pub fn slot_count(self) -> (r: u32)
        ensures
            r == self.slot_count,
    {
        self.slot_count
    }

    /// Payload bytes per slot.
    pub fn slot_size_bytes(self) -> (r: u32)
        ensures
            r == self.slot_size_bytes,
    {
        self.slot_size_bytes
    }
}

/// Slot counts and sizes of the sections.
pub open spec fn pairs(sections: Seq<SectionConfig>) -> Seq<(u32, u32)> {
    Seq::new(
        sections.len(),
        |i: int| (sections[i].slot_count, sections[i].slot_size_bytes),
    )
}

/// Section `i` repeats the identifier of an earlier section.
pub open spec fn repeats(sections: Seq<SectionConfig>, i: int) -> bool {
    exists|j: int|
        0 <= j < i && (#[trigger] sections[j]).section_id == sections[i].section_id
}

/// Why section `i` is refused, where it is.
pub open spec fn section_refusal(sections: Seq<SectionConfig>, i: int) -> Option<Seq<char>> {
    let c = sections[i];
    if c.slot_count == 0 {
        Some("section "@ + text::dec(c.section_id as nat) + " has slot_count == 0"@)
    } else if c.slot_size_bytes == 0 {
        Some("section "@ + text::dec(c.section_id as nat) + " has slot_size_bytes == 0"@)
    } else if c.slot_size_bytes % 8 != 0 {
        Some(
            "section "@ + text::dec(c.section_id as nat) + " has slot_size_bytes="@ + text::dec(
                c.slot_size_bytes as nat,
            )
                + " which is not a multiple of 8; slot stride must be 8-byte-aligned for AtomicU64 access on slot.sequence (round up to "@
                + text::dec(((c.slot_size_bytes as nat + 7) / 8) * 8) + ")"@,
        )
    } else if repeats(sections, i) {
        Some(
            "duplicate section_id "@ + text::dec(c.section_id as nat) + " in config list"@,
        )
    } else {
        None
    }
}

/// Why the list from section `i` on is refused, where it is: by its first
/// bad section.
pub open spec fn refusal_from(sections: Seq<SectionConfig>, i: int) -> Option<Seq<char>>
    decreases sections.len() - i,
{
    if i >= sections.len() {
        None
    } else {
        match section_refusal(sections, i) {
            Some(words) => Some(words),
            None => refusal_from(sections, i + 1),
        }
    }
}

/// Why a section list is refused, where it is.
pub open spec fn list_refusal(sections: Seq<SectionConfig>) -> Option<Seq<char>> {
    if sections.len() == 0 {
        Some("Ring requires at least one section; got empty section list"@)
    } else {
        refusal_from(sections, 0)
    }
}

/// Section identifiers are in ascending order, each once.
pub open spec fn ascending(sections: Seq<SectionConfig>) -> bool {
    forall|i: int, j: int|
        0 <= i < j < sections.len() ==> (#[trigger] sections[i]).section_id < (
        #[trigger] sections[j]).section_id
}

/// Section identifiers occur once each.
pub open spec fn distinct(sections: Seq<SectionConfig>) -> bool {
    forall|i: int, j: int|
        0 <= i < j < sections.len() ==> (#[trigger] sections[i]).section_id != (
        #[trigger] sections[j]).section_id
}

/// Every section has slots, of a size that is a multiple of eight.
pub open spec fn well_shaped(sections: Seq<SectionConfig>) -> bool {
    forall|i: int|
        0 <= i < sections.len() ==> (#[trigger] sections[i]).slot_count > 0
            && sections[i].slot_size_bytes > 0 && sections[i].slot_size_bytes % 8 == 0
}

/// The order of sections: by identifier, then by shape.
pub open spec fn section_order() -> spec_fn(SectionConfig, SectionConfig) -> bool {
    |a: SectionConfig, b: SectionConfig|
        a.section_id < b.section_id || (a.section_id == b.section_id && (a.slot_count
            < b.slot_count || (a.slot_count == b.slot_count && a.slot_size_bytes
            <= b.slot_size_bytes)))
}

/// The sections in the order in which they lie in the segment.
pub open spec fn canonical(sections: Seq<SectionConfig>) -> Seq<SectionConfig> {
    sections.sort_by(section_order())
}

/// An accepted list has well-shaped, distinct sections.
pub proof fn lemma_accepted_from(sections: Seq<SectionConfig>, i: int)
    requires
        0 <= i,
        refusal_from(sections, i) is None,
    ensures
        forall|k: int|
            i <= k < sections.len() ==> section_refusal(sections, k) is None && (
            #[trigger] sections[k]).slot_count > 0,
    decreases sections.len() - i,
{
    if i < sections.len() {
        lemma_accepted_from(sections, i + 1);
    }
}

/// An accepted list has well-shaped, distinct sections.
pub proof fn law_accepted_list(sections: Seq<SectionConfig>)
    requires
        list_refusal(sections) is None,
    ensures
        sections.len() > 0,
        well_shaped(sections),
        distinct(sections),
{
    lemma_accepted_from(sections, 0);
    assert forall|i: int| 0 <= i < sections.len() implies (#[trigger] sections[i]).slot_count > 0
        && sections[i].slot_size_bytes > 0 && sections[i].slot_size_bytes % 8 == 0 by {
        assert(section_refusal(sections, i) is None);
    }
    assert forall|i: int, j: int| 0 <= i < j < sections.len() implies (
    #[trigger] sections[i]).section_id != (#[trigger] sections[j]).section_id by {
        assert(section_refusal(sections, j) is None);
        assert(!repeats(sections, j));
    }
}

proof fn lemma_order_is_total()
    ensures
        vstd::relations::total_ordering(section_order()),
{
}

/// A list of the same sections in ascending order is the canonical one.
proof fn lemma_canonical(sections: Seq<SectionConfig>, sorted: Seq<SectionConfig>)
    requires
        ascending(sorted),
        sorted.to_multiset() == sections.to_multiset(),
    ensures
        sorted == canonical(sections),
{
    lemma_order_is_total();
    sections.lemma_sort_by_ensures(section_order());
    assert forall|i: int, j: int| 0 <= i < j < sorted.len() implies #[trigger] section_order()(
        sorted[i],
        sorted[j],
    ) by {
        assert(sorted[i].section_id < sorted[j].section_id);
    }
    vstd::seq_lib::lemma_sorted_unique(sorted, canonical(sections), section_order());
}

/// The canonical list has as many sections.
pub proof fn lemma_canonical_len(sections: Seq<SectionConfig>)
    ensures
        canonical(sections).len() == sections.len(),
{
    broadcast use vstd::seq_lib::group_to_multiset_ensures;

    lemma_order_is_total();
    sections.lemma_sort_by_ensures(section_order());
    assert(canonical(sections).to_multiset().len() == sections.to_multiset().len());
}

/// The canonical order does not depend on the order in which the sections
/// were listed.
pub proof fn law_list_order_is_irrelevant(a: Seq<SectionConfig>, b: Seq<SectionConfig>)
    requires
        a.to_multiset() == b.to_multiset(),
    ensures
        canonical(a) == canonical(b),
{
    lemma_order_is_total();
    a.lemma_sort_by_ensures(section_order());
    b.lemma_sort_by_ensures(section_order());
    vstd::seq_lib::lemma_sorted_unique(canonical(a), canonical(b), section_order());
}

/// The sections, in canonical order.
pub fn canonicalize(sections: &[SectionConfig]) -> (out: Vec<SectionConfig>)
    requires
        well_shaped(sections@),
        distinct(sections@),
    ensures
        out@ == canonical(sections@),
        out@.len() == sections@.len(),
        well_shaped(out@),
        ascending(out@),
{
    broadcast use vstd::seq_lib::group_to_multiset_ensures;

    let mut out: Vec<SectionConfig> = Vec::new();
    let len: usize = sections.len();
    let mut i: usize = 0;
    proof {
        assert(sections@.take(0) =~= out@);
    }
    while i < len
        invariant
            len == sections@.len(),
            i <= len,
            distinct(sections@),
            well_shaped(sections@),
            ascending(out@),
            well_shaped(out@),
            out@.len() == i,
            out@.to_multiset() == sections@.take(i as int).to_multiset(),
            forall|k: int|
                0 <= k < out@.len() ==> exists|j: int| 0 <= j < i && sections@[j] == #[trigger] out@[k],
        decreases len - i,
    {
        let c = sections[i];
        let mut at: usize = 0;
        while at < out.len() && out[at].section_id() < c.section_id()
            invariant
                at <= out@.len(),
                forall|k: int| 0 <= k < at ==> (#[trigger] out@[k]).section_id < c.section_id,
            decreases out@.len() - at,
        {
            at = at + 1;
        }
        let ghost before = out@;
        out.insert(at, c);
        proof {
            assert forall|k: int| 0 <= k < before.len() implies (#[trigger] before[k]).section_id
                != c.section_id by {
                let j = choose|j: int| 0 <= j < i && sections@[j] == before[k];
                assert(sections@[j].section_id != sections@[i as int].section_id);
            }
            assert(forall|k: int| at <= k < before.len() ==> before[at as int].section_id <= (
            #[trigger] before[k]).section_id);
            assert forall|a: int, b: int| 0 <= a < b < out@.len() implies (
            #[trigger] out@[a]).section_id < (#[trigger] out@[b]).section_id by {
                let a0 = if a < at { a } else { a - 1 };
                let b0 = if b < at { b } else { b - 1 };
                if a != at && b != at {
                    assert(before[a0].section_id < before[b0].section_id);
                } else if a == at {
                    assert(before[b0].section_id != c.section_id);
                }
            }
            assert forall|k: int| 0 <= k < out@.len() implies exists|j: int|
                0 <= j < i + 1 && sections@[j] == #[trigger] out@[k] by {
                if k == at {
                    assert(sections@[i as int] == out@[k]);
                } else {
                    let k0 = if k < at { k } else { k - 1 };
                    assert(before[k0] == out@[k]);
                    let j = choose|j: int| 0 <= j < i && sections@[j] == before[k0];
                    assert(sections@[j] == out@[k]);
                }
            }
            assert forall|k: int| 0 <= k < out@.len() implies (#[trigger] out@[k]).slot_count > 0
                && out@[k].slot_size_bytes > 0 && out@[k].slot_size_bytes % 8 == 0 by {
                let j = choose|j: int| 0 <= j < i + 1 && sections@[j] == out@[k];
                assert(sections@[j].slot_count > 0);
            }
            vstd::seq_lib::to_multiset_insert(before, at as int, c);
            assert(sections@.take(i + 1) =~= sections@.take(i as int).push(c));
            vstd::seq_lib::to_multiset_build(sections@.take(i as int), c);
        }
        i = i + 1;
    }
    proof {
        assert(sections@.take(len as int) =~= sections@);
        lemma_canonical(sections@, out@);
    }
    out
}

/// Checks a section list.
pub fn validate_section_config(sections: &[SectionConfig]) -> (r: Result<()>)
    ensures
        match list_refusal(sections@) {
            Some(words) => r matches Err(e) && error::is_config(e, words),
            None => r is Ok,
        },
{
    if sections.is_empty() {
        return Err(
            TesseraRingError::Config(
                String::from_str("Ring requires at least one section; got empty section list"),
            ),
        );
    }
    let mut seen: HashSet<u32> = HashSet::new();
    let len: usize = sections.len();
    let mut i: usize = 0;
    while i < len
        invariant
            len == sections@.len(),
            i <= len,
            len > 0,
            list_refusal(sections@) == refusal_from(sections@, i as int),
            forall|id: u32|
                #[trigger] seen@.contains(id) <==> exists|j: int|
                    0 <= j < i && (#[trigger] sections@[j]).section_id == id,
        decreases len - i,
    {
        let c = sections[i];
        if c.slot_count() == 0 {
            let mut m = String::from_str("section ");
            text::push_dec(&mut m, c.section_id() as u64);
            m.append(" has slot_count == 0");
            return Err(TesseraRingError::Config(m));
        }
        if c.slot_size_bytes() == 0 {
            let mut m = String::from_str("section ");
            text::push_dec(&mut m, c.section_id() as u64);
            m.append(" has slot_size_bytes == 0");
            return Err(TesseraRingError::Config(m));
        }
        if c.slot_size_bytes() % 8 != 0 {
            let mut m = String::from_str("section ");
            text::push_dec(&mut m, c.section_id() as u64);
            m.append(" has slot_size_bytes=");
            text::push_dec(&mut m, c.slot_size_bytes() as u64);
            m.append(
                " which is not a multiple of 8; slot stride must be 8-byte-aligned for AtomicU64 access on slot.sequence (round up to ",
            );
            text::push_dec(&mut m, ((c.slot_size_bytes() as u64 + 7) / 8) * 8);
            m.append(")");
            return Err(TesseraRingError::Config(m));
        }
        let fresh: bool = seen.insert(c.section_id());
        if !fresh {
            proof {
                let j = choose|j: int|
                    0 <= j < i && (#[trigger] sections@[j]).section_id == c.section_id;
                assert(sections@[j].section_id == sections@[i as int].section_id);
                assert(repeats(sections@, i as int));
            }
            let mut m = String::from_str("duplicate section_id ");
            text::push_dec(&mut m, c.section_id() as u64);
            m.append(" in config list");
            return Err(TesseraRingError::Config(m));
        }
        proof {
            if repeats(sections@, i as int) {
                let j = choose|j: int|
                    0 <= j < i && (#[trigger] sections@[j]).section_id
                        == sections@[i as int].section_id;
                assert(sections@[j].section_id == c.section_id);
            }
            assert forall|id: u32|
                #[trigger] seen@.contains(id) <==> exists|j: int|
                    0 <= j < i + 1 && (#[trigger] sections@[j]).section_id == id by {
                if id == c.section_id {
                    assert(sections@[i as int].section_id == id);
                }
                if exists|j: int| 0 <= j < i && (#[trigger] sections@[j]).section_id == id {
                    let j = choose|j: int| 0 <= j < i && (#[trigger] sections@[j]).section_id == id;
                    assert(0 <= j < i + 1 && sections@[j].section_id == id);
                }
                if exists|j: int| 0 <= j < i + 1 && (#[trigger] sections@[j]).section_id == id {
                    let j = choose|j: int|
                        0 <= j < i + 1 && (#[trigger] sections@[j]).section_id == id;
                    if j < i {
                        assert(0 <= j < i && sections@[j].section_id == id);
                    }
                }
            }
        }
        i = i + 1;
    }
    Ok(())
}

/// The table from section identifiers to ordinals is that of the sections.
pub open spec fn is_ordinal_table(sections: Seq<SectionConfig>, table: Map<u32, u32>) -> bool {
    &&& forall|k: int|
        0 <= k < sections.len() ==> table.contains_key((#[trigger] sections[k]).section_id)
            && table[sections[k].section_id] == k
    &&& forall|id: u32| #[trigger]
        table.contains_key(id) ==> table[id] < sections.len() && sections[table[id] as int].section_id
            == id
}

/// The offsets are those of the sections' slot arrays.
pub open spec fn are_data_offsets(sections: Seq<SectionConfig>, offsets: Seq<usize>) -> bool {
    &&& offsets.len() == sections.len()
    &&& forall|k: int|
        0 <= k < sections.len() ==> #[trigger] offsets[k] == header::data_start(
            pairs(sections),
            k as nat,
        )
}

/// Tables to find a section's ordinal and its slot array by.
pub fn build_section_lookup_tables(sections: &[SectionConfig]) -> (r: (
    HashMap<u32, u32>,
    Vec<usize>,
))
    requires
        ascending(sections@),
        sections@.len() <= u32::MAX,
        header::segment_len(pairs(sections@)) <= usize::MAX,
    ensures
        is_ordinal_table(sections@, r.0@),
        are_data_offsets(sections@, r.1@),
{
    let mut id_to_ordinal: HashMap<u32, u32> = HashMap::new();
    let mut offsets: Vec<usize> = Vec::new();
    let len: usize = sections.len();
    let ghost ps = pairs(sections@);
    proof {
        header::lemma_data_start(ps, 0, ps.len());
    }
    let mut cursor: usize = sections_data_offset(len as u32);
    let mut i: usize = 0;
    while i < len
        invariant
            len == sections@.len(),
            len <= u32::MAX,
            i <= len,
            ps == pairs(sections@),
            ascending(sections@),
            header::segment_len(ps) <= usize::MAX,
            cursor == header::data_start(ps, i as nat),
            offsets@.len() == i,
            forall|k: int| 0 <= k < i ==> #[trigger] offsets@[k] == header::data_start(ps, k as nat),
            forall|k: int|
                0 <= k < i ==> id_to_ordinal@.contains_key((#[trigger] sections@[k]).section_id)
                    && id_to_ordinal@[sections@[k].section_id] == k,
            forall|id: u32| #[trigger]
                id_to_ordinal@.contains_key(id) ==> id_to_ordinal@[id] < i
                    && sections@[id_to_ordinal@[id] as int].section_id == id,
        decreases len - i,
    {
        let c = sections[i];
        proof {
            header::lemma_data_start(ps, i as nat, i as nat);
            header::lemma_data_start(ps, (i + 1) as nat, ps.len());
        }
        id_to_ordinal.insert(c.section_id(), i as u32);
        offsets.push(cursor);
        if let Some(data) = section_data_size(c.slot_count(), c.slot_size_bytes()) {
            cursor = cursor + data;
        }
        i = i + 1;
    }
    (id_to_ordinal, offsets)
}

/// Slot counts and sizes of the sections.
pub fn section_pairs(sections: &[SectionConfig]) -> (out: Vec<(u32, u32)>)
    ensures
        out@ == pairs(sections@),
{
    let mut out: Vec<(u32, u32)> = Vec::new();
    let len: usize = sections.len();
    let mut i: usize = 0;
    while i < len
        invariant
            len == sections@.len(),
            i <= len,
            out@.len() == i,
            forall|k: int| 0 <= k < i ==> out@[k] == pairs(sections@)[k],
        decreases len - i,
    {
        out.push((sections[i].slot_count(), sections[i].slot_size_bytes()));
        i = i + 1;
    }
    assert(out@ =~= pairs(sections@));
    out
}

/// Identifiers of the sections.
pub open spec fn ids(sections: Seq<SectionConfig>) -> Seq<u32> {
    Seq::new(sections.len(), |i: int| sections[i].section_id)
}

/// Identifiers of the sections.
pub fn section_ids(sections: &Vec<SectionConfig>) -> (out: Vec<u32>)
    ensures
        out@ == ids(sections@),
{
    let mut out: Vec<u32> = Vec::new();
    let len: usize = sections.len();
    let mut i: usize = 0;
    while i < len
        invariant
            len == sections@.len(),
            i <= len,
            out@.len() == i,
            forall|k: int| 0 <= k < i ==> out@[k] == ids(sections@)[k],
        decreases len - i,
    {
        out.push(sections[i].section_id());
        i = i + 1;
    }
    assert(out@ =~= ids(sections@));
    out
}

} // verus!
