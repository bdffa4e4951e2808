//! Errors of the ring.
use vstd::prelude::*;

use crate::text;

verus! {

/// Failures of ring operations, one variant per mode of failure.
#[derive(Debug)]
pub enum TesseraRingError {
    /// The section list is invalid.
    Config(String),
    /// The segment could not be created, attached, read or removed.
    Region(String),
    /// The attached segment has another format.
    HeaderMismatch {
        /// Short description of what disagrees.
        message: String,
        /// Format version of this library.
        expected_format: u32,
        /// Format version in the segment.
        found_format: u32,
    },
    /// A section of the attached segment has another geometry.
    SectionConfigMismatch {
        /// The section.
        section_id: u32,
        /// Slot count expected by the caller.
        expected_count: u32,
        /// Slot count in the segment.
        found_count: u32,
        /// Slot size expected by the caller.
        expected_size: u32,
        /// Slot size in the segment.
        found_size: u32,
    },
    /// The ring has no such section.
    UnknownSection {
        /// Section asked for.
        section_id: u32,
        /// Sections there are.
        configured: Vec<u32>,
    },
    /// The event is longer than a slot of the section.
    OversizedEvent {
        /// The section.
        section_id: u32,
        /// Event length.
        event_size: usize,
        /// Slot capacity.
        slot_size: usize,
    },
    /// A slot stayed in the hands of another writer. Its sequence word was
    /// held at the same odd value for the whole budget: that writer died,
    /// or is delayed. The slot is not taken over, because the other writer
    /// may still wake up and write.
    SlotStuck {
        /// The section.
        section_id: u32,
        /// Slot in the section.
        slot_index: u32,
        /// Position that could not be published.
        position: u64,
        /// The odd sequence word.
        stuck_sequence: u64,
    },
}

/// Result of ring operations.
pub type Result<T> = core::result::Result<T, TesseraRingError>;

/// `e` is a configuration error with the given words.
pub open spec fn is_config(e: TesseraRingError, words: Seq<char>) -> bool {
    e matches TesseraRingError::Config(m) && m@ == words
}

/// `e` is a segment error with the given words.
pub open spec fn is_region(e: TesseraRingError, words: Seq<char>) -> bool {
    e matches TesseraRingError::Region(m) && m@ == words
}

/// `e` is a header mismatch with the given words and found format.
pub open spec fn is_header_mismatch(
    e: TesseraRingError,
    words: Seq<char>,
    expected: u32,
    found: u32,
) -> bool {
    e matches TesseraRingError::HeaderMismatch { message, expected_format, found_format }
        && message@ == words && expected_format == expected && found_format == found
}

/// The numbers in decimal, separated by commas.
pub open spec fn list_words(ids: Seq<u32>) -> Seq<char>
    decreases ids.len(),
{
    if ids.len() == 0 {
        Seq::empty()
    } else if ids.len() == 1 {
        text::dec(ids[0] as nat)
    } else {
        list_words(ids.drop_last()) + ", "@ + text::dec(ids.last() as nat)
    }
}

impl TesseraRingError {
    /// The error in words.
    pub open spec fn words(self) -> Seq<char> {
        match self {
            TesseraRingError::Config(m) => "invalid Ring config: "@ + m@,
            TesseraRingError::Region(m) => "shared-memory region error: "@ + m@,
            TesseraRingError::HeaderMismatch { message, expected_format, found_format } =>
                "attached SHM region has incompatible global header: "@ + message@
                + " (expected format_version="@ + text::dec(expected_format as nat) + ", found "@
                + text::dec(found_format as nat) + ")"@,
            TesseraRingError::SectionConfigMismatch {
                section_id,
                expected_count,
                found_count,
                expected_size,
                found_size,
            } => "section "@ + text::dec(section_id as nat)
                + " geometry mismatch: expected slot_count="@ + text::dec(expected_count as nat)
                + ", found "@ + text::dec(found_count as nat) + "; expected slot_size_bytes="@
                + text::dec(expected_size as nat) + ", found "@ + text::dec(found_size as nat),
            TesseraRingError::UnknownSection { section_id, configured } =>
                "unknown section_id: "@ + text::dec(section_id as nat)
                + " (configured sections: ["@ + list_words(configured@) + "])"@,
            TesseraRingError::OversizedEvent { section_id, event_size, slot_size } =>
                "event size "@ + text::dec(event_size as nat) + " exceeds section "@ + text::dec(
                section_id as nat,
            ) + " slot_size_bytes "@ + text::dec(slot_size as nat),
            TesseraRingError::SlotStuck { section_id, slot_index, position, stuck_sequence } =>
                "slot stuck on section "@ + text::dec(section_id as nat) + " slot_index "@
                + text::dec(slot_index as nat) + ": sequence held at odd value "@ + text::dec(
                stuck_sequence as nat,
            ) + " through the recovery budget. Previous writer (position ≤ "@ + text::dec(
                position as nat,
            )
                + ") appears dead or arbitrarily delayed; not safe to take over the slot. Subsequent publishes wrapping to this slot will also fail. Recover by rebuilding the Ring with force_recreate=true."@,
        }
    }

    /// The error in words.
    pub fn message(&self) -> (r: String)
        ensures
            r@ == self.words(),
    {
        match self {
            TesseraRingError::Config(m) => {
                let mut r = String::from_str("invalid Ring config: ");
                r.append(m.as_str());
                r
            },
            TesseraRingError::Region(m) => {
                let mut r = String::from_str("shared-memory region error: ");
                r.append(m.as_str());
                r
            },
            TesseraRingError::HeaderMismatch { message, expected_format, found_format } => {
                let mut r = String::from_str(
                    "attached SHM region has incompatible global header: ",
                );
                r.append(message.as_str());
                r.append(" (expected format_version=");
                text::push_dec(&mut r, *expected_format as u64);
                r.append(", found ");
                text::push_dec(&mut r, *found_format as u64);
                r.append(")");
                r
            },
            TesseraRingError::SectionConfigMismatch {
                section_id,
                expected_count,
                found_count,
                expected_size,
                found_size,
            } => {
                let mut r = String::from_str("section ");
                text::push_dec(&mut r, *section_id as u64);
                r.append(" geometry mismatch: expected slot_count=");
                text::push_dec(&mut r, *expected_count as u64);
                r.append(", found ");
                text::push_dec(&mut r, *found_count as u64);
                r.append("; expected slot_size_bytes=");
                text::push_dec(&mut r, *expected_size as u64);
                r.append(", found ");
                text::push_dec(&mut r, *found_size as u64);
                r
            },
            TesseraRingError::UnknownSection { section_id, configured } => {
                let mut r = String::from_str("unknown section_id: ");
                text::push_dec(&mut r, *section_id as u64);
                r.append(" (configured sections: [");
                push_list(&mut r, configured);
                r.append("])");
                r
            },
            TesseraRingError::OversizedEvent { section_id, event_size, slot_size } => {
                let mut r = String::from_str("event size ");
                text::push_dec(&mut r, *event_size as u64);
                r.append(" exceeds section ");
                text::push_dec(&mut r, *section_id as u64);
                r.append(" slot_size_bytes ");
                text::push_dec(&mut r, *slot_size as u64);
                r
            },
            TesseraRingError::SlotStuck { section_id, slot_index, position, stuck_sequence } => {
                let mut r = String::from_str("slot stuck on section ");
                text::push_dec(&mut r, *section_id as u64);
                r.append(" slot_index ");
                text::push_dec(&mut r, *slot_index as u64);
                r.append(": sequence held at odd value ");
                text::push_dec(&mut r, *stuck_sequence);
                r.append(" through the recovery budget. Previous writer (position ≤ ");
                text::push_dec(&mut r, *position);
                r.append(
                    ") appears dead or arbitrarily delayed; not safe to take over the slot. Subsequent publishes wrapping to this slot will also fail. Recover by rebuilding the Ring with force_recreate=true.",
                );
                r
            },
        }
    }
}

/// Appends the numbers in decimal, separated by commas.
fn push_list(out: &mut String, ids: &Vec<u32>)
    ensures
        final(out)@ == old(out)@ + list_words(ids@),
{
    let ghost before = out@;
    let len: usize = ids.len();
    let mut i: usize = 0;
    assert(before + list_words(ids@.take(0)) =~= before);
    while i < len
        invariant
            len == ids@.len(),
            i <= len,
            out@ == before + list_words(ids@.take(i as int)),
        decreases len - i,
    {
        if i > 0 {
            out.append(", ");
        }
        text::push_dec(out, ids[i] as u64);
        i = i + 1;
        proof {
            let here = ids@.take(i as int);
            assert(here.drop_last() =~= ids@.take(i - 1));
            assert(here.last() == ids@[i - 1]);
            assert(out@ =~= before + list_words(here));
        }
    }
    assert(ids@.take(len as int) =~= ids@);
}

/// A refused configuration is a configuration error and a bad segment a
/// segment error, each with its words.
pub proof fn law_errors_are_of_their_kind(e: TesseraRingError, words: Seq<char>)
    ensures
        is_config(e, words) <==> (e matches TesseraRingError::Config(m) && m@ == words),
        is_region(e, words) <==> (e matches TesseraRingError::Region(m) && m@ == words),
{
}

} // verus!
