//! Errors of the pool.
use vstd::prelude::*;

use crate::text;

verus! {

/// Failures of pool operations, one variant per mode of failure.
#[derive(Debug)]
pub enum TesseraPoolError {
    /// A field of the configuration is invalid.
    Config(String),
    /// The segment could not be created, attached, read or removed.
    Region(String),
    /// The attached segment has another format or geometry.
    HeaderMismatch {
        /// Short description of what disagrees.
        message: String,
        /// Format version of this library.
        expected_format: u32,
        /// Format version in the segment.
        found_format: u32,
        /// Slot count expected by the caller.
        expected_count: u32,
        /// Slot count in the segment.
        found_count: u32,
        /// Slot size expected by the caller.
        expected_size: u32,
        /// Slot size in the segment.
        found_size: u32,
    },
    /// Only the owner may do this.
    OwnerOnly,
    /// The slot moved on since the handle was made.
    StaleHandle {
        /// Slot the handle refers to.
        slot_index: u32,
        /// Generation in the handle.
        descriptor_generation: u64,
        /// Generation of the slot.
        current_generation: u64,
    },
    /// The payload is longer than a slot.
    OversizedPayload {
        /// Payload length.
        payload_size: usize,
        /// Slot capacity.
        slot_size: usize,
    },
    /// The lease has written its payload already.
    WriteAfterFinalize {
        /// Slot of the lease.
        slot_index: u32,
    },
    /// No slot became free in time.
    Timeout {
        /// The acquire timeout.
        timeout_micros: u64,
    },
}

/// Result of pool operations.
pub type Result<T> = core::result::Result<T, TesseraPoolError>;

/// `e` is a configuration error with the given words.
pub open spec fn is_config(e: TesseraPoolError, words: Seq<char>) -> bool {
    e matches TesseraPoolError::Config(m) && m@ == words
}

/// `e` is a segment error with the given words.
pub open spec fn is_region(e: TesseraPoolError, words: Seq<char>) -> bool {
    e matches TesseraPoolError::Region(m) && m@ == words
}

impl TesseraPoolError {
    /// The error in words.
    pub open spec fn words(self) -> Seq<char> {
        match self {
            TesseraPoolError::Config(m) => "invalid Pool config: "@ + m@,
            TesseraPoolError::Region(m) => "shared-memory region error: "@ + m@,
            TesseraPoolError::HeaderMismatch {
                message,
                expected_format,
                found_format,
                expected_count,
                found_count,
                expected_size,
                found_size,
            } => "attached SHM region has incompatible header: "@ + message@
                + " (expected format_version="@ + text::dec(expected_format as nat) + ", found "@
                + text::dec(found_format as nat) + "; expected slot_count="@ + text::dec(
                expected_count as nat,
            ) + ", found "@ + text::dec(found_count as nat) + "; expected slot_size_bytes="@
                + text::dec(expected_size as nat) + ", found "@ + text::dec(found_size as nat)
                + ")"@,
            TesseraPoolError::OwnerOnly =>
                "operation requires owner-side Pool (constructed with is_owner=true)"@,
            TesseraPoolError::StaleHandle {
                slot_index,
                descriptor_generation,
                current_generation,
            } => "stale handle for slot "@ + text::dec(slot_index as nat)
                + ": descriptor generation "@ + text::dec(descriptor_generation as nat)
                + " != current slot generation "@ + text::dec(current_generation as nat),
            TesseraPoolError::OversizedPayload { payload_size, slot_size } => "payload size "@
                + text::dec(payload_size as nat) + " exceeds slot_size_bytes "@ + text::dec(
                slot_size as nat,
            ),
            TesseraPoolError::WriteAfterFinalize { slot_index } =>
                "write_after_finalize: Pool::write already called on lease for slot "@ + text::dec(
                slot_index as nat,
            ) + " (v0.1 one-shot)"@,
            TesseraPoolError::Timeout { timeout_micros } => "Pool::acquire timed out after "@
                + text::dec(timeout_micros as nat) + " micros; no slot became free"@,
        }
    }

    /// The error in words.
    pub fn message(&self) -> (r: String)
        ensures
            r@ == self.words(),
    {
        match self {
            TesseraPoolError::Config(m) => {
                let mut r = String::from_str("invalid Pool config: ");
                r.append(m.as_str());
                r
            },
            TesseraPoolError::Region(m) => {
                let mut r = String::from_str("shared-memory region error: ");
                r.append(m.as_str());
                r
            },
            TesseraPoolError::HeaderMismatch {
                message,
                expected_format,
                found_format,
                expected_count,
                found_count,
                expected_size,
                found_size,
            } => {
                let mut r = String::from_str("attached SHM region has incompatible header: ");
                r.append(message.as_str());
                r.append(" (expected format_version=");
                text::push_dec(&mut r, *expected_format as u64);
                r.append(", found ");
                text::push_dec(&mut r, *found_format as u64);
                r.append("; expected slot_count=");
                text::push_dec(&mut r, *expected_count as u64);
                r.append(", found ");
                text::push_dec(&mut r, *found_count as u64);
                r.append("; expected slot_size_bytes=");
                text::push_dec(&mut r, *expected_size as u64);
                r.append(", found ");
                text::push_dec(&mut r, *found_size as u64);
                r.append(")");
                r
            },
            TesseraPoolError::OwnerOnly => {
                String::from_str(
                    "operation requires owner-side Pool (constructed with is_owner=true)",
                )
            },
            TesseraPoolError::StaleHandle {
                slot_index,
                descriptor_generation,
                current_generation,
            } => {
                let mut r = String::from_str("stale handle for slot ");
                text::push_dec(&mut r, *slot_index as u64);
                r.append(": descriptor generation ");
                text::push_dec(&mut r, *descriptor_generation);
                r.append(" != current slot generation ");
                text::push_dec(&mut r, *current_generation);
                r
            },
            TesseraPoolError::OversizedPayload { payload_size, slot_size } => {
                let mut r = String::from_str("payload size ");
                text::push_dec(&mut r, *payload_size as u64);
                r.append(" exceeds slot_size_bytes ");
                text::push_dec(&mut r, *slot_size as u64);
                r
            },
            TesseraPoolError::WriteAfterFinalize { slot_index } => {
                let mut r = String::from_str(
                    "write_after_finalize: Pool::write already called on lease for slot ",
                );
                text::push_dec(&mut r, *slot_index as u64);
                r.append(" (v0.1 one-shot)");
                r
            },
            TesseraPoolError::Timeout { timeout_micros } => {
                let mut r = String::from_str("Pool::acquire timed out after ");
                text::push_dec(&mut r, *timeout_micros);
                r.append(" micros; no slot became free");
                r
            },
        }
    }
}

/// A refused configuration is a configuration error and a bad segment a
/// segment error, each with its words.
pub proof fn law_errors_are_of_their_kind(e: TesseraPoolError, words: Seq<char>)
    ensures
        is_config(e, words) <==> (e matches TesseraPoolError::Config(m) && m@ == words),
        is_region(e, words) <==> (e matches TesseraPoolError::Region(m) && m@ == words),
{
}

} // verus!
