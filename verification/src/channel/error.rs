//! Errors of the channel.
use vstd::prelude::*;

use crate::text;

verus! {

/// Failures of channel operations, one variant per mode of failure.
#[derive(Debug)]
pub enum TesseraChannelError {
    /// A field of the configuration is invalid.
    Config(String),
    /// The segment could not be created, attached, read or removed.
    Region(String),
    /// The attached segment has another format or geometry.
    HeaderMismatch {
        /// Short description of what disagrees.
        message: String,
        /// Format version of this library.
        expected_format: u32,
        /// Format version in the segment.
        found_format: u32,
        /// Slot count expected by the caller.
        expected_count: u32,
        /// Slot count in the segment.
        found_count: u32,
        /// Slot size expected by the caller.
        expected_size: u32,
        /// Slot size in the segment.
        found_size: u32,
    },
    /// The message is longer than a slot.
    OversizedPayload {
        /// Message length.
        payload_size: usize,
        /// Slot capacity.
        slot_size: usize,
    },
    /// No slot is free.
    ChannelFull {
        /// Number of slots.
        slot_count: u32,
    },
    /// No message is ready.
    ChannelEmpty {
        /// Head position.
        head: u64,
    },
    /// The time for a bounded wait ran out.
    Timeout {
        /// The timeout.
        timeout_micros: u64,
        /// Head position at the end of the wait.
        head: u64,
        /// Tail position at the end of the wait.
        tail: u64,
    },
    /// The handle has the other role.
    RoleMismatch {
        /// Role of the handle.
        actual: ChannelRoleSnapshot,
        /// Role that the operation requires.
        required: ChannelRoleSnapshot,
    },
}

/// A role, as errors name it.
#[derive(Clone, Copy, Debug, PartialEq, Eq)]
pub enum ChannelRoleSnapshot {
    /// Creates the segment and receives.
    Receiver,
    /// Attaches to the segment and sends.
    Sender,
}

/// Result of channel operations.
pub type Result<T> = core::result::Result<T, TesseraChannelError>;

/// `e` is a configuration error with the given words.
pub open spec fn is_config(e: TesseraChannelError, words: Seq<char>) -> bool {
    e matches TesseraChannelError::Config(m) && m@ == words
}

/// `e` is a segment error with the given words.
pub open spec fn is_region(e: TesseraChannelError, words: Seq<char>) -> bool {
    e matches TesseraChannelError::Region(m) && m@ == words
}

impl ChannelRoleSnapshot {
    /// The role's name.
    pub open spec fn words(self) -> Seq<char> {
        match self {
            ChannelRoleSnapshot::Receiver => "Receiver"@,
            ChannelRoleSnapshot::Sender => "Sender"@,
        }
    }

    /// The role's name.
    pub fn name(self) -> (r: &'static str)
        ensures
            r@ == self.words(),
    {
        match self {
            ChannelRoleSnapshot::Receiver => "Receiver",
            ChannelRoleSnapshot::Sender => "Sender",
        }
    }
}

impl TesseraChannelError {
    /// The error in words.
    pub open spec fn words(self) -> Seq<char> {
        match self {
            TesseraChannelError::Config(m) => "invalid Channel config: "@ + m@,
            TesseraChannelError::Region(m) => "shared-memory region error: "@ + m@,
            TesseraChannelError::HeaderMismatch {
                message,
                expected_format,
                found_format,
                expected_count,
                found_count,
                expected_size,
                found_size,
            } => "attached SHM region has incompatible header: "@ + message@
                + " (expected format_version="@ + text::dec(expected_format as nat) + ", found "@
                + text::dec(found_format as nat) + "; expected slot_count="@ + text::dec(
                expected_count as nat,
            ) + ", found "@ + text::dec(found_count as nat) + "; expected slot_size_bytes="@
                + text::dec(expected_size as nat) + ", found "@ + text::dec(found_size as nat)
                + ")"@,
            TesseraChannelError::OversizedPayload { payload_size, slot_size } => "payload size "@
                + text::dec(payload_size as nat) + " exceeds slot_size_bytes "@ + text::dec(
                slot_size as nat,
            ),
            TesseraChannelError::ChannelFull { slot_count } =>
                "Channel is full (tail - head == slot_count == "@ + text::dec(slot_count as nat)
                + "); use blocking send() or wait for the consumer to drain"@,
            TesseraChannelError::ChannelEmpty { head } => "Channel is empty (head == tail == "@
                + text::dec(head as nat)
                + "); use blocking recv() or wait for a producer to enqueue"@,
            TesseraChannelError::Timeout { timeout_micros, head, tail } =>
                "Channel operation timed out after "@ + text::dec(timeout_micros as nat)
                + " micros (state: head="@ + text::dec(head as nat) + ", tail="@ + text::dec(
                tail as nat,
            ) + ")"@,
            TesseraChannelError::RoleMismatch { actual, required } =>
                "Channel role mismatch: this handle is in role="@ + actual.words()
                + ", but operation requires "@ + required.words(),
        }
    }

    /// The error in words.
    pub fn message(&self) -> (r: String)
        ensures
            r@ == self.words(),
    {
        match self {
            TesseraChannelError::Config(m) => {
                let mut r = String::from_str("invalid Channel config: ");
                r.append(m.as_str());
                r
            },
            TesseraChannelError::Region(m) => {
                let mut r = String::from_str("shared-memory region error: ");
                r.append(m.as_str());
                r
            },
            TesseraChannelError::HeaderMismatch {
                message,
                expected_format,
                found_format,
                expected_count,
                found_count,
                expected_size,
                found_size,
            } => {
                let mut r = String::from_str("attached SHM region has incompatible header: ");
                r.append(message.as_str());
                r.append(" (expected format_version=");
                text::push_dec(&mut r, *expected_format as u64);
                r.append(", found ");
                text::push_dec(&mut r, *found_format as u64);
                r.append("; expected slot_count=");
                text::push_dec(&mut r, *expected_count as u64);
                r.append(", found ");
                text::push_dec(&mut r, *found_count as u64);
                r.append("; expected slot_size_bytes=");
                text::push_dec(&mut r, *expected_size as u64);
                r.append(", found ");
                text::push_dec(&mut r, *found_size as u64);
                r.append(")");
                r
            },
            TesseraChannelError::OversizedPayload { payload_size, slot_size } => {
                let mut r = String::from_str("payload size ");
                text::push_dec(&mut r, *payload_size as u64);
                r.append(" exceeds slot_size_bytes ");
                text::push_dec(&mut r, *slot_size as u64);
                r
            },
            TesseraChannelError::ChannelFull { slot_count } => {
                let mut r = String::from_str("Channel is full (tail - head == slot_count == ");
                text::push_dec(&mut r, *slot_count as u64);
                r.append("); use blocking send() or wait for the consumer to drain");
                r
            },
            TesseraChannelError::ChannelEmpty { head } => {
                let mut r = String::from_str("Channel is empty (head == tail == ");
                text::push_dec(&mut r, *head);
                r.append("); use blocking recv() or wait for a producer to enqueue");
                r
            },
            TesseraChannelError::Timeout { timeout_micros, head, tail } => {
                let mut r = String::from_str("Channel operation timed out after ");
                text::push_dec(&mut r, *timeout_micros);
                r.append(" micros (state: head=");
                text::push_dec(&mut r, *head);
                r.append(", tail=");
                text::push_dec(&mut r, *tail);
                r.append(")");
                r
            },
            TesseraChannelError::RoleMismatch { actual, required } => {
                let mut r = String::from_str("Channel role mismatch: this handle is in role=");
                r.append(actual.name());
                r.append(", but operation requires ");
                r.append(required.name());
                r
            },
        }
    }
}

/// A refused configuration is a configuration error and a bad segment a
/// segment error, each with its words.
pub proof fn law_errors_are_of_their_kind(e: TesseraChannelError, words: Seq<char>)
    ensures
        is_config(e, words) <==> (e matches TesseraChannelError::Config(m) && m@ == words),
        is_region(e, words) <==> (e matches TesseraChannelError::Region(m) && m@ == words),
{
}

} // verus!
