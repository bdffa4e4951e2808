//! Bounded, non-lossy byte channel in a shared segment: many senders, one
//! receiver.
//!
//! The receiver creates the segment and takes messages out in the order in
//! which their places were claimed. A sender claims a place by moving the
//! tail counter on, which it does only while fewer places are taken than
//! there are slots; so nothing is overwritten before it was received.
use vstd::prelude::*;

pub mod channel;
pub mod concurrent;
pub mod error;
pub mod header;
pub mod laws;
pub mod namespace;
pub mod protocol;
pub mod region;
pub mod verdicts;

pub use channel::{Channel, OpenPlan, RecvOutcome, Wait};
pub use error::{ChannelRoleSnapshot, Result, TesseraChannelError};
pub use namespace::NamespaceHandle;

verus! {

/// What a channel handle is for.
#[derive(Clone, Copy, Debug, PartialEq, Eq, Structural)]
pub enum ChannelRole {
    /// Creates the segment and receives. There is one per segment.
    Receiver,
    /// Attaches to the segment and sends. There may be many.
    Sender,
}

impl ChannelRole {
    /// The role, as errors name it.
    pub open spec fn as_snapshot(self) -> ChannelRoleSnapshot {
        match self {
            ChannelRole::Receiver => ChannelRoleSnapshot::Receiver,
            ChannelRole::Sender => ChannelRoleSnapshot::Sender,
        }
    }

    /// The role, as errors name it.
    pub fn snapshot(self) -> (r: ChannelRoleSnapshot)
        ensures
            r == self.as_snapshot(),
    {
        match self {
            ChannelRole::Receiver => ChannelRoleSnapshot::Receiver,
            ChannelRole::Sender => ChannelRoleSnapshot::Sender,
        }
    }
}

/// Construction parameters of a channel.
#[derive(Clone, Debug)]
pub struct ChannelConfig {
    /// Names the segment: processes with the same description meet there.
    pub description: String,
    /// Number of slots. Receiver and senders must agree.
    pub slot_count: u32,
    /// Message capacity of a slot, a multiple of eight. Receiver and senders
    /// must agree.
    pub slot_size_bytes: u32,
    /// Create the segment, or attach to it.
    pub role: ChannelRole,
    /// Receiver only: remove an existing segment of that name. The caller
    /// asserts that its receiver is gone.
    pub force_recreate: bool,
}

} // verus!
