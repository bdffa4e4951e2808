//! Construction parameters of a sink.
use vstd::prelude::*;

use crate::sink::error;
use crate::sink::error::{Result, TesseraSinkError};
use crate::text;

verus! {

/// Construction parameters of a sink: the geometry of its pool and of its
/// channels, all named under one description.
#[derive(Clone, Debug)]
pub struct SinkConfig {
    /// Base of the descriptions of all segments of the sink.
    pub description: String,
    /// Number of worker processes.
    pub worker_count: u32,
    /// Number of pool slots: how many chunks can be in flight.
    pub pool_slot_count: u32,
    /// Pool slot size in bytes: the longest chunk.
    pub pool_slot_size_bytes: u32,
    /// Lease time in microseconds. Leases of chunks in flight are renewed
    /// at half of it.
    pub ttl_micros: u64,
    /// How long a submit waits for a free pool slot, in microseconds.
    pub acquire_timeout_micros: u64,
    /// Number of slots of each control channel.
    pub control_slot_count: u32,
    /// Slot size of each control channel in bytes.
    pub control_slot_size_bytes: u32,
    /// Number of slots of the ack channel.
    pub ack_slot_count: u32,
    /// Slot size of the ack channel in bytes.
    pub ack_slot_size_bytes: u32,
    /// Path of the worker executable, where it is given.
    pub worker_bin_path: Option<String>,
    /// Remove segments of these names that exist. The caller asserts that
    /// their creator is gone.
    pub force_recreate: bool,
}

/// Smallest control or ack slot: room for the fixed part of every message
/// and for a path or an error of some length.
pub const MIN_CONTROL_ACK_SLOT_BYTES: u32 = 512;

/// The first thing wrong with a configuration, in words.
pub open spec fn refusal(c: SinkConfig) -> Option<Seq<char>> {
    if c.description@.len() == 0 {
        Some("description must be non-empty"@)
    } else if c.worker_count == 0 {
        Some("worker_count must be > 0"@)
    } else if c.pool_slot_count == 0 {
        Some("pool_slot_count must be > 0"@)
    } else if c.pool_slot_size_bytes == 0 {
        Some("pool_slot_size_bytes must be > 0"@)
    } else if c.ttl_micros == 0 {
        Some("ttl_micros must be > 0"@)
    } else if c.control_slot_count == 0 {
        Some("control_slot_count must be > 0"@)
    } else if c.ack_slot_count == 0 {
        Some("ack_slot_count must be > 0"@)
    } else if c.control_slot_size_bytes % 8 != 0 {
        Some("control_slot_size_bytes must be a multiple of 8"@)
    } else if c.ack_slot_size_bytes % 8 != 0 {
        Some("ack_slot_size_bytes must be a multiple of 8"@)
    } else if c.control_slot_size_bytes < MIN_CONTROL_ACK_SLOT_BYTES {
        Some(
            "control_slot_size_bytes ("@ + text::dec(c.control_slot_size_bytes as nat)
                + ") below floor "@ + text::dec(MIN_CONTROL_ACK_SLOT_BYTES as nat),
        )
    } else if c.ack_slot_size_bytes < MIN_CONTROL_ACK_SLOT_BYTES {
        Some(
            "ack_slot_size_bytes ("@ + text::dec(c.ack_slot_size_bytes as nat) + ") below floor "@
                + text::dec(MIN_CONTROL_ACK_SLOT_BYTES as nat),
        )
    } else {
        None
    }
}

fn refuse(words: &str) -> (r: Result<()>)
    ensures
        r matches Err(e) && error::is_config(e, words@),
{
    Err(TesseraSinkError::Config(String::from_str(words)))
}

impl SinkConfig {
    /// Checks the configuration and returns the first problem found.
    pub fn validate(&self) -> (r: Result<()>)
        ensures
            match refusal(*self) {
                Some(words) => r matches Err(e) && error::is_config(e, words),
                None => r is Ok,
            },
    {
        if self.description.as_str().is_empty() {
            return refuse("description must be non-empty");
        }
        if self.worker_count == 0 {
            return refuse("worker_count must be > 0");
        }
        if self.pool_slot_count == 0 {
            return refuse("pool_slot_count must be > 0");
        }
        if self.pool_slot_size_bytes == 0 {
            return refuse("pool_slot_size_bytes must be > 0");
        }
        if self.ttl_micros == 0 {
            return refuse("ttl_micros must be > 0");
        }
        if self.control_slot_count == 0 {
            return refuse("control_slot_count must be > 0");
        }
        if self.ack_slot_count == 0 {
            return refuse("ack_slot_count must be > 0");
        }
        if self.control_slot_size_bytes % 8 != 0 {
            return refuse("control_slot_size_bytes must be a multiple of 8");
        }
        if self.ack_slot_size_bytes % 8 != 0 {
            return refuse("ack_slot_size_bytes must be a multiple of 8");
        }
        if self.control_slot_size_bytes < MIN_CONTROL_ACK_SLOT_BYTES {
            let mut words = String::from_str("control_slot_size_bytes (");
            text::push_dec(&mut words, self.control_slot_size_bytes as u64);
            words.append(") below floor ");
            text::push_dec(&mut words, MIN_CONTROL_ACK_SLOT_BYTES as u64);
            return Err(TesseraSinkError::Config(words));
        }
        if self.ack_slot_size_bytes < MIN_CONTROL_ACK_SLOT_BYTES {
            let mut words = String::from_str("ack_slot_size_bytes (");
            text::push_dec(&mut words, self.ack_slot_size_bytes as u64);
            words.append(") below floor ");
            text::push_dec(&mut words, MIN_CONTROL_ACK_SLOT_BYTES as u64);
            return Err(TesseraSinkError::Config(words));
        }
        Ok(())
    }
}

} // verus!
