//! Lossy broadcast ring in a shared segment: many writers, many readers.
//!
//! A ring has sections, each a ring of slots of its own. Writers never wait
//! for readers: a reader that falls behind finds its events overwritten and
//! counts how many it missed.
use vstd::prelude::*;

pub mod accounts;
pub mod concurrent;
pub mod error;
pub mod header;
pub mod laws;
pub mod namespace;
pub mod protocol;
pub mod region;
pub mod ring;
pub mod sections;

pub use error::{Result, TesseraRingError};
pub use namespace::NamespaceHandle;
pub use ring::{Event, OpenPlan, Reader, ReaderStats, Ring, RingConfig, Writer};
pub use sections::SectionConfig;

verus! {

} // verus!
