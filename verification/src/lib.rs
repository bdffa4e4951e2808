//! Shared-memory primitives for one machine.
//!
//! * [`pool`]: fixed slots handed out under leases, consumed by descriptor.
//! * [`channel`]: bounded many-producer, one-consumer byte channel.
//! * [`ring`]: lossy broadcast ring with per-slot sequence locks.
//! * [`sink`]: atomic writing of files by worker processes.
//! * [`facade`]: what bindings to other languages need beside the handles.
//!
//! The library holds every layout, rule and decision. A mapped segment is
//! seen as a byte slice; clocks, random draws and operating-system calls
//! reach it as plain values.
use vstd::prelude::*;

pub mod bytes;
pub mod channel;
pub mod digest;
pub mod facade;
pub mod lifecycle;
pub mod namespace;
pub mod pool;
pub mod ring;
pub mod sink;
pub mod text;

verus! {

} // verus!
