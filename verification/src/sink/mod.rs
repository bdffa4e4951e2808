//! Pool of worker processes that write files atomically.
//!
//! A sink is a service over the other parts: payloads go to the workers
//! through a pool, in chunks where they are longer than a slot; one control
//! channel per worker tells it what to do, and one ack channel brings the
//! answers back. A worker streams the chunks to a temporary file, checks
//! their number and digest at commit and renames the file into place, so
//! that no one ever sees a file that is partly written.
//!
//! The reader of a segment creates it: the owner the ack channel, each
//! worker its control channel. The pool belongs to the owner, which leases
//! its slots.
use vstd::prelude::*;

pub mod conduct;
pub mod config;
pub mod error;
pub mod keys;
pub mod laws;
pub mod leases;
pub mod messages;
pub mod names;
pub mod outcomes;
pub mod paths;
pub mod run;
pub mod sink;
pub mod spawn;
pub mod startup;
pub mod wire;
pub mod worker;

pub use config::SinkConfig;
pub use error::{Result, TesseraSinkError};
pub use messages::{AckMessage, ControlMessage};
pub use run::run_worker;
pub use sink::Sink;
pub use worker::WorkerParams;

verus! {

} // verus!
