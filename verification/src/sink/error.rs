//! Errors of the sink.
use vstd::prelude::*;

use crate::channel::TesseraChannelError;
use crate::pool::TesseraPoolError;
use crate::text;

verus! {

/// Failures of sink operations, one variant per mode of failure. The
/// failures of the pool and of the channels that a sink is built on are
/// carried along.
#[derive(Debug)]
pub enum TesseraSinkError {
    /// A field of the configuration is invalid.
    Config(String),
    /// An operation on the pool failed.
    Pool(TesseraPoolError),
    /// An operation on a channel failed.
    Channel(TesseraChannelError),
    /// A file operation of a worker failed.
    Io(String),
    /// The worker executable could not be located.
    WorkerBinaryNotFound {
        /// Every path that was tried, in order.
        tried: Vec<String>,
    },
    /// A worker process could not be started, or ended while starting.
    WorkerSpawn {
        /// Index of the worker.
        worker_id: u32,
        /// What went wrong.
        message: String,
    },
    /// A chunk is longer than a pool slot.
    ChunkTooLarge {
        /// Chunk length.
        chunk_size: usize,
        /// Slot capacity.
        slot_size: usize,
    },
    /// A message could not be decoded, or came out of order.
    Protocol(String),
    /// At commit, a worker had not received the declared number of chunks.
    ChunkCountMismatch {
        /// Job identifier in hexadecimal.
        job_id: String,
        /// Declared number of chunks.
        expected: u32,
        /// Received number of chunks.
        actual: u32,
    },
    /// At commit, the digest of what a worker received was not the declared
    /// one.
    HashMismatch {
        /// Job identifier in hexadecimal.
        job_id: String,
        /// Declared digest in hexadecimal.
        expected: String,
        /// Computed digest in hexadecimal.
        actual: String,
    },
    /// A job ended in failure.
    JobFailed {
        /// Job identifier in hexadecimal.
        job_id: String,
        /// Target path of the job.
        path: String,
        /// What went wrong.
        message: String,
    },
    /// The sink is closed.
    Closed,
    /// A bounded wait ran out.
    Timeout {
        /// The timeout.
        timeout_micros: u64,
        /// What was waited for.
        context: String,
    },
}

/// Result of sink operations.
pub type Result<T> = core::result::Result<T, TesseraSinkError>;

/// `e` is a configuration error with the given words.
pub open spec fn is_config(e: TesseraSinkError, words: Seq<char>) -> bool {
    e matches TesseraSinkError::Config(m) && m@ == words
}

/// `e` is a protocol error with the given words.
pub open spec fn is_protocol(e: TesseraSinkError, words: Seq<char>) -> bool {
    e matches TesseraSinkError::Protocol(m) && m@ == words
}

/// `e` is a timeout of this length in this context.
pub open spec fn is_timeout(e: TesseraSinkError, micros: u64, words: Seq<char>) -> bool {
    e matches TesseraSinkError::Timeout { timeout_micros, context } && timeout_micros == micros
        && context@ == words
}

/// `e` says that the worker could not be started, with the given words.
pub open spec fn is_spawn(e: TesseraSinkError, id: u32, words: Seq<char>) -> bool {
    e matches TesseraSinkError::WorkerSpawn { worker_id, message } && worker_id == id && message@
        == words
}

/// The first `k` strings as a list prints them: quoted, separated by commas.
pub open spec fn quoted(list: Seq<String>, k: nat) -> Seq<char>
    decreases k,
{
    if k == 0 {
        Seq::empty()
    } else if k == 1 {
        text::debug_text(list[0]@)
    } else {
        quoted(list, (k - 1) as nat) + ", "@ + text::debug_text(list[k - 1]@)
    }
}

fn push_quoted(out: &mut String, list: &Vec<String>)
    ensures
        final(out)@ == old(out)@ + quoted(list@, list@.len()),
{
    let ghost before = out@;
    let mut k: usize = 0;
    assert(before + quoted(list@, 0) =~= before);
    while k < list.len()
        invariant
            k <= list@.len(),
            out@ == before + quoted(list@, k as nat),
        decreases list@.len() - k,
    {
        if k > 0 {
            out.append(", ");
        }
        let s = text::debug_string(list[k].as_str());
        out.append(s.as_str());
        k = k + 1;
        assert(out@ =~= before + quoted(list@, k as nat));
    }
}

impl TesseraSinkError {
    /// The error in words.
    pub open spec fn words(self) -> Seq<char> {
        match self {
            TesseraSinkError::Config(m) => "invalid Sink config: "@ + m@,
            TesseraSinkError::Pool(e) => "pool error: "@ + e.words(),
            TesseraSinkError::Channel(e) => "channel error: "@ + e.words(),
            TesseraSinkError::Io(m) => "io error: "@ + m@,
            TesseraSinkError::WorkerBinaryNotFound { tried } =>
                "could not locate tessera-sink-worker binary; tried: ["@ + quoted(
                tried@,
                tried@.len(),
            ) + "]"@,
            TesseraSinkError::WorkerSpawn { worker_id, message } => "failed to spawn worker "@
                + text::dec(worker_id as nat) + ": "@ + message@,
            TesseraSinkError::ChunkTooLarge { chunk_size, slot_size } => "chunk size "@ + text::dec(
                chunk_size as nat,
            ) + " exceeds pool slot capacity "@ + text::dec(slot_size as nat),
            TesseraSinkError::Protocol(m) => "protocol error: "@ + m@,
            TesseraSinkError::ChunkCountMismatch { job_id, expected, actual } => "job "@ + job_id@
                + ": chunk count mismatch (expected "@ + text::dec(expected as nat) + ", got "@
                + text::dec(actual as nat) + ")"@,
            TesseraSinkError::HashMismatch { job_id, expected, actual } => "job "@ + job_id@
                + ": hash mismatch (expected "@ + expected@ + ", got "@ + actual@ + ")"@,
            TesseraSinkError::JobFailed { job_id, path, message } => "job "@ + job_id@ + " for "@
                + path@ + " failed: "@ + message@,
            TesseraSinkError::Closed => "Sink is closed"@,
            TesseraSinkError::Timeout { timeout_micros, context } =>
                "Sink operation timed out after "@ + text::dec(timeout_micros as nat) + " micros: "@
                + context@,
        }
    }

    /// The error in words.
    pub fn message(&self) -> (r: String)
        ensures
            r@ == self.words(),
    {
        match self {
            TesseraSinkError::Config(m) => {
                let mut r = String::from_str("invalid Sink config: ");
                r.append(m.as_str());
                r
            },
            TesseraSinkError::Pool(e) => {
                let mut r = String::from_str("pool error: ");
                r.append(e.message().as_str());
                r
            },
            TesseraSinkError::Channel(e) => {
                let mut r = String::from_str("channel error: ");
                r.append(e.message().as_str());
                r
            },
            TesseraSinkError::Io(m) => {
                let mut r = String::from_str("io error: ");
                r.append(m.as_str());
                r
            },
            TesseraSinkError::WorkerBinaryNotFound { tried } => {
                let mut r = String::from_str(
                    "could not locate tessera-sink-worker binary; tried: [",
                );
                push_quoted(&mut r, tried);
                r.append("]");
                r
            },
            TesseraSinkError::WorkerSpawn { worker_id, message } => {
                let mut r = String::from_str("failed to spawn worker ");
                text::push_dec(&mut r, *worker_id as u64);
                r.append(": ");
                r.append(message.as_str());
                r
            },
            TesseraSinkError::ChunkTooLarge { chunk_size, slot_size } => {
                let mut r = String::from_str("chunk size ");
                text::push_dec(&mut r, *chunk_size as u64);
                r.append(" exceeds pool slot capacity ");
                text::push_dec(&mut r, *slot_size as u64);
                r
            },
            TesseraSinkError::Protocol(m) => {
                let mut r = String::from_str("protocol error: ");
                r.append(m.as_str());
                r
            },
            TesseraSinkError::ChunkCountMismatch { job_id, expected, actual } => {
                let mut r = String::from_str("job ");
                r.append(job_id.as_str());
                r.append(": chunk count mismatch (expected ");
                text::push_dec(&mut r, *expected as u64);
                r.append(", got ");
                text::push_dec(&mut r, *actual as u64);
                r.append(")");
                r
            },
            TesseraSinkError::HashMismatch { job_id, expected, actual } => {
                let mut r = String::from_str("job ");
                r.append(job_id.as_str());
                r.append(": hash mismatch (expected ");
                r.append(expected.as_str());
                r.append(", got ");
                r.append(actual.as_str());
                r.append(")");
                r
            },
            TesseraSinkError::JobFailed { job_id, path, message } => {
                let mut r = String::from_str("job ");
                r.append(job_id.as_str());
                r.append(" for ");
                r.append(path.as_str());
                r.append(" failed: ");
                r.append(message.as_str());
                r
            },
            TesseraSinkError::Closed => String::from_str("Sink is closed"),
            TesseraSinkError::Timeout { timeout_micros, context } => {
                let mut r = String::from_str("Sink operation timed out after ");
                text::push_dec(&mut r, *timeout_micros);
                r.append(" micros: ");
                r.append(context.as_str());
                r
            },
        }
    }
}

/// A refused configuration, a message that breaks the protocol, a wait that
/// was too long and a worker that did not start are errors of four kinds,
/// each with its words.
pub proof fn law_errors_are_of_their_kind(
    e: TesseraSinkError,
    words: Seq<char>,
    micros: u64,
    id: u32,
)
    ensures
        is_config(e, words) <==> (e matches TesseraSinkError::Config(m) && m@ == words),
        is_protocol(e, words) <==> (e matches TesseraSinkError::Protocol(m) && m@ == words),
        is_timeout(e, micros, words) <==> (e matches TesseraSinkError::Timeout {
            timeout_micros,
            context,
        } && timeout_micros == micros && context@ == words),
        is_spawn(e, id, words) <==> (e matches TesseraSinkError::WorkerSpawn {
            worker_id,
            message,
        } && worker_id == id && message@ == words),
{
}

} // verus!
