//! Worker processes: what they do with each message.
//!
//! A worker streams the chunks of each job to a temporary file, in order.
//! At commit it checks the number of chunks and the digest of all that it
//! streamed, and only then renames the file to its target. Every answer to
//! the owner is decided here; whoever runs a worker performs the file
//! operations and says how they went.
use vstd::prelude::*;

use std::collections::HashMap;

use crate::bytes::bytes_eq;
use crate::channel::{ChannelConfig, ChannelRole, TesseraChannelError};
use crate::digest;
use crate::digest::{hasher_finalize, hasher_new, hasher_update};
use crate::pool::{Descriptor, PoolConfig};
use crate::sink::conduct;
use crate::sink::config::MIN_CONTROL_ACK_SLOT_BYTES;
use crate::sink::error;
use crate::sink::error::{Result, TesseraSinkError};
use crate::sink::keys::job_ids;
use crate::sink::messages;
use crate::sink::messages::{
    job_id_hex, AckMessage, AckView, ControlMessage, ControlView, CHUNK_FAILED_FIXED_BYTES,
    JOB_COMPLETE_FIXED_BYTES,
};
use crate::sink::paths;
use crate::sink::paths::temp_path_for;
use crate::text;

verus! {

broadcast use vstd::std_specs::hash::group_hash_axioms;

/// How long a worker waits for a message before it looks whether its owner
/// is still there, in milliseconds.
pub const CONTROL_POLL_MILLIS: u64 = 250;

/// How long a worker tries to send an answer, in microseconds.
pub const ACK_SEND_TIMEOUT_MICROS: u64 = 30_000_000;

/// Everything a worker needs to get at its segments.
#[derive(Clone, Debug)]
pub struct WorkerParams {
    /// Description of the pool.
    pub pool_description: String,
    /// Description of the worker's control channel.
    pub control_description: String,
    /// Description of the ack channel.
    pub ack_description: String,
    /// Number of pool slots.
    pub pool_slot_count: u32,
    /// Pool slot size in bytes.
    pub pool_slot_size_bytes: u32,
    /// Number of control channel slots.
    pub control_slot_count: u32,
    /// Control channel slot size in bytes.
    pub control_slot_size_bytes: u32,
    /// Number of ack channel slots.
    pub ack_slot_count: u32,
    /// Ack channel slot size in bytes.
    pub ack_slot_size_bytes: u32,
    /// Index of the worker.
    pub worker_id: u32,
    /// Remove a control channel of that name that exists.
    pub force_recreate: bool,
}

/// What the parameters of a worker say.
pub struct WorkerParamsView {
    pub pool_description: Seq<char>,
    pub control_description: Seq<char>,
    pub ack_description: Seq<char>,
    pub pool_slot_count: u32,
    pub pool_slot_size_bytes: u32,
    pub control_slot_count: u32,
    pub control_slot_size_bytes: u32,
    pub ack_slot_count: u32,
    pub ack_slot_size_bytes: u32,
    pub worker_id: u32,
    pub force_recreate: bool,
}

impl View for WorkerParams {
    type V = WorkerParamsView;

    open spec fn view(&self) -> WorkerParamsView {
        WorkerParamsView {
            pool_description: self.pool_description@,
            control_description: self.control_description@,
            ack_description: self.ack_description@,
            pool_slot_count: self.pool_slot_count,
            pool_slot_size_bytes: self.pool_slot_size_bytes,
            control_slot_count: self.control_slot_count,
            control_slot_size_bytes: self.control_slot_size_bytes,
            ack_slot_count: self.ack_slot_count,
            ack_slot_size_bytes: self.ack_slot_size_bytes,
            worker_id: self.worker_id,
            force_recreate: self.force_recreate,
        }
    }
}

impl WorkerParams {
    /// How the worker attaches to the pool. The lease time is the owner's.
    pub fn pool_config(&self) -> (c: PoolConfig)
        ensures
            c.description@ == self.pool_description@,
            c.slot_count == self.pool_slot_count,
            c.slot_size_bytes == self.pool_slot_size_bytes,
            !c.is_owner,
            c.ttl_micros == 0,
            !c.force_recreate,
    {
        PoolConfig {
            description: String::from_str(self.pool_description.as_str()),
            slot_count: self.pool_slot_count,
            slot_size_bytes: self.pool_slot_size_bytes,
            is_owner: false,
            ttl_micros: 0,
            force_recreate: false,
        }
    }

    /// How the worker creates its control channel, which it reads.
    pub fn control_config(&self) -> (c: ChannelConfig)
        ensures
            c.description@ == self.control_description@,
            c.slot_count == self.control_slot_count,
            c.slot_size_bytes == self.control_slot_size_bytes,
            c.role == ChannelRole::Receiver,
            c.force_recreate == self.force_recreate,
    {
        ChannelConfig {
            description: String::from_str(self.control_description.as_str()),
            slot_count: self.control_slot_count,
            slot_size_bytes: self.control_slot_size_bytes,
            role: ChannelRole::Receiver,
            force_recreate: self.force_recreate,
        }
    }

    /// How the worker attaches to the ack channel, which the owner reads.
    pub fn ack_config(&self) -> (c: ChannelConfig)
        ensures
            c.description@ == self.ack_description@,
            c.slot_count == self.ack_slot_count,
            c.slot_size_bytes == self.ack_slot_size_bytes,
            c.role == ChannelRole::Sender,
            !c.force_recreate,
    {
        ChannelConfig {
            description: String::from_str(self.ack_description.as_str()),
            slot_count: self.ack_slot_count,
            slot_size_bytes: self.ack_slot_size_bytes,
            role: ChannelRole::Sender,
            force_recreate: false,
        }
    }

    /// What the worker says once it has its segments.
    pub fn ready_message(&self) -> (m: AckMessage)
        ensures
            m@ == (AckView::WorkerReady { worker_id: self.worker_id }),
    {
        AckMessage::WorkerReady { worker_id: self.worker_id }
    }
}

/// A job that a worker is receiving.
#[derive(Debug)]
struct WorkerJob {
    final_path: String,
    temp_path: String,
    hasher: blake3::Hasher,
    next_chunk_index: u32,
}

/// What a worker knows of a job.
#[verifier::ext_equal]
pub struct JobView {
    /// Target path.
    pub final_path: Seq<char>,
    /// Path of the temporary file.
    pub temp_path: Seq<char>,
    /// All that was streamed to the temporary file.
    pub streamed: Seq<u8>,
    /// Index of the chunk that comes next.
    pub next_chunk_index: u32,
}

impl View for WorkerJob {
    type V = JobView;

    closed spec fn view(&self) -> JobView {
        JobView {
            final_path: self.final_path@,
            temp_path: self.temp_path@,
            streamed: digest::hashed(self.hasher)->0,
            next_chunk_index: self.next_chunk_index,
        }
    }
}

/// The jobs that a worker is receiving.
#[derive(Debug)]
pub struct Worker {
    jobs: HashMap<u128, WorkerJob>,
}

impl View for Worker {
    type V = Map<u128, JobView>;

    closed spec fn view(&self) -> Map<u128, JobView> {
        self.jobs@.map_values(|j: WorkerJob| j@)
    }
}

/// What to do next for a message.
#[derive(Debug)]
pub enum WorkerStep {
    /// Read the chunk from the pool, then go on with `begin_chunk`, or with
    /// `chunk_failed` if it cannot be read.
    ReadChunk {
        /// Job identifier.
        job_id: u128,
        /// Target path of the job.
        path: String,
        /// Index of the chunk.
        chunk_index: u32,
        /// Where the chunk is.
        descriptor: Descriptor,
    },
    /// Create the temporary file, then go on with `file_created`, or with
    /// `chunk_failed`.
    CreateFile {
        /// Its path.
        temp_path: String,
    },
    /// Append the chunk to the temporary file, then go on with
    /// `chunk_written`, or with `chunk_failed`.
    WriteChunk,
    /// Sync the temporary file if asked, close it and rename it, then go on
    /// with `commit_done`, or remove it and go on with `commit_failed`.
    FinishFile {
        /// Sync the file to disk first.
        sync: bool,
        /// Path of the temporary file.
        temp_path: String,
        /// Target path.
        final_path: String,
    },
    /// Close and remove the temporary file if there is one, and send the
    /// answer.
    Answer {
        /// Path of the temporary file.
        remove: Option<String>,
        /// The answer.
        ack: AckMessage,
    },
    /// Nothing is to be done.
    Nothing,
}

/// What an optional string says.
pub open spec fn opt_text(s: Option<String>) -> Option<Seq<char>> {
    match s {
        Some(s) => Some(s@),
        None => None,
    }
}

/// The step is to remove this file and to send this answer.
pub open spec fn answers(step: WorkerStep, remove: Option<Seq<char>>, ack: AckView) -> bool {
    step matches WorkerStep::Answer { remove: r, ack: a } && opt_text(r) == remove && a@ == ack
}

/// A job's name.
pub open spec fn job_name(job_id: u128) -> Seq<char> {
    text::hex_fixed(job_id as nat, 32)
}

/// The temporary file of a job that is there.
pub open spec fn temp_of(jobs: Map<u128, JobView>, job_id: u128) -> Option<Seq<char>> {
    if jobs.contains_key(job_id) {
        Some(jobs[job_id].temp_path)
    } else {
        None
    }
}

/// Words for a job that begins in the middle.
pub open spec fn first_index_words(job_id: u128, chunk_index: u32) -> Seq<char> {
    "job "@ + job_name(job_id) + " first observed chunk has index "@ + text::dec(chunk_index as nat)
        + ", expected 0"@
}

/// Words for a chunk out of order.
pub open spec fn order_words(job_id: u128, next: u32, chunk_index: u32) -> Seq<char> {
    "job "@ + job_name(job_id) + " expected chunk "@ + text::dec(next as nat) + ", got "@
        + text::dec(chunk_index as nat)
}

/// Words for a commit of a job that is not there.
pub open spec fn no_chunks_words(job_id: u128, path: Seq<char>) -> Seq<char> {
    "job "@ + job_name(job_id) + " for "@ + path
        + " failed: "@ + "no received chunks at commit (all chunks may have failed)"@
}

/// Words for a wrong number of chunks.
pub open spec fn count_words(job_id: u128, expected: u32, actual: u32) -> Seq<char> {
    "job "@ + job_name(job_id) + ": chunk count mismatch (expected "@ + text::dec(expected as nat)
        + ", got "@ + text::dec(actual as nat) + ")"@
}

/// Words for a wrong digest.
pub open spec fn hash_words(job_id: u128, expected: Seq<u8>, actual: Seq<u8>) -> Seq<char> {
    "job "@ + job_name(job_id) + ": hash mismatch (expected "@ + text::hex_bytes(expected)
        + ", got "@ + text::hex_bytes(actual) + ")"@
}

/// A job whose temporary file was just created.
pub open spec fn begun(path: Seq<char>, temp_path: Seq<char>) -> JobView {
    JobView { final_path: path, temp_path, streamed: Seq::empty(), next_chunk_index: 0 }
}

/// A job after one more chunk.
pub open spec fn with_chunk(j: JobView, payload: Seq<u8>) -> JobView {
    JobView {
        streamed: j.streamed + payload,
        next_chunk_index: (j.next_chunk_index + 1) as u32,
        ..j
    }
}

/// The chunk is the one that comes next: the first of a job that can have a
/// temporary file, or the one after the last.
pub open spec fn takes(
    jobs: Map<u128, JobView>,
    job_id: u128,
    path: Seq<char>,
    chunk_index: u32,
) -> bool {
    if jobs.contains_key(job_id) {
        chunk_index == jobs[job_id].next_chunk_index
    } else {
        chunk_index == 0 && paths::file_name(path) is Some
    }
}

/// What is wrong with a job at commit, if anything is.
pub open spec fn commit_refusal(
    j: JobView,
    job_id: u128,
    chunk_count: u32,
    expected_hash: Seq<u8>,
) -> Option<Seq<char>> {
    if j.next_chunk_index != chunk_count {
        Some(count_words(job_id, chunk_count, j.next_chunk_index))
    } else if digest::blake3_digest(j.streamed) != expected_hash {
        Some(hash_words(job_id, expected_hash, digest::blake3_digest(j.streamed)))
    } else {
        None
    }
}

/// What is next for a commit.
pub open spec fn commit_step(
    jobs: Map<u128, JobView>,
    job_id: u128,
    path: Seq<char>,
    chunk_count: u32,
    expected_hash: Seq<u8>,
    fsync: bool,
    step: WorkerStep,
) -> bool {
    if !jobs.contains_key(job_id) {
        answers(
            step,
            None,
            AckView::JobComplete {
                job_id,
                success: false,
                path,
                error: no_chunks_words(job_id, path),
            },
        )
    } else {
        let j = jobs[job_id];
        match commit_refusal(j, job_id, chunk_count, expected_hash) {
            Some(words) => answers(
                step,
                Some(j.temp_path),
                AckView::JobComplete { job_id, success: false, path, error: words },
            ),
            None => step matches WorkerStep::FinishFile { sync, temp_path, final_path } && sync
                == fsync && temp_path@ == j.temp_path && final_path@ == j.final_path,
        }
    }
}

/// The strings are the temporary files of the jobs `ids`, which are all the
/// jobs, each once.
pub open spec fn lists_temp_files(
    r: Seq<String>,
    ids: Seq<u128>,
    jobs: Map<u128, JobView>,
) -> bool {
    &&& ids.no_duplicates()
    &&& forall|k: u128| #[trigger] jobs.contains_key(k) <==> ids.contains(k)
    &&& r.len() == ids.len()
    &&& forall|i: int| 0 <= i < r.len() ==> (#[trigger] r[i])@ == jobs[ids[i]].temp_path
}

impl Worker {
    /// The worker is as its operations leave it.
    pub closed spec fn wf(&self) -> bool {
        forall|k: u128|
            self.jobs@.contains_key(k) ==> digest::hashed((#[trigger] self.jobs@[k]).hasher) is Some
    }

    /// A worker without jobs.
    pub fn new() -> (w: Worker)
        ensures
            w.wf(),
            w@ == Map::<u128, JobView>::empty(),
    {
        let w = Worker { jobs: HashMap::new() };
        assert(w@ =~= Map::<u128, JobView>::empty());
        w
    }

    /// Drops a job and returns the path of its temporary file.
    pub fn cleanup_job(&mut self, job_id: u128) -> (r: Option<String>)
        requires
            old(self).wf(),
        ensures
            final(self).wf(),
            final(self)@ == old(self)@.remove(job_id),
            opt_text(r) == temp_of(old(self)@, job_id),
    {
        let ghost before = self@;
        let r = match self.jobs.remove(&job_id) {
            Some(job) => Some(job.temp_path),
            None => None,
        };
        assert(self@ =~= before.remove(job_id));
        r
    }

    /// Drops all jobs and returns the paths of their temporary files, in no
    /// particular order.
    pub fn cleanup_all(&mut self) -> (r: Vec<String>)
        requires
            old(self).wf(),
        ensures
            final(self).wf(),
            final(self)@ == Map::<u128, JobView>::empty(),
            exists|ids: Seq<u128>| #[trigger] lists_temp_files(r@, ids, old(self)@),
    {
        let mut out: Vec<String> = Vec::new();
        let ghost before = self@;
        let ids = job_ids(&self.jobs);
        let mut i: usize = 0;
        while i < ids.len()
            invariant
                before == self@,
                i <= ids@.len(),
                ids@.no_duplicates(),
                forall|k: u128| #[trigger] self.jobs@.contains_key(k) <==> ids@.contains(k),
                out@.len() == i,
                forall|j: int|
                    0 <= j < i ==> before.contains_key(ids@[j]) && (#[trigger] out@[j])@
                        == before[ids@[j]].temp_path,
            decreases ids@.len() - i,
        {
            assert(ids@.contains(ids@[i as int]));
            if let Some(job) = self.jobs.get(&ids[i]) {
                out.push(String::from_str(job.temp_path.as_str()));
            }
            i = i + 1;
        }
        self.jobs = HashMap::new();
        proof {
            assert(self@ =~= Map::<u128, JobView>::empty());
            assert(lists_temp_files(out@, ids@, before));
        }
        out
    }

    /// The index of the chunk that comes next for a job.
    pub fn next_chunk_index(&self, job_id: u128) -> (r: Option<u32>)
        ensures
            r == if self@.contains_key(job_id) {
                Some(self@[job_id].next_chunk_index)
            } else {
                None
            },
    {
        match self.jobs.get(&job_id) {
            Some(job) => Some(job.next_chunk_index),
            None => None,
        }
    }

    /// Takes in a message and says what to do for it.
    pub fn dispatch(&mut self, msg: ControlMessage) -> (step: WorkerStep)
        requires
            old(self).wf(),
        ensures
            final(self).wf(),
            match msg@ {
                ControlView::ChunkDescriptor { job_id, path, chunk_index, descriptor } => {
                    &&& final(self)@ == old(self)@
                    &&& step matches WorkerStep::ReadChunk {
                        job_id: id,
                        path: p,
                        chunk_index: c,
                        descriptor: d,
                    } && id == job_id && p@ == path && c == chunk_index && d == descriptor
                },
                ControlView::Commit { job_id, path, chunk_count, expected_hash, fsync } => {
                    &&& final(self)@ == old(self)@.remove(job_id)
                    &&& commit_step(
                        old(self)@,
                        job_id,
                        path,
                        chunk_count,
                        expected_hash,
                        fsync,
                        step,
                    )
                },
                ControlView::Cancel { job_id } => {
                    &&& final(self)@ == old(self)@.remove(job_id)
                    &&& answers(
                        step,
                        temp_of(old(self)@, job_id),
                        AckView::CancelAck { job_id },
                    )
                },
                ControlView::Shutdown => final(self)@ == old(self)@ && step is Nothing,
            },
            conduct::dispatched(old(self)@, msg@, step, final(self)@),
    {
        match msg {
            ControlMessage::ChunkDescriptor { job_id, path, chunk_index, descriptor } =>
                WorkerStep::ReadChunk { job_id, path, chunk_index, descriptor },
            ControlMessage::Commit { job_id, path, chunk_count, expected_hash, fsync } => {
                self.handle_commit(job_id, path, chunk_count, &expected_hash, fsync)
            },
            ControlMessage::Cancel { job_id } => {
                let remove = self.cleanup_job(job_id);
                WorkerStep::Answer { remove, ack: AckMessage::CancelAck { job_id } }
            },
            ControlMessage::Shutdown => WorkerStep::Nothing,
        }
    }

    /// What to do with a chunk that was read from the pool. The first chunk
    /// of a job has index 0 and makes the temporary file; the others come
    /// in order.
    pub fn begin_chunk(&self, job_id: u128, path: &str, chunk_index: u32) -> (r: Result<WorkerStep>)
        requires
            self.wf(),
        ensures
            r is Ok <==> takes(self@, job_id, path@, chunk_index),
            if self@.contains_key(job_id) {
                let next = self@[job_id].next_chunk_index;
                if chunk_index == next {
                    r matches Ok(WorkerStep::WriteChunk)
                } else {
                    r matches Err(e) && error::is_protocol(
                        e,
                        order_words(job_id, next, chunk_index),
                    )
                }
            } else if chunk_index != 0 {
                r matches Err(e) && error::is_protocol(e, first_index_words(job_id, chunk_index))
            } else {
                match paths::file_name(path@) {
                    Some(name) => r matches Ok(WorkerStep::CreateFile { temp_path }) && temp_path@
                        == paths::temp_path(path@, job_id),
                    None => r matches Err(e) && error::is_config(e, paths::no_name_words(path@)),
                }
            },
            conduct::begins_chunk(self@, job_id, path@, chunk_index, r),
    {
        match self.jobs.get(&job_id) {
            Some(job) => {
                if chunk_index != job.next_chunk_index {
                    let mut words = String::from_str("job ");
                    words.append(job_id_hex(job_id).as_str());
                    words.append(" expected chunk ");
                    text::push_dec(&mut words, job.next_chunk_index as u64);
                    words.append(", got ");
                    text::push_dec(&mut words, chunk_index as u64);
                    return Err(TesseraSinkError::Protocol(words));
                }
                Ok(WorkerStep::WriteChunk)
            },
            None => {
                if chunk_index != 0 {
                    let mut words = String::from_str("job ");
                    words.append(job_id_hex(job_id).as_str());
                    words.append(" first observed chunk has index ");
                    text::push_dec(&mut words, chunk_index as u64);
                    words.append(", expected 0");
                    return Err(TesseraSinkError::Protocol(words));
                }
                match temp_path_for(path, job_id) {
                    Ok(temp_path) => Ok(WorkerStep::CreateFile { temp_path }),
                    Err(e) => Err(e),
                }
            },
        }
    }

    /// The temporary file was created: the job begins, and its first chunk
    /// is written.
    pub fn file_created(&mut self, job_id: u128, path: &str, temp_path: String) -> (step: WorkerStep)
        requires
            old(self).wf(),
        ensures
            final(self).wf(),
            final(self)@ == old(self)@.insert(job_id, begun(path@, temp_path@)),
            step is WriteChunk,
    {
        let ghost before = self@;
        let job = WorkerJob {
            final_path: String::from_str(path),
            temp_path,
            hasher: hasher_new(),
            next_chunk_index: 0,
        };
        let ghost v = job@;
        self.jobs.insert(job_id, job);
        assert(self@ =~= before.insert(job_id, v));
        WorkerStep::WriteChunk
    }

    /// The chunk was appended to the temporary file.
    pub fn chunk_written(&mut self, job_id: u128, chunk_index: u32, payload: &[u8]) -> (step:
        WorkerStep)
        requires
            old(self).wf(),
            old(self)@.contains_key(job_id),
            old(self)@[job_id].next_chunk_index < u32::MAX,
        ensures
            final(self).wf(),
            final(self)@ == old(self)@.insert(
                job_id,
                with_chunk(old(self)@[job_id], payload@),
            ),
            answers(step, None, AckView::ChunkAck { job_id, chunk_index }),
    {
        let ghost before = self@;
        if let Some(mut job) = self.jobs.remove(&job_id) {
            hasher_update(&mut job.hasher, payload);
            job.next_chunk_index = job.next_chunk_index + 1;
            let ghost v = job@;
            self.jobs.insert(job_id, job);
            assert(self@ =~= before.insert(job_id, v));
        }
        WorkerStep::Answer { remove: None, ack: AckMessage::ChunkAck { job_id, chunk_index } }
    }

    /// The chunk could not be read or written: its job is dropped, so that
    /// a later commit of it fails.
    pub fn chunk_failed(&mut self, job_id: u128, chunk_index: u32, e: &TesseraSinkError) -> (step:
        WorkerStep)
        requires
            old(self).wf(),
        ensures
            final(self).wf(),
            final(self)@ == old(self)@.remove(job_id),
            answers(
                step,
                temp_of(old(self)@, job_id),
                AckView::ChunkFailed { job_id, chunk_index, error: e.words() },
            ),
    {
        let remove = self.cleanup_job(job_id);
        let ack = AckMessage::ChunkFailed { job_id, chunk_index, error: e.message() };
        WorkerStep::Answer { remove, ack }
    }

    /// Ends a job: its number of chunks and its digest are checked before
    /// the file may be renamed. Whatever the outcome, the job is over.
    fn handle_commit(
        &mut self,
        job_id: u128,
        path: String,
        chunk_count: u32,
        expected_hash: &[u8; 32],
        fsync: bool,
    ) -> (step: WorkerStep)
        requires
            old(self).wf(),
        ensures
            final(self).wf(),
            final(self)@ == old(self)@.remove(job_id),
            commit_step(
                old(self)@,
                job_id,
                path@,
                chunk_count,
                expected_hash@,
                fsync,
                step,
            ),
    {
        let ghost before = self@;
        let job = match self.jobs.remove(&job_id) {
            Some(job) => job,
            None => {
                assert(self@ =~= before.remove(job_id));
                let e = TesseraSinkError::JobFailed {
                    job_id: job_id_hex(job_id),
                    path: String::from_str(path.as_str()),
                    message: String::from_str(
                        "no received chunks at commit (all chunks may have failed)",
                    ),
                };
                let ack = AckMessage::JobComplete {
                    job_id,
                    success: false,
                    path,
                    error: e.message(),
                };
                return WorkerStep::Answer { remove: None, ack };
            },
        };
        assert(self@ =~= before.remove(job_id));
        assert(before[job_id] == job@);
        if job.next_chunk_index != chunk_count {
            let e = TesseraSinkError::ChunkCountMismatch {
                job_id: job_id_hex(job_id),
                expected: chunk_count,
                actual: job.next_chunk_index,
            };
            let ack = AckMessage::JobComplete { job_id, success: false, path, error: e.message() };
            return WorkerStep::Answer { remove: Some(job.temp_path), ack };
        }
        let actual: [u8; 32] = hasher_finalize(&job.hasher);
        if !bytes_eq(actual.as_slice(), expected_hash.as_slice()) {
            let e = TesseraSinkError::HashMismatch {
                job_id: job_id_hex(job_id),
                expected: hex32(expected_hash),
                actual: hex32(&actual),
            };
            let ack = AckMessage::JobComplete { job_id, success: false, path, error: e.message() };
            return WorkerStep::Answer { remove: Some(job.temp_path), ack };
        }
        WorkerStep::FinishFile {
            sync: fsync,
            temp_path: job.temp_path,
            final_path: job.final_path,
        }
    }

    /// The file is in place under `final_path`.
    pub fn commit_done(job_id: u128, final_path: String) -> (step: WorkerStep)
        ensures
            answers(
                step,
                None,
                AckView::JobComplete {
                    job_id,
                    success: true,
                    path: final_path@,
                    error: Seq::empty(),
                },
            ),
    {
        let ack = AckMessage::JobComplete {
            job_id,
            success: true,
            path: final_path,
            error: String::new(),
        };
        WorkerStep::Answer { remove: None, ack }
    }

    /// The file could not be synced or renamed.
    pub fn commit_failed(job_id: u128, path: String, temp_path: String, io_error: String) -> (step:
        WorkerStep)
        ensures
            answers(
                step,
                Some(temp_path@),
                AckView::JobComplete {
                    job_id,
                    success: false,
                    path: path@,
                    error: "io error: "@ + io_error@,
                },
            ),
    {
        let e = TesseraSinkError::Io(io_error);
        let ack = AckMessage::JobComplete { job_id, success: false, path, error: e.message() };
        WorkerStep::Answer { remove: Some(temp_path), ack }
    }
}

/// A digest as 64 hexadecimal digits.
fn hex32(b: &[u8; 32]) -> (r: String)
    ensures
        r@ == text::hex_bytes(b@),
{
    let mut r = String::new();
    text::push_hex_bytes(&mut r, b.as_slice());
    assert(r@ =~= text::hex_bytes(b@));
    r
}

/// What the worker's loop does next.
#[derive(Debug)]
pub enum LoopStep {
    /// Take in this message.
    Dispatch(ControlMessage),
    /// Wait for another message.
    Wait,
    /// Remove all temporary files and end.
    Exit,
}

/// What to do with what the control channel gave. A worker ends when it is
/// told to, or when no message came and its owner is gone; a message that
/// cannot be decoded and a channel that fails end it with an error.
pub fn judge_control(
    received: core::result::Result<Vec<u8>, TesseraChannelError>,
    parent_is_gone: bool,
) -> (r: Result<LoopStep>)
    ensures
        match received {
            Ok(b) => match messages::control_decoded(b@) {
                Ok(ControlView::Shutdown) => r matches Ok(LoopStep::Exit),
                Ok(m) => r matches Ok(LoopStep::Dispatch(x)) && x@ == m,
                Err(words) => r matches Err(e) && error::is_protocol(e, words),
            },
            Err(TesseraChannelError::Timeout { .. }) => if parent_is_gone {
                r matches Ok(LoopStep::Exit)
            } else {
                r matches Ok(LoopStep::Wait)
            },
            Err(e) => r == Err::<LoopStep, TesseraSinkError>(TesseraSinkError::Channel(e)),
        },
{
    match received {
        Ok(b) => {
            match ControlMessage::decode(b.as_slice()) {
                Ok(ControlMessage::Shutdown) => Ok(LoopStep::Exit),
                Ok(m) => Ok(LoopStep::Dispatch(m)),
                Err(e) => Err(e),
            }
        },
        Err(TesseraChannelError::Timeout { timeout_micros, head, tail }) => {
            if parent_is_gone {
                Ok(LoopStep::Exit)
            } else {
                Ok(LoopStep::Wait)
            }
        },
        Err(e) => Err(TesseraSinkError::Channel(e)),
    }
}

/// The answer as a slot of the ack channel can hold it. Every answer goes
/// through here before it is sent, so that a long path or a long error does
/// not keep the owner from learning of it, and does not end the worker.
pub fn fit_ack(ack: AckMessage, slot_size: u32) -> (r: AckMessage)
    ensures
        r@ == ack@.fitted(slot_size),
        slot_size >= MIN_CONTROL_ACK_SLOT_BYTES ==> r@.bytes().len() <= slot_size,
        slot_size >= MIN_CONTROL_ACK_SLOT_BYTES && ack@.bytes().len() <= slot_size ==> r@ == ack@,
{
    proof {
        if slot_size >= MIN_CONTROL_ACK_SLOT_BYTES {
            messages::law_fitted_answers_fit(ack@, slot_size);
        }
    }
    match ack {
        AckMessage::ChunkFailed { job_id, chunk_index, error } => {
            let room: u32 = slot_size.saturating_sub(CHUNK_FAILED_FIXED_BYTES);
            let error = String::from_str(text::cut_to(error.as_str(), room as usize));
            AckMessage::ChunkFailed { job_id, chunk_index, error }
        },
        AckMessage::JobComplete { job_id, success, path, error } => {
            let room: usize = slot_size.saturating_sub(JOB_COMPLETE_FIXED_BYTES) as usize;
            let words = text::cut_to(error.as_str(), room);
            proof {
                text::lemma_cut_fits(error@, room as int);
            }
            let left: usize = room - words.as_bytes().len();
            let path = String::from_str(text::cut_to(path.as_str(), left));
            AckMessage::JobComplete { job_id, success, path, error: String::from_str(words) }
        },
        ack => ack,
    }
}

/// The failure of a worker that cannot send its answer. A send that timed
/// out means that the owner no longer receives. Of an answer that went
/// through [`fit_ack`] for a slot of the least size or more, no send fails
/// for its length.
pub fn ack_send_failure(e: TesseraChannelError) -> (r: TesseraSinkError)
    ensures
        match e {
            TesseraChannelError::Timeout { .. } => error::is_timeout(
                r,
                ACK_SEND_TIMEOUT_MICROS,
                "ack send (owner not draining)"@,
            ),
            _ => r == TesseraSinkError::Channel(e),
        },
{
    match e {
        TesseraChannelError::Timeout { timeout_micros, head, tail } => TesseraSinkError::Timeout {
            timeout_micros: ACK_SEND_TIMEOUT_MICROS,
            context: String::from_str("ack send (owner not draining)"),
        },
        e => TesseraSinkError::Channel(e),
    }
}

} // verus!
