//! The owner of a sink: its jobs, the leases of their chunks, and what it
//! does with each answer.
//!
//! The owner runs in one thread. It takes in the answers of the workers and
//! renews leases while it submits and while it flushes. Every decision is
//! made here; whoever runs the owner makes the calls to the pool, to the
//! channels and to the processes.
use vstd::prelude::*;

use vstd::utf8;

use std::collections::HashMap;

use crate::bytes;

use crate::channel::TesseraChannelError;
use crate::digest;
use crate::digest::digest_of;
use crate::pool::{Descriptor, Lease, TesseraPoolError};
use crate::sink::config;
use crate::sink::config::SinkConfig;
use crate::sink::error;
use crate::sink::error::{Result, TesseraSinkError};
use crate::sink::keys::job_ids;
use crate::sink::leases;
use crate::sink::leases::LeaseTable;
use crate::sink::messages;
use crate::sink::messages::{job_id_hex, AckMessage, AckView, ControlMessage, ControlView};
use crate::sink::outcomes;
use crate::sink::wire::Reader;
use crate::sink::worker;
use crate::text;

verus! {

broadcast use vstd::std_specs::hash::group_hash_axioms;

/// How long a control send is tried, in microseconds.
pub const CONTROL_SEND_TIMEOUT_MICROS: u64 = 30_000_000;

/// How long a closing owner waits for a worker to end, in milliseconds.
pub const WORKER_EXIT_GRACE_MILLIS: u64 = 2_000;

/// How a submitted job stands.
#[derive(Clone, Debug, PartialEq, Eq)]
pub enum JobStatus {
    /// Not ended yet.
    Pending,
    /// The file is in place.
    Succeeded,
    /// It failed, and why.
    Failed(String),
    /// It was dropped.
    Cancelled,
}

/// How a submitted job stands.
pub enum StatusView {
    Pending,
    Succeeded,
    Failed(Seq<char>),
    Cancelled,
}

impl View for JobStatus {
    type V = StatusView;

    open spec fn view(&self) -> StatusView {
        match self {
            JobStatus::Pending => StatusView::Pending,
            JobStatus::Succeeded => StatusView::Succeeded,
            JobStatus::Failed(m) => StatusView::Failed(m@),
            JobStatus::Cancelled => StatusView::Cancelled,
        }
    }
}

impl JobStatus {
    /// The job has ended.
    pub fn is_terminal(&self) -> (r: bool)
        ensures
            r == !(self@ is Pending),
    {
        match self {
            JobStatus::Pending => false,
            _ => true,
        }
    }
}

#[derive(Debug)]
struct JobState {
    path: String,
    worker_id: u32,
    status: JobStatus,
}

/// What the owner knows of a job.
pub struct JobRecord {
    /// Target path.
    pub path: Seq<char>,
    /// Worker that the job was given to.
    pub worker_id: u32,
    /// How it stands.
    pub status: StatusView,
}

impl View for JobState {
    type V = JobRecord;

    closed spec fn view(&self) -> JobRecord {
        JobRecord { path: self.path@, worker_id: self.worker_id, status: self.status@ }
    }
}

/// The owner of a sink.
#[derive(Debug)]
pub struct Sink {
    config: SinkConfig,
    outstanding: LeaseTable,
    jobs: HashMap<u128, JobState>,
    closed: bool,
}

/// What the owner of a sink knows.
pub struct SinkView {
    /// Its configuration.
    pub config: SinkConfig,
    /// Leases of chunks that were not acknowledged yet.
    pub outstanding: Map<(u128, u32), Lease>,
    /// The jobs since the last flush.
    pub jobs: Map<u128, JobRecord>,
    /// It was closed.
    pub closed: bool,
}

impl View for Sink {
    type V = SinkView;

    closed spec fn view(&self) -> SinkView {
        SinkView {
            config: self.config,
            outstanding: self.outstanding@,
            jobs: self.jobs@.map_values(|j: JobState| j@),
            closed: self.closed,
        }
    }
}

/// How many chunks a payload has: at least one, so that an empty file is
/// written too.
pub open spec fn chunk_total(len: int, slot: int) -> int {
    if len == 0 {
        1
    } else {
        (len + slot - 1) / slot
    }
}

/// Where chunk `i` ends.
pub open spec fn chunk_end(len: int, slot: int, i: int) -> int {
    if (i + 1) * slot <= len {
        (i + 1) * slot
    } else {
        len
    }
}

/// Chunk `i` of a payload.
pub open spec fn chunk_at(payload: Seq<u8>, slot: int, i: int) -> Seq<u8> {
    payload.subrange(i * slot, chunk_end(payload.len() as int, slot, i))
}

/// The jobs with one marked as failed that has not ended.
pub open spec fn marked_failed(
    jobs: Map<u128, JobRecord>,
    job_id: u128,
    words: Seq<char>,
) -> Map<u128, JobRecord> {
    if jobs.contains_key(job_id) && jobs[job_id].status is Pending {
        jobs.insert(job_id, JobRecord { status: StatusView::Failed(words), ..jobs[job_id] })
    } else {
        jobs
    }
}

/// A job that is being submitted.
#[derive(Debug)]
pub struct Submission {
    job_id: u128,
    worker_id: u32,
    path: String,
    expected_hash: [u8; 32],
    fsync: bool,
    slot: usize,
    len: usize,
    next: usize,
}

/// A job that is being submitted.
pub struct SubmissionView {
    /// Job identifier.
    pub job_id: u128,
    /// Worker that the job goes to.
    pub worker_id: u32,
    /// Target path.
    pub path: Seq<char>,
    /// Digest of the payload.
    pub expected_hash: Seq<u8>,
    /// Sync the file to disk.
    pub fsync: bool,
    /// Longest chunk.
    pub slot: int,
    /// Length of the payload.
    pub len: int,
    /// Number of chunks that were sent.
    pub next: int,
}

impl View for Submission {
    type V = SubmissionView;

    closed spec fn view(&self) -> SubmissionView {
        SubmissionView {
            job_id: self.job_id,
            worker_id: self.worker_id,
            path: self.path@,
            expected_hash: self.expected_hash@,
            fsync: self.fsync,
            slot: self.slot as int,
            len: self.len as int,
            next: self.next as int,
        }
    }
}

impl SubmissionView {
    /// No more chunks were sent than there are.
    pub open spec fn ok(self) -> bool {
        &&& 0 < self.slot <= u32::MAX
        &&& self.slot <= usize::MAX
        &&& 0 <= self.len <= usize::MAX
        &&& 0 <= self.next <= chunk_total(self.len, self.slot)
        &&& chunk_total(self.len, self.slot) <= usize::MAX
    }

    /// The message that ends the job's chunks. Only the low 32 bits of
    /// their number are told.
    pub open spec fn commit(self) -> ControlView {
        ControlView::Commit {
            job_id: self.job_id,
            path: self.path,
            chunk_count: chunk_total(self.len, self.slot) as u32,
            expected_hash: self.expected_hash,
            fsync: self.fsync,
        }
    }
}

/// The message that hands a chunk of a job to its worker.
pub open spec fn chunk_message(s: SubmissionView, chunk_index: u32, d: Descriptor) -> ControlView {
    ControlView::ChunkDescriptor {
        job_id: s.job_id,
        path: s.path,
        chunk_index,
        descriptor: d,
    }
}

/// Bytes of a [`ControlMessage::ChunkDescriptor`] beside its path.
pub const CHUNK_DESCRIPTOR_FIXED_BYTES: u32 = 57;

/// Bytes of a [`ControlMessage::Commit`] beside its path.
pub const COMMIT_FIXED_BYTES: u32 = 58;

/// The length of a job's messages on the wire.
pub proof fn lemma_job_message_lengths(s: SubmissionView, chunk_index: u32, d: Descriptor)
    requires
        s.expected_hash.len() == 32,
    ensures
        s.commit().bytes().len() == COMMIT_FIXED_BYTES + utf8::encode_utf8(s.path).len(),
        chunk_message(s, chunk_index, d).bytes().len() == CHUNK_DESCRIPTOR_FIXED_BYTES
            + utf8::encode_utf8(s.path).len(),
{
    let n = utf8::encode_utf8(s.path).len() as u32;
    bytes::lemma_le_len(s.job_id as nat, 16);
    bytes::lemma_le_len(n as nat, 4);
    bytes::lemma_le_len((chunk_total(s.len, s.slot) as u32) as nat, 4);
    bytes::lemma_le_len(chunk_index as nat, 4);
    bytes::lemma_le_len(d.slot_index as nat, 4);
    bytes::lemma_le_len(d.generation as nat, 8);
    bytes::lemma_le_len(d.size_bytes as nat, 4);
    crate::pool::law_lease_id_round_trip(d.lease_id, Seq::new(16, |i: int| 0u8));
}

/// What is next for a submission.
#[derive(Debug)]
pub enum SubmitStep {
    /// Lease a slot, write these bytes of the payload into it and send the
    /// message that `chunk_stored` gives.
    SendChunk {
        /// Index of the chunk.
        chunk_index: u32,
        /// Where the chunk begins.
        from: usize,
        /// Where the chunk ends.
        to: usize,
    },
    /// Send this message: it is the last.
    SendCommit(ControlMessage),
}

/// What an answer of a worker leads to.
#[derive(Debug)]
pub struct AckEffect {
    /// Leases to release. One that is gone already is no harm.
    pub release: Vec<Lease>,
    /// A message to send to a worker. That it cannot be sent is no harm.
    pub cancel: Option<(u32, ControlMessage)>,
}

/// The lease of one chunk, if it is out, is to be released.
pub open spec fn releases_one(r: Seq<Lease>, m: Map<(u128, u32), Lease>, k: (u128, u32)) -> bool {
    if m.contains_key(k) {
        r == seq![m[k]]
    } else {
        r.len() == 0
    }
}

/// All leases of a job are to be released.
pub open spec fn releases_job(r: Seq<Lease>, m: Map<(u128, u32), Lease>, job_id: u128) -> bool {
    leases::lists_all(r, leases::of_job(m, job_id))
}

/// Words for a chunk that failed.
pub open spec fn chunk_failed_words(chunk_index: u32, why: Seq<char>) -> Seq<char> {
    "chunk "@ + text::dec(chunk_index as nat) + " failed: "@ + why
}

/// What an answer changes, and what it leads to.
pub open spec fn acked(before: SinkView, msg: AckView, after: SinkView, effect: AckEffect) -> bool {
    match msg {
        AckView::WorkerReady { worker_id } => {
            &&& after == before
            &&& effect.release@.len() == 0
            &&& effect.cancel is None
        },
        AckView::ChunkAck { job_id, chunk_index } => {
            &&& after == (SinkView {
                outstanding: before.outstanding.remove((job_id, chunk_index)),
                ..before
            })
            &&& releases_one(effect.release@, before.outstanding, (job_id, chunk_index))
            &&& effect.cancel is None
        },
        AckView::ChunkFailed { job_id, chunk_index, error } => {
            &&& after == (SinkView {
                outstanding: before.outstanding.remove((job_id, chunk_index)),
                jobs: marked_failed(before.jobs, job_id, chunk_failed_words(chunk_index, error)),
                ..before
            })
            &&& releases_one(effect.release@, before.outstanding, (job_id, chunk_index))
            &&& if before.jobs.contains_key(job_id) {
                effect.cancel matches Some((w, m)) && w == before.jobs[job_id].worker_id && m@
                    == (ControlView::Cancel { job_id })
            } else {
                effect.cancel is None
            }
        },
        AckView::CancelAck { job_id } => {
            &&& after == (SinkView {
                outstanding: leases::without_job(before.outstanding, job_id),
                jobs: if before.jobs.contains_key(job_id)
                    && before.jobs[job_id].status is Pending {
                    before.jobs.insert(
                        job_id,
                        JobRecord { status: StatusView::Cancelled, ..before.jobs[job_id] },
                    )
                } else {
                    before.jobs
                },
                ..before
            })
            &&& releases_job(effect.release@, before.outstanding, job_id)
            &&& effect.cancel is None
        },
        AckView::JobComplete { job_id, success, path, error } => {
            &&& after == (SinkView {
                jobs: if before.jobs.contains_key(job_id) {
                    before.jobs.insert(
                        job_id,
                        JobRecord {
                            status: if success {
                                StatusView::Succeeded
                            } else {
                                StatusView::Failed(error)
                            },
                            ..before.jobs[job_id]
                        },
                    )
                } else {
                    before.jobs
                },
                ..before
            })
            &&& effect.release@.len() == 0
            &&& effect.cancel is None
        },
    }
}

/// Why a job that has ended is a failure, if it is one.
pub open spec fn failure(status: StatusView) -> Option<Seq<char>> {
    match status {
        StatusView::Failed(words) => Some(words),
        StatusView::Cancelled => Some("job cancelled"@),
        _ => None,
    }
}

/// Every job has ended.
pub open spec fn all_ended(jobs: Map<u128, JobRecord>) -> bool {
    forall|k: u128| #[trigger] jobs.contains_key(k) ==> !(jobs[k].status is Pending)
}

/// `e` tells of the failure of job `k`.
pub open spec fn tells_failure(jobs: Map<u128, JobRecord>, k: u128, e: TesseraSinkError) -> bool {
    &&& jobs.contains_key(k)
    &&& failure(jobs[k].status) is Some
    &&& e matches TesseraSinkError::JobFailed { job_id, path, message } && job_id@ == worker::job_name(k)
        && path@ == jobs[k].path && message@ == failure(jobs[k].status)->0
}

/// Words for a worker that ended.
pub open spec fn exited_words(worker_id: u32, status: Seq<char>) -> Seq<char> {
    "worker "@ + text::dec(worker_id as nat) + " exited: "@ + status
}

/// The job has not ended and was given to this worker.
pub open spec fn waits_for(j: JobRecord, worker_id: u32) -> bool {
    j.worker_id == worker_id && j.status is Pending
}

/// The jobs after a worker ended: those that wait for it have failed.
pub open spec fn jobs_after_exit(
    jobs: Map<u128, JobRecord>,
    worker_id: u32,
    words: Seq<char>,
) -> Map<u128, JobRecord> {
    jobs.map_values(
        |j: JobRecord|
            if waits_for(j, worker_id) {
                JobRecord { status: StatusView::Failed(words), ..j }
            } else {
                j
            },
    )
}

/// The chunk belongs to a job that waits for the worker.
pub open spec fn chunk_waits_for(
    jobs: Map<u128, JobRecord>,
    worker_id: u32,
    k: (u128, u32),
) -> bool {
    jobs.contains_key(k.0) && waits_for(jobs[k.0], worker_id)
}

/// The leases after a worker ended: those of jobs that wait for it are gone.
pub open spec fn leases_after_exit(
    m: Map<(u128, u32), Lease>,
    jobs: Map<u128, JobRecord>,
    worker_id: u32,
) -> Map<(u128, u32), Lease> {
    Map::new(
        |k: (u128, u32)| m.contains_key(k) && !chunk_waits_for(jobs, worker_id, k),
        |k: (u128, u32)| m[k],
    )
}

/// The leases that go when a worker ended.
pub open spec fn leases_of_exit(
    m: Map<(u128, u32), Lease>,
    jobs: Map<u128, JobRecord>,
    worker_id: u32,
) -> Map<(u128, u32), Lease> {
    Map::new(
        |k: (u128, u32)| m.contains_key(k) && chunk_waits_for(jobs, worker_id, k),
        |k: (u128, u32)| m[k],
    )
}

impl SinkView {
    /// The configuration is one that `validate` accepts.
    pub open spec fn valid(self) -> bool {
        config::refusal(self.config) is None
    }
}

impl Submission {
    /// Job identifier.
    pub fn job_id(&self) -> (r: u128)
        ensures
            r == self@.job_id,
    {
        self.job_id
    }

    /// Worker that the job goes to.
    pub fn worker_id(&self) -> (r: u32)
        ensures
            r == self@.worker_id,
    {
        self.worker_id
    }

    /// Number of chunks of the job.
    pub fn chunk_count(&self) -> (n: usize)
        requires
            self@.ok(),
        ensures
            n == chunk_total(self@.len, self@.slot),
    {
        if self.len == 0 {
            return 1;
        }
        let whole: usize = self.len / self.slot;
        let rest: usize = self.len % self.slot;
        proof {
            lemma_chunk_total(self.len as int, self.slot as int);
        }
        if rest == 0 {
            whole
        } else {
            whole + 1
        }
    }

    /// What is next: another chunk, or the commit.
    pub fn step(&self) -> (r: SubmitStep)
        requires
            self@.ok(),
        ensures
            ({
                let v = self@;
                if v.next < chunk_total(v.len, v.slot) {
                    r matches SubmitStep::SendChunk { chunk_index, from, to } && chunk_index
                        == v.next as u32 && from == v.next * v.slot && to == chunk_end(
                        v.len,
                        v.slot,
                        v.next,
                    ) && from <= to <= v.len && to - from <= v.slot
                } else {
                    r matches SubmitStep::SendCommit(m) && m@ == v.commit()
                }
            }),
    {
        let total: usize = self.chunk_count();
        if self.next < total {
            proof {
                lemma_chunk_bounds(self.len as int, self.slot as int, self.next as int);
            }
            let from: usize = self.next * self.slot;
            let to: usize = if self.len - from <= self.slot {
                self.len
            } else {
                from + self.slot
            };
            SubmitStep::SendChunk {
                chunk_index: #[verifier::truncate] (self.next as u32),
                from,
                to,
            }
        } else {
            SubmitStep::SendCommit(
                ControlMessage::Commit {
                    job_id: self.job_id,
                    path: String::from_str(self.path.as_str()),
                    chunk_count: #[verifier::truncate] (total as u32),
                    expected_hash: self.expected_hash,
                    fsync: self.fsync,
                },
            )
        }
    }

    /// The chunk was sent.
    pub fn chunk_sent(&mut self)
        requires
            old(self)@.ok(),
            old(self)@.next < chunk_total(old(self)@.len, old(self)@.slot),
        ensures
            final(self)@ == (SubmissionView { next: old(self)@.next + 1, ..old(self)@ }),
            final(self)@.ok(),
    {
        self.next = self.next + 1;
    }
}

/// The number of chunks, by division.
pub proof fn lemma_chunk_total(len: int, slot: int)
    requires
        len > 0,
        slot > 0,
    ensures
        chunk_total(len, slot) == len / slot + if len % slot == 0 {
            0int
        } else {
            1int
        },
        1 <= chunk_total(len, slot) <= len,
        (chunk_total(len, slot) - 1) * slot < len <= chunk_total(len, slot) * slot,
{
    let q = len / slot;
    let r = len % slot;
    vstd::arithmetic::div_mod::lemma_fundamental_div_mod(len, slot);
    vstd::arithmetic::div_mod::lemma_mod_bound(len, slot);
    let t = chunk_total(len, slot);
    if r == 0 {
        vstd::arithmetic::div_mod::lemma_fundamental_div_mod_converse(
            len + slot - 1,
            slot,
            q,
            slot - 1,
        );
        assert(q >= 1) by (nonlinear_arith)
            requires
                slot * q == len,
                len > 0,
                slot > 0,
        ;
    } else {
        assert(len + slot - 1 == slot * (q + 1) + (r - 1)) by (nonlinear_arith)
            requires
                len == slot * q + r,
        ;
        vstd::arithmetic::div_mod::lemma_fundamental_div_mod_converse(
            len + slot - 1,
            slot,
            q + 1,
            r - 1,
        );
    }
    assert(q >= 0 && q <= len) by (nonlinear_arith)
        requires
            len == slot * q + r,
            0 <= r < slot,
            len > 0,
    ;
    assert((t - 1) * slot < len <= t * slot && t <= len) by (nonlinear_arith)
        requires
            len == slot * q + r,
            0 <= r < slot,
            t == q && r == 0 && q >= 1 || t == q + 1 && r > 0,
            slot > 0,
            q >= 0,
    ;
}

/// A chunk lies in the payload and is no longer than a slot.
pub proof fn lemma_chunk_bounds(len: int, slot: int, i: int)
    requires
        len >= 0,
        slot > 0,
        0 <= i < chunk_total(len, slot),
    ensures
        0 <= i * slot <= chunk_end(len, slot, i) <= len,
        chunk_end(len, slot, i) - i * slot <= slot,
        i + 1 < chunk_total(len, slot) ==> chunk_end(len, slot, i) == (i + 1) * slot,
        i + 1 == chunk_total(len, slot) ==> chunk_end(len, slot, i) == len,
        (i + 1) * slot == i * slot + slot,
        len > 0 ==> i * slot < len,
{
    assert((i + 1) * slot == i * slot + slot) by (nonlinear_arith);
    if len == 0 {
        assert(i == 0);
        assert(i * slot == 0);
    } else {
        lemma_chunk_total(len, slot);
        let t = chunk_total(len, slot);
        assert(0 <= i * slot && i * slot <= (t - 1) * slot) by (nonlinear_arith)
            requires
                0 <= i <= t - 1,
                slot > 0,
        ;
        if i + 1 < t {
            assert((i + 1) * slot <= (t - 1) * slot) by (nonlinear_arith)
                requires
                    i + 1 <= t - 1,
                    slot > 0,
            ;
        }
    }
}

/// The jobs among the first `i` of a list.
spec fn seen(ids: Seq<u128>, i: int, k: u128) -> bool {
    ids.take(i).contains(k)
}

/// The owner when it has looked at the first `i` jobs after a worker ended.
spec fn exit_so_far(before: SinkView, ids: Seq<u128>, i: int, w: u32, words: Seq<char>) -> SinkView {
    SinkView {
        jobs: Map::new(
            |k: u128| before.jobs.contains_key(k),
            |k: u128|
                if seen(ids, i, k) && waits_for(before.jobs[k], w) {
                    JobRecord { status: StatusView::Failed(words), ..before.jobs[k] }
                } else {
                    before.jobs[k]
                },
        ),
        outstanding: Map::new(
            |k: (u128, u32)|
                before.outstanding.contains_key(k) && !(seen(ids, i, k.0) && chunk_waits_for(
                    before.jobs,
                    w,
                    k,
                )),
            |k: (u128, u32)| before.outstanding[k],
        ),
        ..before
    }
}

/// The leases that it has taken out by then.
spec fn gone_so_far(before: SinkView, ids: Seq<u128>, i: int, w: u32) -> Map<(u128, u32), Lease> {
    Map::new(
        |k: (u128, u32)|
            before.outstanding.contains_key(k) && seen(ids, i, k.0) && chunk_waits_for(
                before.jobs,
                w,
                k,
            ),
        |k: (u128, u32)| before.outstanding[k],
    )
}

proof fn lemma_exit_begins(before: SinkView, ids: Seq<u128>, w: u32, words: Seq<char>)
    ensures
        exit_so_far(before, ids, 0, w, words) == before,
        leases::lists_leases(Seq::empty(), Seq::empty(), gone_so_far(before, ids, 0, w)),
{
    let v = exit_so_far(before, ids, 0, w, words);
    assert(v.jobs =~= before.jobs);
    assert(v.outstanding =~= before.outstanding);
    assert forall|k: (u128, u32)| !(#[trigger] gone_so_far(before, ids, 0, w).contains_key(k)) by {}
}

proof fn lemma_seen_next(ids: Seq<u128>, i: int)
    requires
        ids.no_duplicates(),
        0 <= i < ids.len(),
    ensures
        !seen(ids, i, ids[i]),
        forall|k: u128| #[trigger] seen(ids, i + 1, k) <==> seen(ids, i, k) || k == ids[i],
{
    let a = ids.take(i);
    let b = ids.take(i + 1);
    if a.contains(ids[i]) {
        let j = choose|j: int| 0 <= j < a.len() && a[j] == ids[i];
        assert(ids[j] == ids[i]);
    }
    assert forall|k: u128| #[trigger] seen(ids, i + 1, k) <==> seen(ids, i, k) || k == ids[i] by {
        if b.contains(k) {
            let j = choose|j: int| 0 <= j < b.len() && b[j] == k;
            if j < i {
                assert(a[j] == k);
            }
        }
        if a.contains(k) {
            let j = choose|j: int| 0 <= j < a.len() && a[j] == k;
            assert(b[j] == k);
        }
        assert(b[i] == ids[i]);
    }
}

proof fn lemma_not_seen_yet(before: SinkView, ids: Seq<u128>, i: int, w: u32, words: Seq<char>)
    requires
        ids.no_duplicates(),
        0 <= i < ids.len(),
    ensures
        before.jobs.contains_key(ids[i]) ==> exit_so_far(before, ids, i, w, words).jobs[ids[i]]
            == before.jobs[ids[i]],
{
    lemma_seen_next(ids, i);
}

proof fn lemma_exit_none(before: SinkView, ids: Seq<u128>, i: int, w: u32, words: Seq<char>)
    requires
        ids.no_duplicates(),
        0 <= i < ids.len(),
        before.jobs.contains_key(ids[i]),
        !waits_for(before.jobs[ids[i]], w),
    ensures
        exit_so_far(before, ids, i + 1, w, words) == exit_so_far(before, ids, i, w, words),
        gone_so_far(before, ids, i + 1, w) == gone_so_far(before, ids, i, w),
{
    lemma_seen_next(ids, i);
    let a = exit_so_far(before, ids, i, w, words);
    let b = exit_so_far(before, ids, i + 1, w, words);
    assert(a.jobs =~= b.jobs);
    assert(a.outstanding =~= b.outstanding);
    assert(gone_so_far(before, ids, i + 1, w) =~= gone_so_far(before, ids, i, w));
}

proof fn lemma_exit_one(
    before: SinkView,
    ids: Seq<u128>,
    i: int,
    w: u32,
    words: Seq<char>,
    out: Seq<Lease>,
    keys: Seq<(u128, u32)>,
    more: Seq<Lease>,
    ks: Seq<(u128, u32)>,
)
    requires
        ids.no_duplicates(),
        0 <= i < ids.len(),
        before.jobs.contains_key(ids[i]),
        waits_for(before.jobs[ids[i]], w),
        leases::lists_leases(out, keys, gone_so_far(before, ids, i, w)),
        leases::lists_leases(
            more,
            ks,
            leases::of_job(exit_so_far(before, ids, i, w, words).outstanding, ids[i]),
        ),
    ensures
        ({
            let now = exit_so_far(before, ids, i, w, words);
            exit_so_far(before, ids, i + 1, w, words) == SinkView {
                outstanding: leases::without_job(now.outstanding, ids[i]),
                jobs: marked_failed(now.jobs, ids[i], words),
                ..before
            }
        }),
        leases::lists_leases(out + more, keys + ks, gone_so_far(before, ids, i + 1, w)),
{
    lemma_seen_next(ids, i);
    let id = ids[i];
    let now = exit_so_far(before, ids, i, w, words);
    let next = exit_so_far(before, ids, i + 1, w, words);
    assert(next.jobs =~= marked_failed(now.jobs, id, words));
    assert(next.outstanding =~= leases::without_job(now.outstanding, id));
    let g = gone_so_far(before, ids, i, w);
    let o = leases::of_job(now.outstanding, id);
    let h = gone_so_far(before, ids, i + 1, w);
    let all = keys + ks;
    assert forall|k: (u128, u32)| #[trigger] h.contains_key(k) <==> all.contains(k) by {
        assert(g.contains_key(k) <==> keys.contains(k));
        assert(o.contains_key(k) <==> ks.contains(k));
        if keys.contains(k) {
            let j = choose|j: int| 0 <= j < keys.len() && keys[j] == k;
            assert(all[j] == k);
        }
        if ks.contains(k) {
            let j = choose|j: int| 0 <= j < ks.len() && ks[j] == k;
            assert(all[keys.len() + j] == k);
        }
        if all.contains(k) {
            let j = choose|j: int| 0 <= j < all.len() && all[j] == k;
            if j < keys.len() {
                assert(keys[j] == k);
            } else {
                assert(ks[j - keys.len()] == k);
            }
        }
    }
    assert forall|a: int, b: int| 0 <= a < b < all.len() implies all[a] != all[b] by {
        if a < keys.len() && b >= keys.len() {
            assert(keys.contains(keys[a]));
            assert(ks.contains(ks[b - keys.len()]));
            assert(g.contains_key(all[a]));
            assert(o.contains_key(all[b]));
        }
    }
    assert forall|j: int| 0 <= j < (out + more).len() implies #[trigger] (out + more)[j]
        == h[all[j]] by {
        if j < out.len() {
            assert(keys.contains(keys[j]));
            assert(g.contains_key(keys[j]));
            assert(out[j] == g[keys[j]]);
        } else {
            let x = j - out.len();
            assert(ks.contains(ks[x]));
            assert(o.contains_key(ks[x]));
            assert(more[x] == o[ks[x]]);
        }
        assert(all.contains(all[j]));
        assert(h.contains_key(all[j]));
    }
}

proof fn lemma_exit_ends(before: SinkView, ids: Seq<u128>, w: u32, words: Seq<char>)
    requires
        forall|k: u128| #[trigger] before.jobs.contains_key(k) <==> ids.contains(k),
    ensures
        exit_so_far(before, ids, ids.len() as int, w, words) == (SinkView {
            outstanding: leases_after_exit(before.outstanding, before.jobs, w),
            jobs: jobs_after_exit(before.jobs, w, words),
            ..before
        }),
        gone_so_far(before, ids, ids.len() as int, w) == leases_of_exit(
            before.outstanding,
            before.jobs,
            w,
        ),
{
    assert(ids.take(ids.len() as int) =~= ids);
    let v = exit_so_far(before, ids, ids.len() as int, w, words);
    assert(v.jobs =~= jobs_after_exit(before.jobs, w, words));
    assert(v.outstanding =~= leases_after_exit(before.outstanding, before.jobs, w));
    assert(gone_so_far(before, ids, ids.len() as int, w) =~= leases_of_exit(
        before.outstanding,
        before.jobs,
        w,
    ));
}

impl Sink {
    /// The owner is as its operations leave it.
    pub closed spec fn wf(&self) -> bool {
        self@.valid() && self.outstanding.wf()
    }

    /// The owner of a sink whose workers are up.
    pub fn start(config: SinkConfig) -> (r: Result<Sink>)
        ensures
            match config::refusal(config) {
                Some(words) => r matches Err(e) && error::is_config(e, words),
                None => r matches Ok(s) && s.wf() && outcomes::placed(s@) && s@ == (SinkView {
                    config,
                    outstanding: Map::empty(),
                    jobs: Map::empty(),
                    closed: false,
                }),
            },
    {
        match config.validate() {
            Ok(_) => {},
            Err(e) => return Err(e),
        }
        let s = Sink {
            config,
            outstanding: LeaseTable::new(),
            jobs: HashMap::new(),
            closed: false,
        };
        assert(s@.jobs =~= Map::<u128, JobRecord>::empty());
        Ok(s)
    }

    /// Number of worker processes.
    pub fn worker_count(&self) -> (r: u32)
        ensures
            r == self@.config.worker_count,
    {
        self.config.worker_count
    }

    /// The description that the sink's segments are named under.
    pub fn description(&self) -> (r: &str)
        ensures
            r@ == self@.config.description@,
    {
        self.config.description.as_str()
    }

    /// The sink was closed.
    pub fn is_closed(&self) -> (r: bool)
        ensures
            r == self@.closed,
    {
        self.closed
    }

    /// How a job stands.
    pub fn job_status(&self, job_id: u128) -> (r: Option<&JobStatus>)
        ensures
            match r {
                Some(s) => self@.jobs.contains_key(job_id) && s@ == self@.jobs[job_id].status,
                None => !self@.jobs.contains_key(job_id),
            },
    {
        match self.jobs.get(&job_id) {
            Some(job) => Some(&job.status),
            None => None,
        }
    }

    /// Closes the sink. `true` says that it was open: every worker is to be
    /// told to end.
    pub fn close(&mut self) -> (r: bool)
        requires
            old(self).wf(),
        ensures
            final(self).wf(),
            outcomes::placed(old(self)@) ==> outcomes::placed(final(self)@),
            final(self)@ == (SinkView { closed: true, ..old(self)@ }),
            r == !old(self)@.closed,
            outcomes::closes(old(self)@, r, final(self)@),
    {
        if self.closed {
            return false;
        }
        self.closed = true;
        true
    }

    /// Begins to submit a payload under a job identifier drawn for it. The
    /// job is pending from here on, and its worker follows from the
    /// identifier. A path that the control messages have no room for is
    /// found out by the send of the first message that does not fit.
    pub fn submit(&mut self, job_id: u128, path: &str, payload: &[u8], fsync: bool) -> (r: Result<
        Submission,
    >)
        requires
            old(self).wf(),
        ensures
            final(self).wf(),
            outcomes::placed(old(self)@) ==> outcomes::placed(final(self)@),
            if old(self)@.closed {
                &&& r == Err::<Submission, TesseraSinkError>(TesseraSinkError::Closed)
                &&& final(self)@ == old(self)@
            } else {
                let worker_id = (job_id % old(self)@.config.worker_count as u128) as u32;
                &&& r matches Ok(s) && s@.ok() && s@ == (SubmissionView {
                    job_id,
                    worker_id,
                    path: path@,
                    expected_hash: digest::blake3_digest(payload@),
                    fsync,
                    slot: old(self)@.config.pool_slot_size_bytes as int,
                    len: payload@.len() as int,
                    next: 0,
                })
                &&& final(self)@ == (SinkView {
                    jobs: old(self)@.jobs.insert(
                        job_id,
                        JobRecord { path: path@, worker_id, status: StatusView::Pending },
                    ),
                    ..old(self)@
                })
            },
            outcomes::submitted(
                old(self)@,
                job_id,
                path@,
                payload@,
                fsync,
                match r {
                    Ok(s) => Ok(s@),
                    Err(e) => Err(e),
                },
                final(self)@,
            ),
    {
        if self.closed {
            return Err(TesseraSinkError::Closed);
        }
        let ghost before = self@;
        let worker_id: u32 = (job_id % (self.config.worker_count as u128)) as u32;
        let slot: usize = self.config.pool_slot_size_bytes as usize;
        let len: usize = payload.len();
        let job = JobState {
            path: String::from_str(path),
            worker_id,
            status: JobStatus::Pending,
        };
        let ghost record = job@;
        self.jobs.insert(job_id, job);
        proof {
            assert(self@.jobs =~= before.jobs.insert(job_id, record));
            if len > 0 {
                lemma_chunk_total(len as int, slot as int);
            }
        }
        Ok(
            Submission {
                job_id,
                worker_id,
                path: String::from_str(path),
                expected_hash: digest_of(payload),
                fsync,
                slot,
                len,
                next: 0,
            },
        )
    }

    /// The next chunk was written into the pool under this lease: the lease
    /// is kept until the chunk is acknowledged, and the message is the one
    /// that hands the chunk to the worker.
    pub fn chunk_stored(&mut self, submission: &Submission, lease: Lease, descriptor: Descriptor) -> (m:
        ControlMessage)
        requires
            old(self).wf(),
        ensures
            final(self).wf(),
            outcomes::placed(old(self)@) ==> outcomes::placed(final(self)@),
            ({
                let v = submission@;
                &&& final(self)@ == (SinkView {
                    outstanding: old(self)@.outstanding.insert((v.job_id, v.next as u32), lease),
                    ..old(self)@
                })
                &&& m@ == chunk_message(v, v.next as u32, descriptor)
            }),
            outcomes::kept(old(self)@, submission@, lease, descriptor, m@, final(self)@),
    {
        let chunk_index: u32 = #[verifier::truncate] (submission.next as u32);
        self.outstanding.insert(submission.job_id, chunk_index, lease);
        ControlMessage::ChunkDescriptor {
            job_id: submission.job_id,
            path: String::from_str(submission.path.as_str()),
            chunk_index,
            descriptor,
        }
    }

    /// The submission failed: its leases are to be released, its worker is
    /// to be told to drop it, and it has failed.
    pub fn submit_failed(&mut self, submission: &Submission, e: &TesseraSinkError) -> (r: (
        Vec<Lease>,
        ControlMessage,
    ))
        requires
            old(self).wf(),
        ensures
            final(self).wf(),
            outcomes::placed(old(self)@) ==> outcomes::placed(final(self)@),
            ({
                let id = submission@.job_id;
                &&& final(self)@ == (SinkView {
                    outstanding: leases::without_job(old(self)@.outstanding, id),
                    jobs: marked_failed(old(self)@.jobs, id, "submit failed: "@ + e.words()),
                    ..old(self)@
                })
                &&& releases_job(r.0@, old(self)@.outstanding, id)
                &&& r.1@ == (ControlView::Cancel { job_id: id })
            }),
    {
        let job_id: u128 = submission.job_id;
        let release = self.outstanding.take_job(job_id);
        let mut words = String::from_str("submit failed: ");
        words.append(e.message().as_str());
        self.mark_failed(job_id, words);
        (release, ControlMessage::Cancel { job_id })
    }

    /// Marks a job as failed that has not ended.
    fn mark_failed(&mut self, job_id: u128, words: String)
        requires
            old(self).wf(),
        ensures
            final(self).wf(),
            final(self)@ == (SinkView {
                jobs: marked_failed(old(self)@.jobs, job_id, words@),
                ..old(self)@
            }),
    {
        let pending: bool = match self.jobs.get(&job_id) {
            Some(job) => !job.status.is_terminal(),
            None => false,
        };
        if pending {
            self.set_status(job_id, JobStatus::Failed(words));
        }
    }

    /// Sets the status of a job that is there.
    fn set_status(&mut self, job_id: u128, status: JobStatus)
        requires
            old(self).wf(),
        ensures
            final(self).wf(),
            final(self)@ == (SinkView {
                jobs: if old(self)@.jobs.contains_key(job_id) {
                    old(self)@.jobs.insert(
                        job_id,
                        JobRecord { status: status@, ..old(self)@.jobs[job_id] },
                    )
                } else {
                    old(self)@.jobs
                },
                ..old(self)@
            }),
    {
        let ghost before = self@;
        match self.jobs.remove(&job_id) {
            Some(mut job) => {
                job.status = status;
                let ghost record = job@;
                self.jobs.insert(job_id, job);
                assert(self@.jobs =~= before.jobs.insert(job_id, record));
            },
            None => {
                assert(self@.jobs =~= before.jobs);
            },
        }
    }

    /// Takes the answer of a worker in.
    pub fn handle_ack(&mut self, msg: AckMessage) -> (effect: AckEffect)
        requires
            old(self).wf(),
        ensures
            final(self).wf(),
            outcomes::placed(old(self)@) ==> outcomes::placed(final(self)@),
            acked(old(self)@, msg@, final(self)@, effect),
    {
        match msg {
            AckMessage::WorkerReady { worker_id } => AckEffect {
                release: Vec::new(),
                cancel: None,
            },
            AckMessage::ChunkAck { job_id, chunk_index } => {
                let release = self.release_lease(job_id, chunk_index);
                AckEffect { release, cancel: None }
            },
            AckMessage::ChunkFailed { job_id, chunk_index, error } => {
                let release = self.release_lease(job_id, chunk_index);
                let cancel = match self.jobs.get(&job_id) {
                    Some(job) => Some((job.worker_id, ControlMessage::Cancel { job_id })),
                    None => None,
                };
                let mut words = String::from_str("chunk ");
                text::push_dec(&mut words, chunk_index as u64);
                words.append(" failed: ");
                words.append(error.as_str());
                self.mark_failed(job_id, words);
                AckEffect { release, cancel }
            },
            AckMessage::CancelAck { job_id } => {
                let release = self.outstanding.take_job(job_id);
                let pending: bool = match self.jobs.get(&job_id) {
                    Some(job) => !job.status.is_terminal(),
                    None => false,
                };
                if pending {
                    self.set_status(job_id, JobStatus::Cancelled);
                }
                AckEffect { release, cancel: None }
            },
            AckMessage::JobComplete { job_id, success, path, error } => {
                let status = if success {
                    JobStatus::Succeeded
                } else {
                    JobStatus::Failed(error)
                };
                self.set_status(job_id, status);
                AckEffect { release: Vec::new(), cancel: None }
            },
        }
    }

    /// Takes the lease of a chunk out of those that are kept.
    fn release_lease(&mut self, job_id: u128, chunk_index: u32) -> (r: Vec<Lease>)
        requires
            old(self).wf(),
        ensures
            final(self).wf(),
            final(self)@ == (SinkView {
                outstanding: old(self)@.outstanding.remove((job_id, chunk_index)),
                ..old(self)@
            }),
            releases_one(r@, old(self)@.outstanding, (job_id, chunk_index)),
    {
        let mut r: Vec<Lease> = Vec::new();
        if let Some(lease) = self.outstanding.take(job_id, chunk_index) {
            r.push(lease);
            assert(r@ =~= seq![lease]);
        }
        r
    }

    /// Takes in what the ack channel gave: an answer, or nothing more.
    pub fn drain_ack(&mut self, received: core::result::Result<Vec<u8>, TesseraChannelError>) -> (r:
        Result<Option<AckEffect>>)
        requires
            old(self).wf(),
        ensures
            final(self).wf(),
            outcomes::placed(old(self)@) ==> outcomes::placed(final(self)@),
            match received {
                Ok(b) => match messages::ack_decoded(b@) {
                    Ok(m) => r matches Ok(Some(effect)) && acked(
                        old(self)@,
                        m,
                        final(self)@,
                        effect,
                    ),
                    Err(words) => {
                        &&& r matches Err(e) && error::is_protocol(e, words)
                        &&& final(self)@ == old(self)@
                    },
                },
                Err(TesseraChannelError::ChannelEmpty { .. }) => r == Ok::<
                    Option<AckEffect>,
                    TesseraSinkError,
                >(None) && final(self)@ == old(self)@,
                Err(e) => r == Err::<Option<AckEffect>, TesseraSinkError>(
                    TesseraSinkError::Channel(e),
                ) && final(self)@ == old(self)@,
            },
            outcomes::drained(old(self)@, received, r, final(self)@),
    {
        match received {
            Ok(b) => {
                match AckMessage::decode(b.as_slice()) {
                    Ok(m) => Ok(Some(self.handle_ack(m))),
                    Err(e) => Err(e),
                }
            },
            Err(TesseraChannelError::ChannelEmpty { head }) => Ok(None),
            Err(e) => Err(TesseraSinkError::Channel(e)),
        }
    }

    /// The leases to renew, once half of their time has passed since they
    /// were last.
    pub fn maybe_renew(&self, elapsed_micros: u64) -> (r: Option<Vec<Lease>>)
        requires
            self.wf(),
        ensures
            if elapsed_micros < self@.config.ttl_micros / 2 {
                r is None
            } else {
                r matches Some(list) && leases::lists_all(list@, self@.outstanding)
            },
            outcomes::renews(self@, elapsed_micros, match r {
                Some(list) => Some(list@),
                None => None,
            }),
    {
        if elapsed_micros < self.config.ttl_micros / 2 {
            return None;
        }
        Some(self.outstanding.leases())
    }

    /// A worker has ended: the jobs that wait for it have failed, and their
    /// leases are to be released.
    pub fn worker_exited(&mut self, worker_id: u32, status: &str) -> (r: Vec<Lease>)
        requires
            old(self).wf(),
        ensures
            final(self).wf(),
            outcomes::placed(old(self)@) ==> outcomes::placed(final(self)@),
            outcomes::exited(old(self)@, worker_id, status@, final(self)@, r@),
            final(self)@ == (SinkView {
                outstanding: leases_after_exit(
                    old(self)@.outstanding,
                    old(self)@.jobs,
                    worker_id,
                ),
                jobs: jobs_after_exit(
                    old(self)@.jobs,
                    worker_id,
                    exited_words(worker_id, status@),
                ),
                ..old(self)@
            }),
            leases::lists_all(
                r@,
                leases_of_exit(old(self)@.outstanding, old(self)@.jobs, worker_id),
            ),
    {
        let ghost before = self@;
        let ghost words = exited_words(worker_id, status@);
        let ids = job_ids(&self.jobs);
        let mut out: Vec<Lease> = Vec::new();
        let ghost mut keys: Seq<(u128, u32)> = Seq::empty();
        let mut i: usize = 0;
        assert(before.jobs.dom() =~= self.jobs@.dom());
        proof {
            lemma_exit_begins(before, ids@, worker_id, words);
        }
        while i < ids.len()
            invariant
                self.wf(),
                before == old(self)@,
                words == exited_words(worker_id, status@),
                i <= ids@.len(),
                ids@.no_duplicates(),
                forall|k: u128| #[trigger] before.jobs.contains_key(k) <==> ids@.contains(k),
                self@ == exit_so_far(before, ids@, i as int, worker_id, words),
                leases::lists_leases(
                    out@,
                    keys,
                    gone_so_far(before, ids@, i as int, worker_id),
                ),
            decreases ids@.len() - i,
        {
            let id: u128 = ids[i];
            assert(ids@.contains(id));
            let ghost now = self@;
            proof {
                lemma_not_seen_yet(before, ids@, i as int, worker_id, words);
                assert(before.jobs.contains_key(id));
                assert(now.jobs.contains_key(id) && now.jobs[id] == before.jobs[id]);
            }
            let waiting: bool = match self.jobs.get(&id) {
                Some(job) => job.worker_id == worker_id && !job.status.is_terminal(),
                None => false,
            };
            assert(waiting == waits_for(now.jobs[id], worker_id));
            if waiting {
                let mut more = self.outstanding.take_job(id);
                let mut message = String::from_str("worker ");
                text::push_dec(&mut message, worker_id as u64);
                message.append(" exited: ");
                message.append(status);
                self.mark_failed(id, message);
                proof {
                    let ks = choose|ks: Seq<(u128, u32)>|
                        leases::lists_leases(
                            more@,
                            ks,
                            leases::of_job(now.outstanding, id),
                        );
                    lemma_exit_one(before, ids@, i as int, worker_id, words, out@, keys, more@, ks);
                    keys = keys + ks;
                }
                out.append(&mut more);
            } else {
                proof {
                    lemma_exit_none(before, ids@, i as int, worker_id, words);
                }
            }
            i = i + 1;
        }
        proof {
            lemma_exit_ends(before, ids@, worker_id, words);
        }
        out
    }

    /// Whether all jobs have ended, and how. `Ok(false)` says that some have
    /// not; otherwise the jobs are forgotten, and the failure of one of
    /// them is told if any failed.
    pub fn flush(&mut self) -> (r: Result<bool>)
        requires
            old(self).wf(),
        ensures
            final(self).wf(),
            outcomes::placed(old(self)@) ==> outcomes::placed(final(self)@),
            outcomes::flushed(old(self)@, r, final(self)@),
            if old(self)@.closed {
                r == Err::<bool, TesseraSinkError>(TesseraSinkError::Closed) && final(self)@
                    == old(self)@
            } else if !all_ended(old(self)@.jobs) {
                r == Ok::<bool, TesseraSinkError>(false) && final(self)@ == old(self)@
            } else {
                &&& final(self)@ == (SinkView { jobs: Map::empty(), ..old(self)@ })
                &&& match r {
                    Ok(done) => done && forall|k: u128|
                        #[trigger] old(self)@.jobs.contains_key(k) ==> failure(
                            old(self)@.jobs[k].status,
                        ) is None,
                    Err(e) => exists|k: u128| #[trigger] tells_failure(old(self)@.jobs, k, e),
                }
            },
    {
        if self.closed {
            return Err(TesseraSinkError::Closed);
        }
        let ghost before = self@;
        let ids = job_ids(&self.jobs);
        let mut found: Option<TesseraSinkError> = None;
        let mut i: usize = 0;
        assert(before.jobs.dom() =~= self.jobs@.dom());
        while i < ids.len()
            invariant
                self.wf(),
                before == old(self)@,
                self@ == before,
                !before.closed,
                i <= ids@.len(),
                forall|k: u128| #[trigger] before.jobs.contains_key(k) <==> ids@.contains(k),
                forall|j: int|
                    0 <= j < i ==> !((#[trigger] before.jobs[ids@[j]]).status is Pending),
                match found {
                    Some(e) => exists|k: u128| #[trigger] tells_failure(before.jobs, k, e),
                    None => forall|j: int|
                        0 <= j < i ==> failure((#[trigger] before.jobs[ids@[j]]).status) is None,
                },
            decreases ids@.len() - i,
        {
            let id: u128 = ids[i];
            assert(ids@.contains(id));
            assert(before.jobs.contains_key(id));
            if let Some(job) = self.jobs.get(&id) {
                let message = match &job.status {
                    JobStatus::Pending => {
                        assert(before.jobs[id].status is Pending);
                        return Ok(false);
                    },
                    JobStatus::Succeeded => None,
                    JobStatus::Failed(m) => Some(String::from_str(m.as_str())),
                    JobStatus::Cancelled => Some(String::from_str("job cancelled")),
                };
                if let Some(message) = message {
                    let e = TesseraSinkError::JobFailed {
                        job_id: job_id_hex(id),
                        path: String::from_str(job.path.as_str()),
                        message,
                    };
                    assert(tells_failure(before.jobs, id, e));
                    if found.is_none() {
                        found = Some(e);
                    }
                }
            }
            i = i + 1;
        }
        proof {
            assert forall|k: u128| #[trigger] before.jobs.contains_key(k) implies !(
            before.jobs[k].status is Pending) && (found is None ==> failure(
                before.jobs[k].status,
            ) is None) by {
                assert(ids@.contains(k));
                let j = choose|j: int| 0 <= j < ids@.len() && ids@[j] == k;
                assert(before.jobs[ids@[j]] == before.jobs[k]);
            }
        }
        self.jobs = HashMap::new();
        assert(self@.jobs =~= Map::<u128, JobRecord>::empty());
        match found {
            Some(e) => Err(e),
            None => Ok(true),
        }
    }

    /// What to do with an attempt to lease a pool slot while answers are
    /// taken in: the lease, or `None` to try again.
    pub fn judge_acquire(
        &self,
        acquired: core::result::Result<Lease, TesseraPoolError>,
        deadline_reached: bool,
    ) -> (r: Result<Option<Lease>>)
        ensures
            match acquired {
                Ok(lease) => r == Ok::<Option<Lease>, TesseraSinkError>(Some(lease)),
                Err(TesseraPoolError::Timeout { .. }) => if deadline_reached {
                    r matches Err(e) && error::is_timeout(
                        e,
                        self@.config.acquire_timeout_micros,
                        "acquiring a pool slot (all slots in flight)"@,
                    )
                } else {
                    r == Ok::<Option<Lease>, TesseraSinkError>(None)
                },
                Err(e) => r == Err::<Option<Lease>, TesseraSinkError>(TesseraSinkError::Pool(e)),
            },
            outcomes::acquires(self@, acquired, deadline_reached, r),
    {
        match acquired {
            Ok(lease) => Ok(Some(lease)),
            Err(TesseraPoolError::Timeout { timeout_micros }) => {
                if deadline_reached {
                    Err(
                        TesseraSinkError::Timeout {
                            timeout_micros: self.config.acquire_timeout_micros,
                            context: String::from_str(
                                "acquiring a pool slot (all slots in flight)",
                            ),
                        },
                    )
                } else {
                    Ok(None)
                }
            },
            Err(e) => Err(TesseraSinkError::Pool(e)),
        }
    }
}

/// The worker has a control channel: there is one for each index below
/// `controls`.
pub fn check_control(worker_id: u32, controls: usize) -> (r: Result<()>)
    ensures
        if worker_id < controls {
            r is Ok
        } else {
            r matches Err(e) && error::is_config(
                e,
                "no control channel for worker "@ + text::dec(worker_id as nat),
            )
        },
{
    if (worker_id as u64) < (controls as u64) {
        return Ok(());
    }
    let mut words = String::from_str("no control channel for worker ");
    text::push_dec(&mut words, worker_id as u64);
    Err(TesseraSinkError::Config(words))
}

/// The failure of a send to a worker. One that timed out means that the
/// worker no longer receives.
pub fn control_send_failure(worker_id: u32, e: TesseraChannelError) -> (r: TesseraSinkError)
    ensures
        match e {
            TesseraChannelError::Timeout { .. } => error::is_timeout(
                r,
                CONTROL_SEND_TIMEOUT_MICROS,
                "control send to worker "@ + text::dec(worker_id as nat) + " (not draining)"@,
            ),
            _ => r == TesseraSinkError::Channel(e),
        },
{
    match e {
        TesseraChannelError::Timeout { timeout_micros, head, tail } => {
            let mut context = String::from_str("control send to worker ");
            text::push_dec(&mut context, worker_id as u64);
            context.append(" (not draining)");
            TesseraSinkError::Timeout { timeout_micros: CONTROL_SEND_TIMEOUT_MICROS, context }
        },
        e => TesseraSinkError::Channel(e),
    }
}

/// What looking at a worker process showed.
#[derive(Clone, Copy, Debug, PartialEq, Eq)]
pub enum ProcessState {
    /// It has ended.
    Exited,
    /// It is running.
    Running,
    /// Nothing can be said of it.
    Unknown,
}

/// What a closing owner does about a worker.
#[derive(Clone, Copy, Debug, PartialEq, Eq)]
pub enum ExitStep {
    /// No more.
    Done,
    /// Look again a little later.
    Wait,
    /// End it, and wait for that.
    Kill,
}

/// What a closing owner does about a worker. One that is still running when
/// its time is over is ended.
pub fn judge_exit(state: ProcessState, deadline_reached: bool) -> (r: ExitStep)
    ensures
        r == match state {
            ProcessState::Running => if deadline_reached {
                ExitStep::Kill
            } else {
                ExitStep::Wait
            },
            _ => ExitStep::Done,
        },
        outcomes::ends(state, deadline_reached, r),
{
    match state {
        ProcessState::Running => {
            if deadline_reached {
                ExitStep::Kill
            } else {
                ExitStep::Wait
            }
        },
        _ => ExitStep::Done,
    }
}

/// A job identifier for where random bytes cannot be had: the high half
/// counts up, so that no two of one process are the same; the low half has
/// process and time mixed into it.
pub open spec fn fallback_job_id_of(counter: u64, pid: u32, nanos: u64) -> u128 {
    (counter * 0x1_0000_0000_0000_0000 + pid * 0x1_0000_0000 + nanos % 0x1_0000_0000) as u128
}

/// A job identifier for where random bytes cannot be had.
pub fn fallback_job_id(counter: u64, pid: u32, nanos: u64) -> (r: u128)
    ensures
        r == fallback_job_id_of(counter, pid, nanos),
        r == counter * 0x1_0000_0000_0000_0000 + pid * 0x1_0000_0000 + nanos % 0x1_0000_0000,
{
    counter as u128 * 0x1_0000_0000_0000_0000 + pid as u128 * 0x1_0000_0000 + (nanos
        % 0x1_0000_0000) as u128
}

/// The job identifier that 16 random bytes spell.
pub fn random_job_id(b: [u8; 16]) -> (r: u128)
    ensures
        r == crate::bytes::le_value(b@),
{
    let mut reader = Reader::new(b.as_slice());
    let r: u128 = match reader.get_u128() {
        Ok(v) => v,
        Err(_) => 0,
    };
    proof {
        assert(crate::bytes::range(b@, 0, 16) =~= b@);
        crate::bytes::lemma_pow256();
        crate::bytes::lemma_le_bytes_of_value(b@);
    }
    r
}

/// Identifiers made without random bytes differ within a process: the
/// counter is in each.
pub proof fn law_fallback_job_ids_differ(
    a: u64,
    b: u64,
    pid: u32,
    nanos_a: u64,
    nanos_b: u64,
)
    requires
        a != b,
    ensures
        fallback_job_id_of(a, pid, nanos_a) != fallback_job_id_of(b, pid, nanos_b),
{
    let x = pid * 0x1_0000_0000 + nanos_a % 0x1_0000_0000;
    let y = pid * 0x1_0000_0000 + nanos_b % 0x1_0000_0000;
    assert(0 <= x < 0x1_0000_0000_0000_0000);
    assert(0 <= y < 0x1_0000_0000_0000_0000);
    assert(fallback_job_id_of(a, pid, nanos_a) == a * 0x1_0000_0000_0000_0000 + x);
    assert(fallback_job_id_of(b, pid, nanos_b) == b * 0x1_0000_0000_0000_0000 + y);
}

} // verus!
