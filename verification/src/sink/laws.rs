//! What holds of a sink as a whole.
use vstd::prelude::*;

use vstd::utf8;

use crate::channel::channel;
use crate::channel::channel::{ChannelView, Wait};
use crate::channel::region::QueueView;
use crate::channel::{ChannelRole, TesseraChannelError};
use crate::digest;
use crate::pool::{Descriptor, Lease};
use crate::sink::config::MIN_CONTROL_ACK_SLOT_BYTES;
use crate::sink::leases;
use crate::sink::messages;
use crate::sink::messages::{AckView, ControlView};
use crate::sink::paths;
use crate::sink::sink;
use crate::sink::sink::{AckEffect, SinkView, StatusView, SubmissionView};
use crate::sink::worker;
use crate::sink::worker::{JobView, WorkerStep};

verus! {

/// What was streamed after the first `k` chunks of a payload.
pub open spec fn streamed(payload: Seq<u8>, slot: int, k: int) -> Seq<u8>
    decreases k,
{
    if k <= 0 {
        Seq::empty()
    } else {
        streamed(payload, slot, k - 1) + sink::chunk_at(payload, slot, k - 1)
    }
}

/// Every chunk fits a pool slot, and all but the last fill one. Even an
/// empty payload has one chunk.
pub proof fn law_chunks_fit_slots(payload: Seq<u8>, slot: int, i: int)
    requires
        slot > 0,
        0 <= i < sink::chunk_total(payload.len() as int, slot),
    ensures
        sink::chunk_at(payload, slot, i).len() <= slot,
        i + 1 < sink::chunk_total(payload.len() as int, slot) ==> sink::chunk_at(
            payload,
            slot,
            i,
        ).len() == slot,
        sink::chunk_total(payload.len() as int, slot) >= 1,
{
    sink::lemma_chunk_bounds(payload.len() as int, slot, i);
}

/// The chunks of a payload, put together in order, are the payload.
pub proof fn law_chunks_reassemble(payload: Seq<u8>, slot: int)
    requires
        slot > 0,
    ensures
        streamed(payload, slot, sink::chunk_total(payload.len() as int, slot)) == payload,
{
    let len = payload.len() as int;
    let t = sink::chunk_total(len, slot);
    if len > 0 {
        sink::lemma_chunk_total(len, slot);
    }
    lemma_streamed(payload, slot, t - 1);
    sink::lemma_chunk_bounds(len, slot, t - 1);
    assert(streamed(payload, slot, t) =~= payload);
}

/// Before the last chunk, whole slots were streamed.
proof fn lemma_streamed(payload: Seq<u8>, slot: int, k: int)
    requires
        slot > 0,
        0 <= k < sink::chunk_total(payload.len() as int, slot),
    ensures
        0 <= k * slot <= payload.len(),
        streamed(payload, slot, k) == payload.take(k * slot),
    decreases k,
{
    let len = payload.len() as int;
    sink::lemma_chunk_bounds(len, slot, k);
    if k == 0 {
        assert(k * slot == 0);
        assert(streamed(payload, slot, 0) =~= payload.take(0));
    } else {
        lemma_streamed(payload, slot, k - 1);
        sink::lemma_chunk_bounds(len, slot, k - 1);
        assert(streamed(payload, slot, k) =~= payload.take(k * slot));
    }
}

/// A worker's jobs after it took the first `k` chunks of a payload, one
/// after another.
pub open spec fn received(
    jobs: Map<u128, JobView>,
    path: Seq<char>,
    job_id: u128,
    payload: Seq<u8>,
    slot: int,
    k: int,
) -> Map<u128, JobView>
    decreases k,
{
    if k <= 0 {
        jobs
    } else {
        let so_far = received(jobs, path, job_id, payload, slot, k - 1);
        let j = if k == 1 {
            worker::begun(path, paths::temp_path(path, job_id))
        } else {
            so_far[job_id]
        };
        so_far.insert(job_id, worker::with_chunk(j, sink::chunk_at(payload, slot, k - 1)))
    }
}

/// After `k` chunks a worker has the job with what they hold.
proof fn lemma_received(
    jobs: Map<u128, JobView>,
    path: Seq<char>,
    job_id: u128,
    payload: Seq<u8>,
    slot: int,
    k: int,
)
    requires
        slot > 0,
        !jobs.contains_key(job_id),
        0 < k <= sink::chunk_total(payload.len() as int, slot) <= u32::MAX,
    ensures
        received(jobs, path, job_id, payload, slot, k) == jobs.insert(
            job_id,
            JobView {
                final_path: path,
                temp_path: paths::temp_path(path, job_id),
                streamed: streamed(payload, slot, k),
                next_chunk_index: k as u32,
            },
        ),
    decreases k,
{
    if k > 1 {
        lemma_received(jobs, path, job_id, payload, slot, k - 1);
    } else {
        reveal_with_fuel(received, 2);
        reveal_with_fuel(streamed, 2);
    }
    let all = received(jobs, path, job_id, payload, slot, k);
    assert(all[job_id].streamed =~= streamed(payload, slot, k));
    assert(all =~= jobs.insert(job_id, all[job_id]));
}

/// The step is to rename the temporary file to its target.
pub open spec fn finishes(
    step: WorkerStep,
    fsync: bool,
    from: Seq<char>,
    to: Seq<char>,
) -> bool {
    step matches WorkerStep::FinishFile { sync, temp_path, final_path } && sync == fsync
        && temp_path@ == from && final_path@ == to
}

/// A worker takes the chunks that the owner of a sink sends for a payload,
/// each as the one it expects; then the whole payload is in the temporary
/// file, and on the owner's commit the worker renames that file to the
/// target of the job, which is over with that. Other jobs are untouched.
pub proof fn law_a_submitted_payload_is_committed(
    jobs: Map<u128, JobView>,
    s: SubmissionView,
    payload: Seq<u8>,
    k: int,
    step: WorkerStep,
)
    requires
        s.ok(),
        s.len == payload.len(),
        s.expected_hash == digest::blake3_digest(payload),
        !jobs.contains_key(s.job_id),
        paths::file_name(s.path) is Some,
        0 <= k < sink::chunk_total(s.len, s.slot) <= u32::MAX,
    ensures
        ({
            let total = sink::chunk_total(s.len, s.slot);
            let before = received(jobs, s.path, s.job_id, payload, s.slot, k);
            let last = received(jobs, s.path, s.job_id, payload, s.slot, total);
            &&& worker::takes(before, s.job_id, s.path, k as u32)
            &&& last.contains_key(s.job_id)
            &&& last[s.job_id].streamed == payload
            &&& last.remove(s.job_id) == jobs
            &&& s.commit() matches ControlView::Commit {
                job_id,
                path,
                chunk_count,
                expected_hash,
                fsync,
            } && (worker::commit_step(last, job_id, path, chunk_count, expected_hash, fsync, step)
                <==> finishes(step, s.fsync, paths::temp_path(s.path, s.job_id), s.path))
        }),
{
    let total = sink::chunk_total(s.len, s.slot);
    if k > 0 {
        lemma_received(jobs, s.path, s.job_id, payload, s.slot, k);
    }
    if s.len > 0 {
        sink::lemma_chunk_total(s.len, s.slot);
    }
    lemma_received(jobs, s.path, s.job_id, payload, s.slot, total);
    law_chunks_reassemble(payload, s.slot);
    let last = received(jobs, s.path, s.job_id, payload, s.slot, total);
    assert(last.remove(s.job_id) =~= jobs);
}

/// A job that was dropped, as a failed chunk or a cancel does, is not taken
/// up in the middle, and a commit of it is answered as a failure without
/// any file being renamed.
pub proof fn law_a_dropped_job_is_not_committed(
    jobs: Map<u128, JobView>,
    job_id: u128,
    path: Seq<char>,
    chunk_index: u32,
    chunk_count: u32,
    expected_hash: Seq<u8>,
    fsync: bool,
    step: WorkerStep,
)
    requires
        worker::commit_step(
            jobs.remove(job_id),
            job_id,
            path,
            chunk_count,
            expected_hash,
            fsync,
            step,
        ),
    ensures
        chunk_index > 0 ==> !worker::takes(jobs.remove(job_id), job_id, path, chunk_index),
        worker::answers(
            step,
            None,
            AckView::JobComplete {
                job_id,
                success: false,
                path,
                error: worker::no_chunks_words(job_id, path),
            },
        ),
{
}

/// A file is put in place only if as many chunks came as were declared and
/// the digest of all that was streamed is the declared one.
pub proof fn law_only_what_was_declared_is_committed(
    j: JobView,
    job_id: u128,
    chunk_count: u32,
    expected_hash: Seq<u8>,
)
    ensures
        worker::commit_refusal(j, job_id, chunk_count, expected_hash) is None <==> {
            &&& j.next_chunk_index == chunk_count
            &&& digest::blake3_digest(j.streamed) == expected_hash
        },
{
}

/// The lease is among those that `before` has and `after` has not.
pub open spec fn taken(
    before: Map<(u128, u32), Lease>,
    after: Map<(u128, u32), Lease>,
    lease: Lease,
) -> bool {
    exists|k: (u128, u32)|
        #[trigger] before.contains_key(k) && !after.contains_key(k) && before[k] == lease
}

/// No lease is lost: what an answer takes out of the
/// leases that are kept is exactly what it says to release.
pub proof fn law_acks_release_what_they_take(
    before: SinkView,
    msg: AckView,
    after: SinkView,
    effect: AckEffect,
)
    requires
        sink::acked(before, msg, after, effect),
    ensures
        forall|k: (u128, u32)|
            #[trigger] before.outstanding.contains_key(k) && !after.outstanding.contains_key(k)
                ==> effect.release@.contains(before.outstanding[k]),
        forall|i: int|
            0 <= i < effect.release@.len() ==> taken(
                before.outstanding,
                after.outstanding,
                #[trigger] effect.release@[i],
            ),
        forall|k: (u128, u32)|
            #[trigger] after.outstanding.contains_key(k) ==> before.outstanding.contains_key(k)
                && after.outstanding[k] == before.outstanding[k],
{
    let r = effect.release@;
    match msg {
        AckView::ChunkAck { job_id, chunk_index } => {
            lemma_one_released(before, after, r, (job_id, chunk_index));
        },
        AckView::ChunkFailed { job_id, chunk_index, error } => {
            lemma_one_released(before, after, r, (job_id, chunk_index));
        },
        AckView::CancelAck { job_id } => {
            let m = leases::of_job(before.outstanding, job_id);
            let keys = choose|keys: Seq<(u128, u32)>| leases::lists_leases(r, keys, m);
            assert forall|k: (u128, u32)|
                #[trigger] before.outstanding.contains_key(k) && !after.outstanding.contains_key(
                    k,
                ) implies r.contains(before.outstanding[k]) by {
                assert(m.contains_key(k));
                assert(keys.contains(k));
                let i = choose|i: int| 0 <= i < keys.len() && keys[i] == k;
                assert(r[i] == m[keys[i]]);
            }
            assert forall|i: int| 0 <= i < r.len() implies taken(
                before.outstanding,
                after.outstanding,
                #[trigger] r[i],
            ) by {
                let k = keys[i];
                assert(keys.contains(k));
                assert(m.contains_key(k));
                assert(before.outstanding.contains_key(k));
            }
        },
        _ => {},
    }
}

proof fn lemma_one_released(before: SinkView, after: SinkView, r: Seq<Lease>, k: (u128, u32))
    requires
        after.outstanding == before.outstanding.remove(k),
        sink::releases_one(r, before.outstanding, k),
    ensures
        forall|q: (u128, u32)|
            #[trigger] before.outstanding.contains_key(q) && !after.outstanding.contains_key(q)
                ==> r.contains(before.outstanding[q]),
        forall|i: int|
            0 <= i < r.len() ==> taken(before.outstanding, after.outstanding, #[trigger] r[i]),
{
    if before.outstanding.contains_key(k) {
        assert(r[0] == before.outstanding[k]);
        assert(r.contains(before.outstanding[k]));
    }
}

/// Once a job is dropped or complete on the owner's side, only the worker's
/// final word on the job itself changes that: no other answer does.
pub proof fn law_ended_jobs_stay_ended(
    before: SinkView,
    msg: AckView,
    after: SinkView,
    effect: AckEffect,
    job_id: u128,
)
    requires
        sink::acked(before, msg, after, effect),
        before.jobs.contains_key(job_id),
        !(before.jobs[job_id].status is Pending),
    ensures
        after.jobs.contains_key(job_id),
        after.jobs[job_id].status == before.jobs[job_id].status || (msg matches AckView::JobComplete {
            job_id: id,
            success,
            path,
            error,
        } && id == job_id && after.jobs[job_id].status == if success {
            StatusView::Succeeded
        } else {
            StatusView::Failed(error)
        }),
{
}

/// No answer is refused for its length: for whatever a worker answers, to
/// whatever message, the ack channel takes the fitted answer, or has no room
/// for another message yet. Only an owner that does not drain the channel
/// for as long as the send is tried makes the send fail.
pub proof fn law_every_answer_can_be_sent(
    c: ChannelView,
    q: QueueView,
    ack: AckView,
    timestamp: u64,
    timeout_micros: u64,
    deadline_reached: bool,
    r: core::result::Result<bool, TesseraChannelError>,
    after: QueueView,
)
    requires
        c.role == ChannelRole::Sender,
        c.region.slot_size_bytes >= MIN_CONTROL_ACK_SLOT_BYTES,
        channel::send_contract(
            c,
            q,
            ack.fitted(c.region.slot_size_bytes).bytes(),
            timestamp,
            Wait::Micros(timeout_micros),
            deadline_reached,
            r,
            after,
        ),
    ensures
        channel::send_refusal(
            c,
            ack.fitted(c.region.slot_size_bytes).bytes().len(),
        ) is None,
        !channel::queue_is_full(q, c.region.slot_count) ==> r == Ok::<bool, TesseraChannelError>(
            true,
        ),
        match r {
            Ok(sent) => sent == !channel::queue_is_full(q, c.region.slot_count),
            Err(e) => e is Timeout && deadline_reached && channel::queue_is_full(
                q,
                c.region.slot_count,
            ),
        },
{
    messages::law_fitted_answers_fit(ack, c.region.slot_size_bytes);
}

/// What a send of a message this long to a worker with room comes to: the
/// message is in the queue, or it was refused for its length and the queue
/// is as it was.
pub open spec fn sent_or_oversized(
    c: ChannelView,
    q: QueueView,
    message: Seq<u8>,
    timestamp: u64,
    r: core::result::Result<bool, TesseraChannelError>,
    after: QueueView,
) -> bool {
    if message.len() > c.region.slot_size_bytes {
        &&& r == Err::<bool, TesseraChannelError>(
            TesseraChannelError::OversizedPayload {
                payload_size: message.len() as usize,
                slot_size: c.region.slot_size_bytes as usize,
            },
        )
        &&& after == q
    } else {
        &&& r == Ok::<bool, TesseraChannelError>(true)
        &&& after == channel::after_send(q, c.region.slot_count, message, timestamp)
    }
}

/// A path that is too long for the slots of the control channels is refused
/// while its job is submitted: a path of up to 58 bytes less than a slot
/// gets through with all its messages; the commit of one that is a byte
/// longer is refused, and of any longer path the first chunk, each with the
/// length that did not fit.
pub proof fn law_a_path_beyond_the_slot_is_refused(
    c: ChannelView,
    q: QueueView,
    s: SubmissionView,
    chunk_index: u32,
    d: Descriptor,
    timestamp: u64,
    timeout_micros: u64,
    deadline_reached: bool,
    chunk: core::result::Result<bool, TesseraChannelError>,
    after_chunk: QueueView,
    commit: core::result::Result<bool, TesseraChannelError>,
    after_commit: QueueView,
)
    requires
        c.role == ChannelRole::Sender,
        !channel::queue_is_full(q, c.region.slot_count),
        s.expected_hash.len() == 32,
        channel::send_contract(
            c,
            q,
            sink::chunk_message(s, chunk_index, d).bytes(),
            timestamp,
            Wait::Micros(timeout_micros),
            deadline_reached,
            chunk,
            after_chunk,
        ),
        channel::send_contract(
            c,
            q,
            s.commit().bytes(),
            timestamp,
            Wait::Micros(timeout_micros),
            deadline_reached,
            commit,
            after_commit,
        ),
    ensures
        ({
            let len = utf8::encode_utf8(s.path).len();
            let slot = c.region.slot_size_bytes;
            &&& chunk is Ok <==> sink::CHUNK_DESCRIPTOR_FIXED_BYTES + len <= slot
            &&& commit is Ok <==> sink::COMMIT_FIXED_BYTES + len <= slot
            &&& sent_or_oversized(
                c,
                q,
                sink::chunk_message(s, chunk_index, d).bytes(),
                timestamp,
                chunk,
                after_chunk,
            )
            &&& sent_or_oversized(c, q, s.commit().bytes(), timestamp, commit, after_commit)
            &&& sink::chunk_message(s, chunk_index, d).bytes().len()
                == sink::CHUNK_DESCRIPTOR_FIXED_BYTES + len
            &&& s.commit().bytes().len() == sink::COMMIT_FIXED_BYTES + len
        }),
{
    sink::lemma_job_message_lengths(s, chunk_index, d);
}

} // verus!
