//! How a worker treats the jobs that it is given, and how the workers of a
//! sink are brought up.
use vstd::prelude::*;

use crate::channel::{ChannelRole, TesseraChannelError};
use crate::digest;
use crate::sink::config;
use crate::sink::config::SinkConfig;
use crate::sink::error::TesseraSinkError;
use crate::sink::messages;
use crate::sink::messages::{AckView, ControlView};
use crate::sink::run;
use crate::sink::run::{RunEvent, RunPhase, RunStep, RunView};
use crate::sink::startup;
use crate::sink::startup::{Phase, StartEvent, StartupView};
use crate::sink::worker;
use crate::sink::worker::{JobView, WorkerStep};

verus! {

/// The step is to put the file in place: this temporary file, under this
/// name, synced or not.
pub open spec fn puts_in_place(
    step: WorkerStep,
    temp_path: Seq<char>,
    final_path: Seq<char>,
    sync: bool,
) -> bool {
    step matches WorkerStep::FinishFile { sync: s, temp_path: t, final_path: f } && s == sync && t@
        == temp_path && f@ == final_path
}

/// The step is to tell the owner that the job failed.
pub open spec fn tells_failure(step: WorkerStep, job_id: u128, path: Seq<char>) -> bool {
    step matches WorkerStep::Answer { remove, ack } && (ack@ matches AckView::JobComplete {
        job_id: j,
        success,
        path: p,
        error,
    } && j == job_id && !success && p == path)
}

/// The step removes this file.
pub open spec fn removes(step: WorkerStep, file: Seq<char>) -> bool {
    step matches WorkerStep::Answer { remove: Some(f), ack } && f@ == file
}

/// The step removes no file.
pub open spec fn removes_nothing(step: WorkerStep) -> bool {
    step matches WorkerStep::Answer { remove, ack } && remove is None
}

/// A commit puts a job's file in place, under the path that the job began
/// with, exactly if the job is there, has as many chunks as the commit says,
/// and all its bytes have the digest that the commit says. In every other
/// case the owner is told that the job failed, and the temporary file, if
/// there is one, is removed.
pub proof fn law_what_is_put_in_place(
    jobs: Map<u128, JobView>,
    job_id: u128,
    path: Seq<char>,
    chunk_count: u32,
    expected_hash: Seq<u8>,
    fsync: bool,
    step: WorkerStep,
)
    requires
        worker::commit_step(jobs, job_id, path, chunk_count, expected_hash, fsync, step),
    ensures
        ({
            let j = jobs[job_id];
            let whole = jobs.contains_key(job_id) && j.next_chunk_index == chunk_count
                && digest::blake3_digest(j.streamed) == expected_hash;
            &&& step is FinishFile <==> whole
            &&& whole ==> puts_in_place(step, j.temp_path, j.final_path, fsync)
            &&& !whole ==> tells_failure(step, job_id, path)
            &&& !whole && jobs.contains_key(job_id) ==> removes(step, j.temp_path)
            &&& !jobs.contains_key(job_id) ==> removes_nothing(step)
        }),
{
}

/// A chunk is taken exactly if it is the next one of a job that is there, or
/// the first one of a job whose path names a file.
pub proof fn law_chunks_come_in_order(
    jobs: Map<u128, JobView>,
    job_id: u128,
    path: Seq<char>,
    chunk_index: u32,
)
    ensures
        jobs.contains_key(job_id) ==> (worker::takes(jobs, job_id, path, chunk_index)
            <==> chunk_index == jobs[job_id].next_chunk_index),
        !jobs.contains_key(job_id) ==> (worker::takes(jobs, job_id, path, chunk_index)
            <==> chunk_index == 0 && crate::sink::paths::file_name(path) is Some),
{
}

/// A job begins with no bytes and expects chunk zero; each chunk adds its
/// bytes behind those that are there and is followed by the next index. The
/// paths of a job never change.
pub proof fn law_a_job_grows_by_its_chunks(
    path: Seq<char>,
    temp_path: Seq<char>,
    j: JobView,
    payload: Seq<u8>,
)
    requires
        j.next_chunk_index < u32::MAX,
    ensures
        ({
            let b = worker::begun(path, temp_path);
            &&& b.final_path == path && b.temp_path == temp_path
            &&& b.streamed.len() == 0 && b.next_chunk_index == 0
        }),
        ({
            let a = worker::with_chunk(j, payload);
            &&& a.next_chunk_index == j.next_chunk_index + 1
            &&& a.streamed.len() == j.streamed.len() + payload.len()
            &&& a.streamed.subrange(0, j.streamed.len() as int) == j.streamed
            &&& a.streamed.subrange(j.streamed.len() as int, a.streamed.len() as int) == payload
            &&& a.final_path == j.final_path && a.temp_path == j.temp_path
        }),
{
    let a = worker::with_chunk(j, payload);
    assert(a.streamed.subrange(0, j.streamed.len() as int) =~= j.streamed);
    assert(a.streamed.subrange(j.streamed.len() as int, a.streamed.len() as int) =~= payload);
}

/// A job that goes takes its temporary file with it, and there is nothing to
/// remove for one that is not there.
pub proof fn law_a_job_goes_with_its_file(
    jobs: Map<u128, JobView>,
    job_id: u128,
    step: WorkerStep,
    ack: AckView,
)
    requires
        worker::answers(step, worker::temp_of(jobs, job_id), ack),
    ensures
        jobs.contains_key(job_id) ==> removes(step, jobs[job_id].temp_path),
        !jobs.contains_key(job_id) ==> removes_nothing(step),
        step is Answer && step->ack@ == ack,
{
}

/// The file is the temporary file of a job.
pub open spec fn belongs_to_a_job(jobs: Map<u128, JobView>, file: Seq<char>) -> bool {
    exists|k: u128| #[trigger] jobs.contains_key(k) && jobs[k].temp_path == file
}

/// A worker that ends removes the temporary file of every job, and no other
/// file.
pub proof fn law_every_temporary_file_goes(
    files: Seq<String>,
    ids: Seq<u128>,
    jobs: Map<u128, JobView>,
)
    requires
        worker::lists_temp_files(files, ids, jobs),
    ensures
        forall|k: u128| #[trigger]
            jobs.contains_key(k) ==> exists|i: int|
                0 <= i < files.len() && (#[trigger] files[i])@ == jobs[k].temp_path,
        forall|i: int| 0 <= i < files.len() ==> belongs_to_a_job(jobs, (#[trigger] files[i])@),
        jobs.dom().finite() && files.len() == jobs.dom().len(),
{
    assert forall|k: u128| #[trigger] jobs.contains_key(k) implies exists|i: int|
        0 <= i < files.len() && (#[trigger] files[i])@ == jobs[k].temp_path by {
        let i = choose|i: int| 0 <= i < ids.len() && ids[i] == k;
        assert(files[i]@ == jobs[ids[i]].temp_path);
    }
    assert forall|i: int| 0 <= i < files.len() implies belongs_to_a_job(
        jobs,
        (#[trigger] files[i])@,
    ) by {
        assert(ids.contains(ids[i]));
        assert(files[i]@ == jobs[ids[i]].temp_path);
        assert(jobs.contains_key(ids[i]));
    }
    assert(jobs.dom() =~= ids.to_set());
    ids.unique_seq_to_set();
    vstd::seq_lib::seq_to_set_is_finite(ids);
}

/// A configuration is taken exactly if it has a description, at least one
/// worker, slots in the pool and in both channels, a time to live, and
/// channel slots of a multiple of eight bytes, 512 at least.
pub proof fn law_which_configurations_are_taken(c: SinkConfig)
    ensures
        config::refusal(c) is None <==> {
            &&& c.description@.len() > 0
            &&& c.worker_count > 0
            &&& c.pool_slot_count > 0 && c.pool_slot_size_bytes > 0
            &&& c.ttl_micros > 0
            &&& c.control_slot_count > 0 && c.ack_slot_count > 0
            &&& c.control_slot_size_bytes % 8 == 0 && c.ack_slot_size_bytes % 8 == 0
            &&& c.control_slot_size_bytes >= 512 && c.ack_slot_size_bytes >= 512
        },
{
}

/// The workers that have not said that they are ready.
pub open spec fn silent(ready: Seq<bool>) -> Set<int> {
    Set::new(|i: int| 0 <= i < ready.len() && !ready[i])
}

/// The count of missing workers is the number of those that have not said
/// that they are ready.
pub proof fn law_who_is_missing(ready: Seq<bool>)
    ensures
        silent(ready).finite(),
        startup::missing(ready) == silent(ready).len(),
    decreases ready.len(),
{
    if ready.len() == 0 {
        assert(silent(ready) =~= Set::empty());
    } else {
        let before = ready.drop_last();
        law_who_is_missing(before);
        if ready.last() {
            assert(silent(ready) =~= silent(before));
        } else {
            assert(silent(ready) =~= silent(before).insert(ready.len() - 1));
        }
    }
}

/// Workers are spawned one after another, each once; once the last one was,
/// all of them are waited for. A spawn that fails is a failure.
pub proof fn law_workers_are_spawned_in_turn(v: StartupView, next: u32, why: String)
    requires
        v.ok(),
        v.phase == Phase::Spawning(next),
    ensures
        v.after(StartEvent::Spawned) matches Some(w) && w.ready == v.ready && (if next + 1
            < v.ready.len() {
            w.phase == Phase::Spawning((next + 1) as u32)
        } else {
            w.phase == Phase::Waiting(v.ready.len() as u32)
        }),
        v.after(StartEvent::SpawnFailed(why)) is None,
{
}

/// While workers are waited for, the word of one that had not been heard
/// marks that worker as ready and no other, and only when none is missing
/// any more does the attaching begin. Any other answer changes nothing, and
/// what is no answer is a failure.
pub proof fn law_a_ready_word_counts_once(v: StartupView, remaining: u32, b: Vec<u8>)
    requires
        v.ok(),
        v.phase == Phase::Waiting(remaining),
    ensures
        messages::ack_decoded(b@) is Err <==> v.after(StartEvent::Acked(b)) is None,
        messages::ack_decoded(b@) matches Ok(m) ==> {
            let w = v.after(StartEvent::Acked(b))->0;
            &&& w.ready.len() == v.ready.len()
            &&& forall|i: int|
                0 <= i < v.ready.len() ==> (#[trigger] w.ready[i] <==> v.ready[i] || m == (
                AckView::WorkerReady { worker_id: i as u32 }))
            &&& w.phase == Phase::Attaching(0) <==> forall|i: int|
                0 <= i < v.ready.len() ==> #[trigger] w.ready[i]
            &&& w.phase is Attaching || w.phase is Waiting
        },
{
    if let Ok(m) = messages::ack_decoded(b@) {
        let w = v.after(StartEvent::Acked(b))->0;
        startup::law_every_event_is_answered(v, StartEvent::Acked(b));
        assert(w.ok());
        law_who_is_missing(w.ready);
        if w.phase == Phase::Attaching(0) {
            assert forall|i: int| 0 <= i < v.ready.len() implies #[trigger] w.ready[i] by {
                startup::law_all_are_ready_before_any_is_attached(w, i);
            }
        } else {
            assert(startup::missing(w.ready) > 0);
            if forall|i: int| 0 <= i < v.ready.len() ==> #[trigger] w.ready[i] {
                assert(silent(w.ready) =~= Set::empty());
            }
        }
    }
}

/// Waiting without an answer goes on exactly while no worker has ended and
/// there is time; it changes nothing. So does waiting for a control channel.
/// A channel that fails is a failure.
pub proof fn law_waiting_ends_with_its_reasons(
    v: StartupView,
    exited: Option<(u32, String)>,
    gone: Option<String>,
    deadline_reached: bool,
    c: TesseraChannelError,
)
    requires
        v.ok(),
    ensures
        v.phase is Waiting ==> {
            let r = v.after(StartEvent::NoAck { exited, deadline_reached });
            &&& r is Some <==> exited is None && !deadline_reached
            &&& r matches Some(w) ==> w == v
            &&& v.after(StartEvent::AckFailed(c)) is None
        },
        v.phase is Attaching ==> {
            let r = v.after(StartEvent::AttachFailed { exited: gone, deadline_reached });
            &&& r is Some <==> gone is None && !deadline_reached
            &&& r matches Some(w) ==> w == v
        },
{
}

/// Control channels are attached to one after another, each once; with the
/// last one the sink is started.
pub proof fn law_channels_are_attached_in_turn(v: StartupView, next: u32)
    requires
        v.ok(),
        v.phase == Phase::Attaching(next),
    ensures
        v.after(StartEvent::Attached) matches Some(w) && w.ready == v.ready && (if next + 1
            < v.ready.len() {
            w.phase == Phase::Attaching((next + 1) as u32)
        } else {
            w.phase == Phase::Started
        }),
{
}

/// A worker carries out every message but a shutdown, after which it ends.
/// Without a message it waits on as long as its owner is there, and ends
/// when the owner is gone. What is no message, and a channel that fails, end
/// it with a failure.
pub proof fn law_how_a_worker_goes_on(
    message: core::result::Result<Vec<u8>, TesseraChannelError>,
    parent_is_gone: bool,
)
    ensures
        ({
            let p = run::phase_after(
                RunPhase::Serving,
                RunEvent::Received { message, parent_is_gone },
            );
            match message {
                Ok(b) => match messages::control_decoded(b@) {
                    Ok(m) => if m is Shutdown {
                        p is CleaningUp
                    } else {
                        p is Dispatching
                    },
                    Err(_) => p is Failed,
                },
                Err(e) => if !(e is Timeout) {
                    p is Failed
                } else if parent_is_gone {
                    p is CleaningUp
                } else {
                    p is Serving
                },
            }
        }),
        run::phase_after(RunPhase::Dispatching, RunEvent::Sent) is Serving,
        run::phase_after(RunPhase::Announcing, RunEvent::Sent) is Serving,
        run::phase_after(RunPhase::CleaningUp, RunEvent::CleanedUp) is Ended,
{
}

/// A worker comes up in one order: pool, control channel, ack channel, word
/// to the owner. Whatever fails on the way ends it.
pub proof fn law_how_a_worker_comes_up(phase: RunPhase, event: RunEvent)
    requires
        run::expects(phase, event),
    ensures
        event is PoolAttached ==> run::phase_after(phase, event) is CreatingControl,
        event is ControlCreated ==> run::phase_after(phase, event) is AttachingAck,
        event is AckAttached ==> run::phase_after(phase, event) is Announcing,
        event is PoolFailed || event is ChannelFailed || event is SendFailed ==> run::phase_after(
            phase,
            event,
        ) is Failed,
{
}

/// An answer removes the file that it is to remove, or none, and tells the
/// owner what it is to tell.
pub proof fn law_what_an_answer_does(step: WorkerStep, file: Option<Seq<char>>, ack: AckView)
    requires
        worker::answers(step, file, ack),
    ensures
        step is Answer && step->ack@ == ack,
        file matches Some(f) ==> removes(step, f),
        file is None ==> removes_nothing(step),
{
}

/// A job's name is its identifier in 32 hexadecimal digits, the highest
/// first.
pub proof fn law_how_a_job_is_named(job_id: u128, i: nat)
    requires
        i < 32,
    ensures
        worker::job_name(job_id).len() == 32,
        worker::job_name(job_id)[31 - i] == crate::text::digit_char(
            ((job_id as int / vstd::arithmetic::power::pow(16, i)) % 16) as nat,
        ),
{
    crate::text::law_hexadecimal_places(job_id as nat, 32, i);
}

/// Why a start failed. A worker that has ended is named, whether or not the
/// time is over; otherwise it was the time that ran out, ten seconds for all
/// workers to get ready and ten for a control channel.
pub proof fn law_why_a_start_failed(v: StartupView, event: StartEvent, e: TesseraSinkError)
    requires
        v.ok(),
        v.expects(event),
        v.after(event) is None,
        v.fails_with(event, e),
    ensures
        event is SpawnFailed ==> e is WorkerSpawn && v.phase == Phase::Spawning(
            e->WorkerSpawn_worker_id,
        ) && e->WorkerSpawn_message@ == event->SpawnFailed_0@,
        event is Acked ==> e is Protocol,
        event matches StartEvent::AckFailed(c) ==> e == TesseraSinkError::Channel(c),
        event matches StartEvent::NoAck { exited: Some((w, status)), deadline_reached }
            ==> e is WorkerSpawn && e->WorkerSpawn_worker_id == w,
        event matches StartEvent::NoAck { exited: None, deadline_reached } ==> e is Timeout
            && e->Timeout_timeout_micros == 10_000_000,
        event matches StartEvent::AttachFailed { exited: Some(status), deadline_reached }
            ==> e is WorkerSpawn && v.phase == Phase::Attaching(e->WorkerSpawn_worker_id),
        event matches StartEvent::AttachFailed { exited: None, deadline_reached } ==> e is Timeout
            && e->Timeout_timeout_micros == 10_000_000,
{
}

/// Why a worker failed: the pool's error, the channel's, a message that is
/// none, or an owner that takes no answers for thirty seconds.
pub proof fn law_why_a_worker_failed(event: RunEvent, e: TesseraSinkError)
    requires
        run::fails_with(event, e),
    ensures
        event matches RunEvent::PoolFailed(p) ==> e == TesseraSinkError::Pool(p),
        event matches RunEvent::ChannelFailed(c) ==> e == TesseraSinkError::Channel(c),
        event matches RunEvent::SendFailed(c) ==> (if c is Timeout {
            e is Timeout && e->Timeout_timeout_micros == 30_000_000
        } else {
            e == TesseraSinkError::Channel(c)
        }),
        event matches RunEvent::Received { message: Ok(b), parent_is_gone } ==> e is Protocol,
        event matches RunEvent::Received { message: Err(c), parent_is_gone } ==> e
            == TesseraSinkError::Channel(c),
{
}

/// What a worker asks for in each phase: the segments that it was told of,
/// with the geometry that it was told. It attaches to the pool and to the
/// ack channel as one that sends, and creates the control channel as the one
/// that receives; and it tells its own index.
pub proof fn law_what_a_worker_asks_for(v: RunView, step: RunStep)
    requires
        v.asks_for(step),
    ensures
        v.phase is AttachingPool ==> (step matches RunStep::AttachPool(c) && c.description@
            == v.params.pool_description && c.slot_count == v.params.pool_slot_count
            && c.slot_size_bytes == v.params.pool_slot_size_bytes && !c.is_owner
            && !c.force_recreate),
        v.phase is CreatingControl ==> (step matches RunStep::CreateControl(c) && c.description@
            == v.params.control_description && c.slot_count == v.params.control_slot_count
            && c.slot_size_bytes == v.params.control_slot_size_bytes && c.role
            == ChannelRole::Receiver && c.force_recreate == v.params.force_recreate),
        v.phase is AttachingAck ==> (step matches RunStep::AttachAck(c) && c.description@
            == v.params.ack_description && c.slot_count == v.params.ack_slot_count
            && c.slot_size_bytes == v.params.ack_slot_size_bytes && c.role == ChannelRole::Sender
            && !c.force_recreate),
        v.phase is Announcing ==> (step matches RunStep::SendReady(m) && m@ == (
        AckView::WorkerReady { worker_id: v.params.worker_id })),
        v.phase is Serving <==> step is Receive,
        v.phase is Dispatching <==> step is Dispatch,
        v.phase is CleaningUp <==> step is CleanUp,
        v.phase is Ended <==> step is End,
        v.phase is Failed <==> step is Fail,
{
}

/// What a worker does with a chunk, or why it does not take it.
pub open spec fn begins_chunk(
    jobs: Map<u128, JobView>,
    job_id: u128,
    path: Seq<char>,
    chunk_index: u32,
    r: core::result::Result<WorkerStep, TesseraSinkError>,
) -> bool {
    if jobs.contains_key(job_id) {
        if chunk_index == jobs[job_id].next_chunk_index {
            r matches Ok(step) && step is WriteChunk
        } else {
            r matches Err(e) && e is Protocol
        }
    } else if chunk_index != 0 {
        r matches Err(e) && e is Protocol
    } else if crate::sink::paths::file_name(path) is Some {
        r matches Ok(WorkerStep::CreateFile { temp_path }) && temp_path@
            == crate::sink::paths::temp_path(path, job_id)
    } else {
        r matches Err(e) && e is Config
    }
}

/// A worker makes a job's temporary file with the job's first chunk and no
/// other, appends to it the chunk that comes next and no other, and takes no
/// chunk out of order.
pub proof fn law_what_a_chunk_leads_to(
    jobs: Map<u128, JobView>,
    job_id: u128,
    path: Seq<char>,
    chunk_index: u32,
    r: core::result::Result<WorkerStep, TesseraSinkError>,
)
    requires
        begins_chunk(jobs, job_id, path, chunk_index, r),
    ensures
        (r matches Ok(step) && step is WriteChunk) <==> jobs.contains_key(job_id) && chunk_index
            == jobs[job_id].next_chunk_index,
        (r matches Ok(step) && step is CreateFile) <==> !jobs.contains_key(job_id) && chunk_index
            == 0 && crate::sink::paths::file_name(path) is Some,
        r matches Ok(step) ==> step is WriteChunk || step is CreateFile,
        r matches Err(e) ==> (e is Config <==> !jobs.contains_key(job_id) && chunk_index == 0) && (
        e is Protocol || e is Config),
{
}

/// What a worker does for a message, and the jobs that it has then.
pub open spec fn dispatched(
    before: Map<u128, JobView>,
    msg: ControlView,
    step: WorkerStep,
    after: Map<u128, JobView>,
) -> bool {
    match msg {
        ControlView::ChunkDescriptor { job_id, path, chunk_index, descriptor } => {
            &&& after == before
            &&& step matches WorkerStep::ReadChunk {
                job_id: id,
                path: p,
                chunk_index: c,
                descriptor: d,
            } && id == job_id && p@ == path && c == chunk_index && d == descriptor
        },
        ControlView::Commit { job_id, path, chunk_count, expected_hash, fsync } => {
            &&& after == before.remove(job_id)
            &&& worker::commit_step(
                before,
                job_id,
                path,
                chunk_count,
                expected_hash,
                fsync,
                step,
            )
        },
        ControlView::Cancel { job_id } => {
            &&& after == before.remove(job_id)
            &&& worker::answers(
                step,
                worker::temp_of(before, job_id),
                AckView::CancelAck { job_id },
            )
        },
        ControlView::Shutdown => after == before && step is Nothing,
    }
}

/// A message concerns the job that it names and no other. A commit and a
/// cancel both end the job, so that it is answered for once: after either,
/// the worker knows nothing of it, and a commit then fails. A cancelled job
/// leaves no file, and a cancel is always answered.
pub proof fn law_a_job_is_answered_for_once(
    before: Map<u128, JobView>,
    msg: ControlView,
    job_id: u128,
    step: WorkerStep,
    mid: Map<u128, JobView>,
    path: Seq<char>,
    chunk_count: u32,
    expected_hash: Seq<u8>,
    fsync: bool,
    again: WorkerStep,
    after: Map<u128, JobView>,
)
    requires
        msg == (ControlView::Cancel { job_id }) || (msg matches ControlView::Commit {
            job_id: j,
            ..
        } && j == job_id),
        dispatched(before, msg, step, mid),
        dispatched(
            mid,
            ControlView::Commit { job_id, path, chunk_count, expected_hash, fsync },
            again,
            after,
        ),
    ensures
        !mid.contains_key(job_id),
        forall|k: u128|
            k != job_id ==> (#[trigger] mid.contains_key(k) <==> before.contains_key(k)) && (
            before.contains_key(k) ==> mid[k] == before[k]),
        tells_failure(again, job_id, path),
        removes_nothing(again),
        msg is Cancel ==> step is Answer && step->ack@ == (AckView::CancelAck { job_id }),
        msg is Cancel && before.contains_key(job_id) ==> removes(step, before[job_id].temp_path),
{
    law_what_is_put_in_place(mid, job_id, path, chunk_count, expected_hash, fsync, again);
}

} // verus!
