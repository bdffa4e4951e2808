//! What becomes of a job: how answers, worker exits and flushes bear on what
//! the owner knows of it, and what the caller is told in the end.
//!
//! The laws speak of a job by its identifier and of a worker by its index.
use vstd::prelude::*;

use crate::channel::TesseraChannelError;
use crate::digest;
use crate::pool::{Descriptor, Lease, TesseraPoolError};
use crate::sink::error::TesseraSinkError;
use crate::sink::leases;
use crate::sink::messages;
use crate::sink::messages::{AckView, ControlView};
use crate::sink::sink;
use crate::sink::sink::{
    AckEffect, ExitStep, JobRecord, ProcessState, SinkView, StatusView, SubmissionView,
};
use crate::sink::worker;

verus! {

/// The index of the worker that a job goes to.
pub open spec fn worker_of(job_id: u128, worker_count: u32) -> int {
    job_id as int % worker_count as int
}

/// Every job that the owner knows is with the worker that its identifier
/// leads to.
pub open spec fn placed(v: SinkView) -> bool {
    forall|k: u128| #[trigger]
        v.jobs.contains_key(k) ==> v.jobs[k].worker_id == worker_of(k, v.config.worker_count)
}

/// The same job, but for how it stands.
pub open spec fn same_but_status(a: JobRecord, b: JobRecord) -> bool {
    a.path == b.path && a.worker_id == b.worker_id
}

/// Every job but `job_id` is known as it was, and no other is.
pub open spec fn other_jobs_stay(before: SinkView, after: SinkView, job_id: u128) -> bool {
    forall|k: u128|
        k != job_id ==> (#[trigger] after.jobs.contains_key(k) <==> before.jobs.contains_key(k))
            && (before.jobs.contains_key(k) ==> after.jobs[k] == before.jobs[k])
}

/// The worker's word on how a job ended counts, whatever was known of the
/// job before: it counts as succeeded exactly if the worker says success,
/// and otherwise as failed in the worker's words. Nothing else changes, and a
/// job that the owner does not know stays unknown.
pub proof fn law_the_workers_word_counts(
    before: SinkView,
    job_id: u128,
    success: bool,
    path: Seq<char>,
    error: Seq<char>,
    after: SinkView,
    effect: AckEffect,
)
    requires
        sink::acked(
            before,
            AckView::JobComplete { job_id, success, path, error },
            after,
            effect,
        ),
    ensures
        after.jobs.contains_key(job_id) <==> before.jobs.contains_key(job_id),
        before.jobs.contains_key(job_id) ==> {
            &&& after.jobs[job_id].status is Succeeded <==> success
            &&& !success ==> after.jobs[job_id].status == StatusView::Failed(error)
            &&& same_but_status(after.jobs[job_id], before.jobs[job_id])
        },
        other_jobs_stay(before, after, job_id),
        after.outstanding == before.outstanding,
        after.config == before.config,
        after.closed == before.closed,
        effect.release@.len() == 0,
        effect.cancel is None,
{
}

/// What a flush that left the owner as `after` said of the jobs.
pub open spec fn flushed(
    before: SinkView,
    r: core::result::Result<bool, TesseraSinkError>,
    after: SinkView,
) -> bool {
    if before.closed {
        r == Err::<bool, TesseraSinkError>(TesseraSinkError::Closed) && after == before
    } else if !sink::all_ended(before.jobs) {
        r == Ok::<bool, TesseraSinkError>(false) && after == before
    } else {
        &&& after == (SinkView { jobs: Map::empty(), ..before })
        &&& match r {
            Ok(done) => done && forall|k: u128|
                #[trigger] before.jobs.contains_key(k) ==> sink::failure(
                    before.jobs[k].status,
                ) is None,
            Err(e) => exists|k: u128| #[trigger] sink::tells_failure(before.jobs, k, e),
        }
    }
}

/// The job ended and was not a success.
pub open spec fn went_wrong(status: StatusView) -> bool {
    status is Failed || status is Cancelled
}

/// A flush of an open sink asks to be tried again exactly while a job is
/// pending, and leaves all as it is. It is a success exactly if every job
/// succeeded; and if none is pending and one failed or was dropped, it is an
/// error that names such a job with its path and why. Either way the jobs
/// are then forgotten and nothing else is.
pub proof fn law_a_flush_tells_how_the_jobs_ended(
    before: SinkView,
    r: core::result::Result<bool, TesseraSinkError>,
    after: SinkView,
)
    requires
        flushed(before, r, after),
    ensures
        before.closed ==> r is Err && r->Err_0 is Closed && after == before,
        !before.closed ==> {
            let some_pending = exists|k: u128| #[trigger]
                before.jobs.contains_key(k) && before.jobs[k].status is Pending;
            let all_succeeded = forall|k: u128| #[trigger]
                before.jobs.contains_key(k) ==> before.jobs[k].status is Succeeded;
            &&& r == Ok::<bool, TesseraSinkError>(false) <==> some_pending
            &&& r == Ok::<bool, TesseraSinkError>(true) <==> all_succeeded
            &&& some_pending ==> after == before
            &&& !some_pending ==> after.jobs == Map::<u128, JobRecord>::empty()
                && after.outstanding == before.outstanding && after.config == before.config
                && !after.closed
            &&& r matches Err(e) ==> e is JobFailed && exists|k: u128| #[trigger]
                before.jobs.contains_key(k) && went_wrong(before.jobs[k].status)
                    && e->JobFailed_job_id@ == worker::job_name(k) && e->JobFailed_path@
                    == before.jobs[k].path && (before.jobs[k].status matches StatusView::Failed(
                    words,
                ) ==> e->JobFailed_message@ == words) && (before.jobs[k].status is Cancelled
                    ==> e->JobFailed_message@ == "job cancelled"@)
        },
{
    if !before.closed {
        let all_succeeded = forall|k: u128| #[trigger]
            before.jobs.contains_key(k) ==> before.jobs[k].status is Succeeded;
        if sink::all_ended(before.jobs) {
            match r {
                Ok(done) => {
                    assert forall|k: u128| #[trigger]
                        before.jobs.contains_key(k) implies before.jobs[k].status is Succeeded by {
                        assert(sink::failure(before.jobs[k].status) is None);
                    }
                },
                Err(e) => {
                    let k = choose|k: u128| #[trigger] sink::tells_failure(before.jobs, k, e);
                    assert(before.jobs.contains_key(k));
                    assert(went_wrong(before.jobs[k].status));
                    assert(!all_succeeded);
                },
            }
        } else {
            let k = choose|k: u128| #[trigger]
                before.jobs.contains_key(k) && before.jobs[k].status is Pending;
            assert(before.jobs.contains_key(k) && before.jobs[k].status is Pending);
            assert(!all_succeeded);
        }
    }
}

/// A job that its worker says has failed, whatever was known of it before,
/// makes the flush that comes next an error, or has it wait for other jobs;
/// one that its worker says has succeeded is never what a flush complains of.
pub proof fn law_a_flush_heeds_the_workers_word(
    before: SinkView,
    job_id: u128,
    success: bool,
    path: Seq<char>,
    error: Seq<char>,
    mid: SinkView,
    effect: AckEffect,
    r: core::result::Result<bool, TesseraSinkError>,
    after: SinkView,
)
    requires
        before.jobs.contains_key(job_id),
        !before.closed,
        sink::acked(
            before,
            AckView::JobComplete { job_id, success, path, error },
            mid,
            effect,
        ),
        flushed(mid, r, after),
    ensures
        !success ==> r is Err || exists|k: u128| #[trigger]
            before.jobs.contains_key(k) && k != job_id && before.jobs[k].status is Pending,
        !success ==> r != Ok::<bool, TesseraSinkError>(true),
        success ==> (r matches Err(e) ==> exists|k: u128| #[trigger]
            before.jobs.contains_key(k) && k != job_id && went_wrong(before.jobs[k].status)),
{
    law_the_workers_word_counts(before, job_id, success, path, error, mid, effect);
    law_a_flush_tells_how_the_jobs_ended(mid, r, after);
    if !success {
        if r == Ok::<bool, TesseraSinkError>(false) {
            let k = choose|k: u128| #[trigger]
                mid.jobs.contains_key(k) && mid.jobs[k].status is Pending;
            assert(k != job_id);
            assert(before.jobs.contains_key(k));
        }
    } else if r is Err {
        let k = choose|k: u128| #[trigger]
            mid.jobs.contains_key(k) && went_wrong(mid.jobs[k].status);
        assert(k != job_id);
        assert(before.jobs.contains_key(k));
    }
}

/// The chunk's lease, and no other, is no longer out.
pub open spec fn one_lease_back(
    before: SinkView,
    after: SinkView,
    job_id: u128,
    chunk_index: u32,
    release: Seq<Lease>,
) -> bool {
    &&& forall|k: (u128, u32)|
        #[trigger] after.outstanding.contains_key(k) <==> before.outstanding.contains_key(k) && k
            != (job_id, chunk_index)
    &&& forall|k: (u128, u32)| #[trigger]
        after.outstanding.contains_key(k) ==> after.outstanding[k] == before.outstanding[k]
    &&& before.outstanding.contains_key((job_id, chunk_index)) ==> release.len() == 1
        && release[0] == before.outstanding[(job_id, chunk_index)]
    &&& !before.outstanding.contains_key((job_id, chunk_index)) ==> release.len() == 0
}

/// A chunk that a worker acknowledges gives back its own lease and changes
/// nothing else.
pub proof fn law_a_chunk_that_arrived(
    before: SinkView,
    job_id: u128,
    chunk_index: u32,
    after: SinkView,
    effect: AckEffect,
)
    requires
        sink::acked(before, AckView::ChunkAck { job_id, chunk_index }, after, effect),
    ensures
        one_lease_back(before, after, job_id, chunk_index, effect.release@),
        after.jobs == before.jobs,
        after.config == before.config,
        after.closed == before.closed,
        effect.cancel is None,
{
}

/// A chunk that failed gives back its own lease; the job, if the owner knows
/// it, is to be dropped by the worker that has it, and has failed if it was
/// pending. A job that had ended stays as it was, and so does every other.
pub proof fn law_a_chunk_that_failed(
    before: SinkView,
    job_id: u128,
    chunk_index: u32,
    error: Seq<char>,
    after: SinkView,
    effect: AckEffect,
)
    requires
        sink::acked(before, AckView::ChunkFailed { job_id, chunk_index, error }, after, effect),
    ensures
        one_lease_back(before, after, job_id, chunk_index, effect.release@),
        after.config == before.config,
        after.closed == before.closed,
        after.jobs.contains_key(job_id) <==> before.jobs.contains_key(job_id),
        other_jobs_stay(before, after, job_id),
        before.jobs.contains_key(job_id) && before.jobs[job_id].status is Pending ==> {
            &&& after.jobs[job_id].status == StatusView::Failed(
                "chunk "@ + crate::text::dec(chunk_index as nat) + " failed: "@ + error,
            )
            &&& same_but_status(after.jobs[job_id], before.jobs[job_id])
        },
        before.jobs.contains_key(job_id) && !(before.jobs[job_id].status is Pending) ==> after.jobs[job_id]
            == before.jobs[job_id],
        before.jobs.contains_key(job_id) <==> effect.cancel is Some,
        effect.cancel matches Some((w, m)) ==> w == before.jobs[job_id].worker_id && m@
            == (ControlView::Cancel { job_id }),
        placed(before) ==> (effect.cancel matches Some((w, m)) ==> w == worker_of(
            job_id,
            before.config.worker_count,
        )),
{
}

/// The leases of the job, and no others, are no longer out, and all of them
/// are to be released.
pub open spec fn job_leases_back(
    before: SinkView,
    after: SinkView,
    job_id: u128,
    release: Seq<Lease>,
) -> bool {
    &&& forall|k: (u128, u32)|
        #[trigger] after.outstanding.contains_key(k) <==> before.outstanding.contains_key(k) && k.0
            != job_id
    &&& forall|k: (u128, u32)| #[trigger]
        after.outstanding.contains_key(k) ==> after.outstanding[k] == before.outstanding[k]
    &&& forall|c: u32| #[trigger]
        before.outstanding.contains_key((job_id, c)) ==> release.contains(
            before.outstanding[(job_id, c)],
        )
    &&& forall|i: int| 0 <= i < release.len() ==> out_for(before, job_id, #[trigger] release[i])
}

/// The lease is out for a chunk of the job.
pub open spec fn out_for(v: SinkView, job_id: u128, lease: Lease) -> bool {
    exists|c: u32| #[trigger]
        v.outstanding.contains_key((job_id, c)) && v.outstanding[(job_id, c)] == lease
}

/// The lease is one of the map.
pub open spec fn among(m: Map<(u128, u32), Lease>, lease: Lease) -> bool {
    exists|k: (u128, u32)| #[trigger] m.contains_key(k) && m[k] == lease
}

/// What a list of all leases of a map holds: each of the map's leases, and
/// no others, as many as the map has.
pub proof fn law_a_list_of_leases_is_complete(r: Seq<Lease>, m: Map<(u128, u32), Lease>)
    requires
        leases::lists_all(r, m),
    ensures
        forall|k: (u128, u32)| #[trigger] m.contains_key(k) ==> r.contains(m[k]),
        forall|i: int| 0 <= i < r.len() ==> among(m, #[trigger] r[i]),
        m.dom().finite(),
        r.len() == m.dom().len(),
{
    let keys = choose|keys: Seq<(u128, u32)>| #[trigger] leases::lists_leases(r, keys, m);
    assert forall|k: (u128, u32)| #[trigger] m.contains_key(k) implies r.contains(m[k]) by {
        let i = choose|i: int| 0 <= i < keys.len() && keys[i] == k;
        assert(r[i] == m[keys[i]]);
    }
    assert forall|i: int| 0 <= i < r.len() implies among(m, #[trigger] r[i]) by {
        assert(keys.contains(keys[i]));
        assert(m.contains_key(keys[i]));
    }
    assert(m.dom() =~= keys.to_set());
    keys.unique_seq_to_set();
    vstd::seq_lib::seq_to_set_is_finite(keys);
}

proof fn lemma_job_leases(before: SinkView, after: SinkView, job_id: u128, release: Seq<Lease>)
    requires
        after.outstanding == leases::without_job(before.outstanding, job_id),
        sink::releases_job(release, before.outstanding, job_id),
    ensures
        job_leases_back(before, after, job_id, release),
{
    let m = leases::of_job(before.outstanding, job_id);
    law_a_list_of_leases_is_complete(release, m);
    assert forall|c: u32| #[trigger] before.outstanding.contains_key((job_id, c)) implies release.contains(
        before.outstanding[(job_id, c)],
    ) by {
        assert(m.contains_key((job_id, c)));
    }
    assert forall|i: int| 0 <= i < release.len() implies out_for(
        before,
        job_id,
        #[trigger] release[i],
    ) by {
        assert(among(m, release[i]));
        let k = choose|k: (u128, u32)| #[trigger] m.contains_key(k) && m[k] == release[i];
        assert(k == (job_id, k.1));
        assert(before.outstanding.contains_key((job_id, k.1)));
    }
}

/// A job that a worker has dropped gives back all its leases, and counts as
/// dropped if it was pending. A job that had ended stays as it was, and so
/// does every other.
pub proof fn law_a_job_that_was_dropped(
    before: SinkView,
    job_id: u128,
    after: SinkView,
    effect: AckEffect,
)
    requires
        sink::acked(before, AckView::CancelAck { job_id }, after, effect),
    ensures
        job_leases_back(before, after, job_id, effect.release@),
        after.config == before.config,
        after.closed == before.closed,
        after.jobs.contains_key(job_id) <==> before.jobs.contains_key(job_id),
        other_jobs_stay(before, after, job_id),
        before.jobs.contains_key(job_id) && before.jobs[job_id].status is Pending ==> {
            &&& after.jobs[job_id].status is Cancelled
            &&& same_but_status(after.jobs[job_id], before.jobs[job_id])
        },
        before.jobs.contains_key(job_id) && !(before.jobs[job_id].status is Pending) ==> after.jobs[job_id]
            == before.jobs[job_id],
        effect.cancel is None,
{
    lemma_job_leases(before, after, job_id, effect.release@);
}

/// A worker that says it is up changes nothing.
pub proof fn law_a_worker_that_is_up(
    before: SinkView,
    worker_id: u32,
    after: SinkView,
    effect: AckEffect,
)
    requires
        sink::acked(before, AckView::WorkerReady { worker_id }, after, effect),
    ensures
        after == before,
        effect.release@.len() == 0,
        effect.cancel is None,
{
}

/// A submission that failed gives back all leases of its job, and the job
/// has failed with the reason if it was pending. Every other job stays as it
/// was.
pub proof fn law_a_submission_that_failed(
    before: SinkView,
    job_id: u128,
    e: TesseraSinkError,
    after: SinkView,
    release: Seq<Lease>,
)
    requires
        after == (SinkView {
            outstanding: leases::without_job(before.outstanding, job_id),
            jobs: sink::marked_failed(before.jobs, job_id, "submit failed: "@ + e.words()),
            ..before
        }),
        sink::releases_job(release, before.outstanding, job_id),
    ensures
        job_leases_back(before, after, job_id, release),
        after.jobs.contains_key(job_id) <==> before.jobs.contains_key(job_id),
        other_jobs_stay(before, after, job_id),
        before.jobs.contains_key(job_id) && before.jobs[job_id].status is Pending ==> {
            &&& after.jobs[job_id].status == StatusView::Failed("submit failed: "@ + e.words())
            &&& same_but_status(after.jobs[job_id], before.jobs[job_id])
        },
        before.jobs.contains_key(job_id) && !(before.jobs[job_id].status is Pending) ==> after.jobs[job_id]
            == before.jobs[job_id],
{
    lemma_job_leases(before, after, job_id, release);
}

/// What the exit of a worker changed, and the leases that it gave back.
pub open spec fn exited(
    before: SinkView,
    worker_id: u32,
    status: Seq<char>,
    after: SinkView,
    release: Seq<Lease>,
) -> bool {
    &&& after == (SinkView {
        outstanding: sink::leases_after_exit(before.outstanding, before.jobs, worker_id),
        jobs: sink::jobs_after_exit(
            before.jobs,
            worker_id,
            sink::exited_words(worker_id, status),
        ),
        ..before
    })
    &&& leases::lists_all(
        release,
        sink::leases_of_exit(before.outstanding, before.jobs, worker_id),
    )
}

/// The job is pending and was given to the worker of this index.
pub open spec fn lost_with(v: SinkView, job_id: u128, worker_id: u32) -> bool {
    &&& v.jobs.contains_key(job_id)
    &&& v.jobs[job_id].status is Pending
    &&& job_id as int % v.config.worker_count as int == worker_id
}

/// The lease is out for a chunk of such a job.
pub open spec fn lost_lease(v: SinkView, worker_id: u32, lease: Lease) -> bool {
    exists|k: (u128, u32)| #[trigger]
        v.outstanding.contains_key(k) && lost_with(v, k.0, worker_id) && v.outstanding[k] == lease
}

/// When a worker has exited, its pending jobs have failed, and their leases
/// are given back. Nothing changes for any job that had ended, nor for any
/// that was given to another worker: neither how it stands nor its leases.
/// Which worker a job was given to is the job's identifier modulo the number
/// of workers.
pub proof fn law_an_exit_fails_the_jobs_of_that_worker_alone(
    before: SinkView,
    worker_id: u32,
    status: Seq<char>,
    after: SinkView,
    release: Seq<Lease>,
)
    requires
        placed(before),
        before.config.worker_count > 0,
        exited(before, worker_id, status, after, release),
    ensures
        after.config == before.config,
        after.closed == before.closed,
        after.jobs.dom() == before.jobs.dom(),
        forall|k: u128| #[trigger]
            after.jobs.contains_key(k) && !(before.jobs[k].status is Pending && k as int
                % before.config.worker_count as int == worker_id) ==> after.jobs[k]
                == before.jobs[k],
        forall|k: u128| #[trigger]
            after.jobs.contains_key(k) && before.jobs[k].status is Pending && k as int
                % before.config.worker_count as int == worker_id ==> after.jobs[k].status
                == StatusView::Failed(
                "worker "@ + crate::text::dec(worker_id as nat) + " exited: "@ + status,
            ) && same_but_status(after.jobs[k], before.jobs[k]),
        forall|k: (u128, u32)| #[trigger]
            after.outstanding.contains_key(k) <==> before.outstanding.contains_key(k)
                && !lost_with(before, k.0, worker_id),
        forall|k: (u128, u32)| #[trigger]
            after.outstanding.contains_key(k) ==> after.outstanding[k] == before.outstanding[k],
        forall|k: (u128, u32)| #[trigger]
            before.outstanding.contains_key(k) && lost_with(before, k.0, worker_id)
                ==> release.contains(before.outstanding[k]),
        forall|i: int|
            0 <= i < release.len() ==> lost_lease(before, worker_id, #[trigger] release[i]),
{
    let gone = sink::leases_of_exit(before.outstanding, before.jobs, worker_id);
    law_a_list_of_leases_is_complete(release, gone);
    assert(after.jobs.dom() =~= before.jobs.dom());
    assert forall|k: u128| #[trigger] before.jobs.contains_key(k) implies (sink::waits_for(
        before.jobs[k],
        worker_id,
    ) <==> lost_with(before, k, worker_id)) by {}
    assert forall|k: (u128, u32)| #[trigger]
        before.outstanding.contains_key(k) && lost_with(
        before,
        k.0,
        worker_id,
    ) implies release.contains(before.outstanding[k]) by {
        assert(gone.contains_key(k));
    }
    assert forall|i: int| 0 <= i < release.len() implies lost_lease(
        before,
        worker_id,
        #[trigger] release[i],
    ) by {
        assert(among(gone, release[i]));
        let k = choose|k: (u128, u32)| #[trigger] gone.contains_key(k) && gone[k] == release[i];
        assert(before.outstanding.contains_key(k));
        assert(lost_with(before, k.0, worker_id));
    }
}

/// Whatever comes of a job, it stays with its worker: a sink whose jobs are
/// all with the workers that their identifiers lead to is still one after
/// any answer, any exit of a worker and any flush, and a job that is
/// submitted is given to the worker of its identifier.
pub proof fn law_jobs_stay_with_their_workers(
    before: SinkView,
    msg: AckView,
    acked: SinkView,
    effect: AckEffect,
    worker_id: u32,
    status: Seq<char>,
    exited_view: SinkView,
    release: Seq<Lease>,
    r: core::result::Result<bool, TesseraSinkError>,
    flushed_view: SinkView,
    job_id: u128,
    words: Seq<char>,
)
    requires
        placed(before),
        before.config.worker_count > 0,
        sink::acked(before, msg, acked, effect),
        exited(before, worker_id, status, exited_view, release),
        flushed(before, r, flushed_view),
    ensures
        placed(acked),
        placed(exited_view),
        placed(flushed_view),
        placed(SinkView { jobs: sink::marked_failed(before.jobs, job_id, words), ..before }),
{
    law_an_exit_fails_the_jobs_of_that_worker_alone(
        before,
        worker_id,
        status,
        exited_view,
        release,
    );
    assert forall|k: u128| #[trigger] exited_view.jobs.contains_key(k) implies exited_view.jobs[k].worker_id
        == worker_of(k, before.config.worker_count) by {
        assert(before.jobs.contains_key(k));
    }
}

/// What a submission says to its worker: each chunk by the job, the path,
/// the chunk's index and the descriptor of its bytes; and at the end how
/// many chunks there are, the digest of the whole and whether to sync.
pub proof fn law_what_a_submission_says(s: SubmissionView, chunk_index: u32, d: Descriptor)
    ensures
        sink::chunk_message(s, chunk_index, d) == (ControlView::ChunkDescriptor {
            job_id: s.job_id,
            path: s.path,
            chunk_index,
            descriptor: d,
        }),
        s.commit() == (ControlView::Commit {
            job_id: s.job_id,
            path: s.path,
            chunk_count: (if s.len == 0 {
                1
            } else {
                (s.len + s.slot - 1) / s.slot
            }) as u32,
            expected_hash: s.expected_hash,
            fsync: s.fsync,
        }),
{
}

/// Which leases are to be renewed when so much time has passed since they
/// last were; `None` where none yet.
pub open spec fn renews(v: SinkView, elapsed_micros: u64, r: Option<Seq<Lease>>) -> bool {
    if elapsed_micros < v.config.ttl_micros / 2 {
        r is None
    } else {
        r matches Some(list) && leases::lists_all(list, v.outstanding)
    }
}

/// Leases are renewed all or not at all: every lease of a chunk that was not
/// acknowledged yet, once half of the time to live has passed and not
/// before. So an owner that looks every half of the time to live, or more
/// often, never lets a lease outlive it.
pub proof fn law_leases_are_renewed_in_time(
    v: SinkView,
    elapsed_micros: u64,
    r: Option<Seq<Lease>>,
    next_look: u64,
)
    requires
        renews(v, elapsed_micros, r),
    ensures
        r is None <==> elapsed_micros < v.config.ttl_micros / 2,
        r matches Some(list) ==> {
            &&& forall|k: (u128, u32)| #[trigger]
                v.outstanding.contains_key(k) ==> list.contains(v.outstanding[k])
            &&& forall|i: int| 0 <= i < list.len() ==> among(v.outstanding, #[trigger] list[i])
            &&& list.len() == v.outstanding.dom().len()
        },
        r is None && next_look <= v.config.ttl_micros / 2 ==> elapsed_micros + next_look
            <= v.config.ttl_micros,
{
    if let Some(list) = r {
        law_a_list_of_leases_is_complete(list, v.outstanding);
    }
}

/// What a submission began, and what it left.
pub open spec fn submitted(
    before: SinkView,
    job_id: u128,
    path: Seq<char>,
    payload: Seq<u8>,
    fsync: bool,
    r: core::result::Result<SubmissionView, TesseraSinkError>,
    after: SinkView,
) -> bool {
    let worker_id = (job_id % before.config.worker_count as u128) as u32;
    if before.closed {
        r == Err::<SubmissionView, TesseraSinkError>(TesseraSinkError::Closed) && after == before
    } else {
        &&& r == Ok::<SubmissionView, TesseraSinkError>(
            SubmissionView {
                job_id,
                worker_id,
                path,
                expected_hash: digest::blake3_digest(payload),
                fsync,
                slot: before.config.pool_slot_size_bytes as int,
                len: payload.len() as int,
                next: 0,
            },
        )
        &&& after == (SinkView {
            jobs: before.jobs.insert(
                job_id,
                JobRecord { path, worker_id, status: StatusView::Pending },
            ),
            ..before
        })
    }
}

/// A closed sink takes no job. An open one takes every job: the job is
/// pending, with the worker that its identifier leads to, and goes out with
/// its path, the digest of its whole payload and in chunks as long as a slot
/// of the pool. Nothing else changes.
pub proof fn law_a_submitted_job_is_pending(
    before: SinkView,
    job_id: u128,
    path: Seq<char>,
    payload: Seq<u8>,
    fsync: bool,
    r: core::result::Result<SubmissionView, TesseraSinkError>,
    after: SinkView,
)
    requires
        before.config.worker_count > 0,
        submitted(before, job_id, path, payload, fsync, r, after),
    ensures
        before.closed <==> r is Err,
        before.closed ==> after == before && r->Err_0 is Closed,
        r matches Ok(s) ==> {
            &&& after.jobs.contains_key(job_id) && after.jobs[job_id].status is Pending
            &&& after.jobs[job_id].path == path
            &&& after.jobs[job_id].worker_id == job_id as int % before.config.worker_count as int
            &&& other_jobs_stay(before, after, job_id)
            &&& after.outstanding == before.outstanding
            &&& after.config == before.config && !after.closed
            &&& s.job_id == job_id && s.path == path && s.fsync == fsync
            &&& s.worker_id == job_id as int % before.config.worker_count as int
            &&& s.expected_hash == digest::blake3_digest(payload)
            &&& s.len == payload.len() && s.next == 0
            &&& s.slot == before.config.pool_slot_size_bytes
            &&& placed(before) ==> placed(after)
        },
{
    vstd::arithmetic::div_mod::lemma_mod_bound(
        job_id as int,
        before.config.worker_count as int,
    );
}

/// What keeping the lease of a chunk that was stored left, and what is sent.
pub open spec fn kept(
    before: SinkView,
    s: SubmissionView,
    lease: Lease,
    d: Descriptor,
    m: ControlView,
    after: SinkView,
) -> bool {
    &&& after == (SinkView {
        outstanding: before.outstanding.insert((s.job_id, s.next as u32), lease),
        ..before
    })
    &&& m == sink::chunk_message(s, s.next as u32, d)
}

/// The lease of a chunk that goes out is kept until the chunk is
/// acknowledged, under the job and the chunk's index, and that very index is
/// what the worker is told with the chunk. No other lease changes, nor any
/// job; and the acknowledgement gives the lease back.
pub proof fn law_a_chunk_that_goes_out(
    before: SinkView,
    s: SubmissionView,
    lease: Lease,
    d: Descriptor,
    m: ControlView,
    mid: SinkView,
    after: SinkView,
    effect: AckEffect,
)
    requires
        0 <= s.next <= u32::MAX,
        kept(before, s, lease, d, m, mid),
        sink::acked(
            mid,
            AckView::ChunkAck { job_id: s.job_id, chunk_index: s.next as u32 },
            after,
            effect,
        ),
    ensures
        mid.outstanding.contains_key((s.job_id, s.next as u32)),
        mid.outstanding[(s.job_id, s.next as u32)] == lease,
        forall|k: (u128, u32)|
            k != (s.job_id, s.next as u32) ==> (#[trigger] mid.outstanding.contains_key(k)
                <==> before.outstanding.contains_key(k)) && (before.outstanding.contains_key(k)
                ==> mid.outstanding[k] == before.outstanding[k]),
        mid.jobs == before.jobs && mid.config == before.config && mid.closed == before.closed,
        m == (ControlView::ChunkDescriptor {
            job_id: s.job_id,
            path: s.path,
            chunk_index: s.next as u32,
            descriptor: d,
        }),
        effect.release@.len() == 1 && effect.release@[0] == lease,
        !after.outstanding.contains_key((s.job_id, s.next as u32)),
{
    law_a_chunk_that_arrived(mid, s.job_id, s.next as u32, after, effect);
}

/// What closing said and left.
pub open spec fn closes(before: SinkView, r: bool, after: SinkView) -> bool {
    after == (SinkView { closed: true, ..before }) && r == !before.closed
}

/// A sink is closed once: the first call says so, every later one does not
/// and changes nothing. A closed sink still knows its jobs and leases, and
/// it neither takes a job nor flushes.
pub proof fn law_a_sink_is_closed_once(
    before: SinkView,
    first: bool,
    mid: SinkView,
    second: bool,
    after: SinkView,
    job_id: u128,
    path: Seq<char>,
    payload: Seq<u8>,
    fsync: bool,
    job: core::result::Result<SubmissionView, TesseraSinkError>,
    after_job: SinkView,
    flush: core::result::Result<bool, TesseraSinkError>,
    after_flush: SinkView,
)
    requires
        closes(before, first, mid),
        closes(mid, second, after),
        submitted(after, job_id, path, payload, fsync, job, after_job),
        flushed(after, flush, after_flush),
    ensures
        first <==> !before.closed,
        !second,
        mid.closed && after == mid,
        mid.jobs == before.jobs && mid.outstanding == before.outstanding && mid.config
            == before.config,
        job is Err && job->Err_0 is Closed && after_job == after,
        flush is Err && flush->Err_0 is Closed && after_flush == after,
{
}

/// What came of an attempt to lease a pool slot.
pub open spec fn acquires(
    v: SinkView,
    acquired: core::result::Result<Lease, TesseraPoolError>,
    deadline_reached: bool,
    r: core::result::Result<Option<Lease>, TesseraSinkError>,
) -> bool {
    match acquired {
        Ok(lease) => r == Ok::<Option<Lease>, TesseraSinkError>(Some(lease)),
        Err(TesseraPoolError::Timeout { .. }) => if deadline_reached {
            r matches Err(TesseraSinkError::Timeout { timeout_micros, context }) && timeout_micros
                == v.config.acquire_timeout_micros
        } else {
            r == Ok::<Option<Lease>, TesseraSinkError>(None)
        },
        Err(e) => r == Err::<Option<Lease>, TesseraSinkError>(TesseraSinkError::Pool(e)),
    }
}

/// A submission waits for a slot of the pool until its deadline: it gets
/// every lease that is had, tries again exactly while no slot was free and
/// there is time, and fails with the time it had when that is over. Any
/// other error of the pool ends it at once.
pub proof fn law_a_submission_waits_for_a_slot(
    v: SinkView,
    acquired: core::result::Result<Lease, TesseraPoolError>,
    deadline_reached: bool,
    r: core::result::Result<Option<Lease>, TesseraSinkError>,
)
    requires
        acquires(v, acquired, deadline_reached, r),
    ensures
        r == Ok::<Option<Lease>, TesseraSinkError>(None) <==> acquired is Err
            && acquired->Err_0 is Timeout && !deadline_reached,
        acquired matches Ok(lease) ==> r == Ok::<Option<Lease>, TesseraSinkError>(Some(lease)),
        acquired matches Err(e) ==> (e is Timeout && deadline_reached ==> r is Err
            && r->Err_0 is Timeout && r->Err_0->Timeout_timeout_micros
            == v.config.acquire_timeout_micros),
        acquired matches Err(e) ==> (!(e is Timeout) ==> r == Err::<
            Option<Lease>,
            TesseraSinkError,
        >(TesseraSinkError::Pool(e))),
{
}

/// What a closing owner does about a worker.
pub open spec fn ends(state: ProcessState, deadline_reached: bool, r: ExitStep) -> bool {
    r == match state {
        ProcessState::Running => if deadline_reached {
            ExitStep::Kill
        } else {
            ExitStep::Wait
        },
        _ => ExitStep::Done,
    }
}

/// A worker is killed exactly if it is running when its time is over, and
/// waited for exactly as long as it is running before that.
pub proof fn law_who_is_killed(state: ProcessState, deadline_reached: bool, r: ExitStep)
    requires
        ends(state, deadline_reached, r),
    ensures
        r is Kill <==> state is Running && deadline_reached,
        r is Wait <==> state is Running && !deadline_reached,
        r is Done <==> !(state is Running),
{
}

/// What came of taking in what the ack channel gave.
pub open spec fn drained(
    before: SinkView,
    received: core::result::Result<Vec<u8>, TesseraChannelError>,
    r: core::result::Result<Option<AckEffect>, TesseraSinkError>,
    after: SinkView,
) -> bool {
    match received {
        Ok(b) => match messages::ack_decoded(b@) {
            Ok(m) => r matches Ok(Some(effect)) && sink::acked(before, m, after, effect),
            Err(words) => (r matches Err(e) && e is Protocol) && after == before,
        },
        Err(TesseraChannelError::ChannelEmpty { .. }) => r == Ok::<
            Option<AckEffect>,
            TesseraSinkError,
        >(None) && after == before,
        Err(e) => r == Err::<Option<AckEffect>, TesseraSinkError>(TesseraSinkError::Channel(e))
            && after == before,
    }
}

/// An owner takes in answers until the ack channel is empty, which is no
/// error. An answer counts as what its bytes say; what is no answer, and a
/// channel that fails, are errors that change nothing.
pub proof fn law_answers_are_taken_in(
    before: SinkView,
    received: core::result::Result<Vec<u8>, TesseraChannelError>,
    r: core::result::Result<Option<AckEffect>, TesseraSinkError>,
    after: SinkView,
)
    requires
        drained(before, received, r, after),
    ensures
        r == Ok::<Option<AckEffect>, TesseraSinkError>(None) <==> received is Err
            && received->Err_0 is ChannelEmpty,
        (r matches Ok(x) && x is Some) <==> received is Ok && messages::ack_decoded(
            received->Ok_0@,
        ) is Ok,
        r matches Ok(Some(effect)) ==> sink::acked(
            before,
            messages::ack_decoded(received->Ok_0@)->Ok_0,
            after,
            effect,
        ),
        received matches Err(e) ==> (!(e is ChannelEmpty) ==> r == Err::<
            Option<AckEffect>,
            TesseraSinkError,
        >(TesseraSinkError::Channel(e))),
        !(r matches Ok(x) && x is Some) ==> after == before,
{
}

} // verus!
