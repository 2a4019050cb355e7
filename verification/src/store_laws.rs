//! What holds of every store, stated over the same spec functions as the
//! contracts of the store's operations.

use crate::job::JobView;
use crate::status::Status;
use crate::store::{
    expired, finished, found_by_id, has_key, in_status, insert_refusal, lemma_insert_keeps_rules,
    lemma_slot_parts, listed, newest_first, recovered, slot_for, started, store_wf, unexpired,
    with_id, with_id_prefix, with_job,
};
use crate::time::Timestamp;
use vstd::prelude::*;

verus! {

/// A stored job has an end time exactly when its status is terminal.
pub proof fn lemma_finished_iff_terminal(jobs: Seq<JobView>, i: int)
    requires
        store_wf(jobs),
        0 <= i < jobs.len(),
    ensures
        jobs[i].status.terminal() <==> jobs[i].finished_at is Some,
{
}

/// A stored job that runs has a process id and a start time.
pub proof fn lemma_running_has_process(jobs: Seq<JobView>, i: int)
    requires
        store_wf(jobs),
        0 <= i < jobs.len(),
        jobs[i].status == Status::Running,
    ensures
        jobs[i].pid is Some,
        jobs[i].started_at is Some,
{
}

/// A stored job that is pending has not started, has not ended, and has
/// neither a process nor an exit code.
pub proof fn lemma_pending_is_blank(jobs: Seq<JobView>, i: int)
    requires
        store_wf(jobs),
        0 <= i < jobs.len(),
        jobs[i].status == Status::Pending,
    ensures
        jobs[i].started_at is None,
        jobs[i].finished_at is None,
        jobs[i].pid is None,
        jobs[i].exit_code is None,
{
}

/// The times of a stored job follow one another: created, started, finished.
pub proof fn lemma_times_in_order(jobs: Seq<JobView>, i: int)
    requires
        store_wf(jobs),
        0 <= i < jobs.len(),
    ensures
        jobs[i].started_at matches Some(started) ==> jobs[i].created_at.at_or_before(started),
        jobs[i].finished_at matches Some(ended) ==> jobs[i].created_at.at_or_before(ended),
        jobs[i].started_at matches Some(started) ==> (jobs[i].finished_at matches Some(ended)
            ==> started.at_or_before(ended)),
{
}

/// No two stored jobs share an id, and no two share an idempotency key.
pub proof fn lemma_id_and_key_name_one_job(jobs: Seq<JobView>, i: int, j: int)
    requires
        store_wf(jobs),
        0 <= i < jobs.len(),
        0 <= j < jobs.len(),
        i != j,
    ensures
        jobs[i].id != jobs[j].id,
        jobs[i].idempotency_key is Some ==> jobs[i].idempotency_key != jobs[j].idempotency_key,
{
    if i < j {
        assert(jobs[i].id != jobs[j].id);
    } else {
        assert(jobs[j].id != jobs[i].id);
        if jobs[j].idempotency_key is Some {
            assert(jobs[j].idempotency_key != jobs[i].idempotency_key);
        }
    }
}

/// Where one job alone meets a condition, a filter on it keeps that job alone.
pub proof fn lemma_filter_single(jobs: Seq<JobView>, pred: spec_fn(JobView) -> bool, i: int)
    requires
        0 <= i < jobs.len(),
        pred(jobs[i]),
        forall|k: int| 0 <= k < jobs.len() && k != i ==> !pred(#[trigger] jobs[k]),
    ensures
        jobs.filter(pred) == seq![jobs[i]],
    decreases jobs.len(),
{
    reveal(Seq::filter);
    let front = jobs.drop_last();
    if i == jobs.len() - 1 {
        assert forall|k: int| 0 <= k < front.len() implies !pred(#[trigger] front[k]) by {
            assert(front[k] == jobs[k]);
        }
        front.lemma_all_neg_filter_empty(pred);
        assert(jobs.filter(pred) =~= seq![jobs[i]]);
    } else {
        assert(front[i] == jobs[i]);
        assert forall|k: int| 0 <= k < front.len() && k != i implies !pred(
            #[trigger] front[k],
        ) by {
            assert(front[k] == jobs[k]);
        }
        lemma_filter_single(front, pred, i);
    }
}

/// A job that has gone in is found again as it went in: by its full id, and
/// by any beginning of its id that no other stored id shares or equals.
pub proof fn lemma_insert_then_get(jobs: Seq<JobView>, job: JobView, prefix: Seq<char>)
    requires
        store_wf(jobs),
        insert_refusal(jobs, job) is None,
        prefix.len() >= 1,
        prefix.is_prefix_of(job.id),
        forall|k: int| 0 <= k < jobs.len() ==> !prefix.is_prefix_of((#[trigger] jobs[k]).id),
    ensures
        found_by_id(with_job(jobs, job), job.id) == Ok::<Option<JobView>, Seq<Seq<char>>>(
            Some(job),
        ),
        found_by_id(with_job(jobs, job), prefix) == Ok::<Option<JobView>, Seq<Seq<char>>>(
            Some(job),
        ),
{
    let after = with_job(jobs, job);
    let p = slot_for(jobs, job.created_at);
    lemma_slot_parts(jobs, job.created_at);
    assert(after[p] == job);
    assert forall|k: int| 0 <= k < after.len() && k != p implies !with_id(job.id)(
        #[trigger] after[k],
    ) && !with_id_prefix(prefix)(after[k]) && !with_id(prefix)(after[k]) by {
        let o = if k < p {
            k
        } else {
            k - 1
        };
        assert(after[k] == jobs[o]);
        assert(jobs[o].id != job.id);
        assert(!prefix.is_prefix_of(jobs[o].id));
        if jobs[o].id == prefix {
            assert(prefix.is_prefix_of(jobs[o].id));
        }
    }
    lemma_filter_single(after, with_id(job.id), p);
    lemma_filter_single(after, with_id_prefix(prefix), p);
    if job.id == prefix {
    } else {
        assert forall|k: int| 0 <= k < after.len() implies !with_id(prefix)(
            #[trigger] after[k],
        ) by {
            if k == p {
            }
        }
        after.lemma_all_neg_filter_empty(with_id(prefix));
    }
}

/// A job that has gone in with an idempotency key is the one job under that key.
pub proof fn lemma_insert_then_get_by_key(jobs: Seq<JobView>, job: JobView, found: JobView)
    requires
        store_wf(jobs),
        insert_refusal(jobs, job) is None,
        job.idempotency_key is Some,
        with_job(jobs, job).contains(found),
        found.idempotency_key == job.idempotency_key,
    ensures
        has_key(with_job(jobs, job), job.idempotency_key->0),
        found == job,
{
    let after = with_job(jobs, job);
    let p = slot_for(jobs, job.created_at);
    lemma_slot_parts(jobs, job.created_at);
    lemma_insert_keeps_rules(jobs, job);
    assert(after[p] == job);
    let k = choose|k: int| 0 <= k < after.len() && after[k] == found;
    if k != p {
        lemma_id_and_key_name_one_job(after, p, k);
    }
}

/// A job's status only moves forward: a pending job that starts runs; a
/// job that has not ended and is finished has ended, and so has every job
/// after recovery; and recovery leaves a job that has ended as it is. Each
/// step leaves a consistent record consistent.
pub proof fn lemma_status_moves_forward(
    job: JobView,
    pid: u32,
    status: Status,
    exit_code: Option<i32>,
    now: Timestamp,
)
    requires
        job.wf(),
    ensures
        job.status is Pending ==> started(job, pid, now).status is Running && started(
            job,
            pid,
            now,
        ).wf(),
        !job.status.terminal() && status.terminal() ==> finished(job, status, exit_code, now).status
            == status && finished(job, status, exit_code, now).wf(),
        recovered(job, now).status.terminal() && recovered(job, now).wf(),
        job.status.terminal() ==> recovered(job, now) == job,
        !job.status.terminal() ==> recovered(job, now).status is Interrupted && recovered(
            job,
            now,
        ).exit_code is None,
{
}

/// What a filter keeps of jobs that stand newest first stands newest first.
pub proof fn lemma_filter_keeps_order(jobs: Seq<JobView>, pred: spec_fn(JobView) -> bool)
    requires
        newest_first(jobs),
    ensures
        newest_first(jobs.filter(pred)),
        forall|k: int|
            0 <= k < jobs.filter(pred).len() ==> jobs.contains(#[trigger] jobs.filter(pred)[k])
                && pred(jobs.filter(pred)[k]),
    decreases jobs.len(),
{
    reveal(Seq::filter);
    let kept = jobs.filter(pred);
    if jobs.len() > 0 {
        let front = jobs.drop_last();
        assert forall|i: int, j: int| 0 <= i < j < front.len() implies front[j].created_at.at_or_before(
            front[i].created_at,
        ) by {
            assert(front[i] == jobs[i] && front[j] == jobs[j]);
        }
        lemma_filter_keeps_order(front, pred);
        let sub = front.filter(pred);
        assert forall|k: int| 0 <= k < sub.len() implies jobs.contains(#[trigger] sub[k]) by {
            assert(front.contains(sub[k]));
            let o = choose|o: int| 0 <= o < front.len() && front[o] == sub[k];
            assert(jobs[o] == sub[k]);
        }
        if pred(jobs.last()) {
            assert(kept == sub.push(jobs.last()));
            assert(jobs[jobs.len() - 1] == jobs.last());
            assert forall|a: int, b: int| 0 <= a < b < kept.len() implies kept[b].created_at.at_or_before(
                kept[a].created_at,
            ) by {
                if b == kept.len() - 1 {
                    assert(front.contains(sub[a]));
                    let o = choose|o: int| 0 <= o < front.len() && front[o] == sub[a];
                    assert(jobs[o] == sub[a]);
                    assert(jobs[jobs.len() - 1].created_at.at_or_before(jobs[o].created_at));
                } else {
                    assert(kept[a] == sub[a] && kept[b] == sub[b]);
                }
            }
            assert forall|k: int| 0 <= k < kept.len() implies jobs.contains(#[trigger] kept[k])
                && pred(kept[k]) by {
                if k < sub.len() {
                    assert(kept[k] == sub[k]);
                }
            }
        } else {
            assert(kept == sub);
        }
    }
}

/// A listing shows stored jobs in the status asked for, newest first, and
/// no more of them than the limit allows.
pub proof fn lemma_listing(jobs: Seq<JobView>, status: Option<Status>, limit: Option<usize>)
    requires
        store_wf(jobs),
    ensures
        newest_first(listed(jobs, status, limit)),
        limit matches Some(n) ==> listed(jobs, status, limit).len() <= n,
        forall|k: int|
            0 <= k < listed(jobs, status, limit).len() ==> {
                &&& jobs.contains(#[trigger] listed(jobs, status, limit)[k])
                &&& status matches Some(s) ==> listed(jobs, status, limit)[k].status == s
            },
{
    lemma_filter_keeps_order(jobs, in_status(status));
    let all = jobs.filter(in_status(status));
    let shown = listed(jobs, status, limit);
    assert forall|k: int| 0 <= k < shown.len() implies shown[k] == all[k] by {}
    assert forall|a: int, b: int| 0 <= a < b < shown.len() implies shown[b].created_at.at_or_before(
        shown[a].created_at,
    ) by {
        assert(shown[a] == all[a] && shown[b] == all[b]);
    }
    assert forall|k: int| 0 <= k < shown.len() implies {
        &&& jobs.contains(#[trigger] shown[k])
        &&& status matches Some(s) ==> shown[k].status == s
    } by {
        assert(shown[k] == all[k]);
        assert(jobs.contains(all[k]) && in_status(status)(all[k]));
    }
}

/// Cleaning never removes a job that has not ended, whatever the cutoff
/// and the status asked for.
pub proof fn lemma_clean_spares_unfinished(
    jobs: Seq<JobView>,
    before: Timestamp,
    status: Option<Status>,
    i: int,
)
    requires
        0 <= i < jobs.len(),
        !jobs[i].status.terminal(),
    ensures
        !expired(before, status)(jobs[i]),
        jobs.filter(unexpired(before, status)).contains(jobs[i]),
{
    jobs.lemma_filter_contains(unexpired(before, status), i);
}

} // verus!
