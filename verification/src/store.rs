//! The job store: every job ever submitted, newest first, under the rules
//! that keep the records consistent.

use crate::job::{views, Job, JobView};
use crate::status::Status;
use crate::text::{chars_eq, chars_of, starts_with, texts};
use crate::time::{now, Timestamp};
use vstd::prelude::*;

verus! {

/// Why the store refused an operation.
#[derive(Debug)]
pub enum StoreError {
    /// No job answers to the id or name that was given.
    NotFound,
    /// More than one job answers; the ids of those that do.
    Ambiguous(Vec<String>),
    /// A job with this id is already stored.
    DuplicateId,
    /// A job with this idempotency key is already stored.
    DuplicateKey,
    /// The record is not consistent in itself.
    InvalidJob,
    /// The job is not in a status from which this transition leaves.
    InvalidTransition,
}

impl StoreError {
    /// The one-line message of the error.
    pub open spec fn text(self) -> Seq<char> {
        match self {
            StoreError::NotFound => "No job found"@,
            StoreError::Ambiguous(_) => "Ambiguous job ID or name"@,
            StoreError::DuplicateId => "A job with this ID already exists"@,
            StoreError::DuplicateKey => "A job with this idempotency key already exists"@,
            StoreError::InvalidJob => "The job record is inconsistent"@,
            StoreError::InvalidTransition => "The job is not in a state that allows this"@,
        }
    }

    /// The one-line message of the error.
    pub fn message(&self) -> (s: String)
        ensures
            s@ == self.text(),
    {
        match self {
            StoreError::NotFound => "No job found".to_string(),
            StoreError::Ambiguous(_) => "Ambiguous job ID or name".to_string(),
            StoreError::DuplicateId => "A job with this ID already exists".to_string(),
            StoreError::DuplicateKey => "A job with this idempotency key already exists".to_string(),
            StoreError::InvalidJob => "The job record is inconsistent".to_string(),
            StoreError::InvalidTransition => "The job is not in a state that allows this".to_string(),
        }
    }

    /// What the user is told where a lookup of `what` failed with this error.
    pub fn describe(&self, what: &str) -> (s: String)
        ensures
            s@ == lookup_failure(what@, *self),
    {
        match self {
            StoreError::NotFound => "No job found with ID or name '".to_string().concat(
                what,
            ).concat("'"),
            StoreError::Ambiguous(ids) => "Ambiguous job ID or name '".to_string().concat(
                what,
            ).concat("': ").concat(join_with_commas(ids).as_str()),
            _ => self.message(),
        }
    }
}

/// The texts given, with a comma and a blank between each two.
pub open spec fn comma_list(items: Seq<Seq<char>>) -> Seq<char>
    decreases items.len(),
{
    if items.len() == 0 {
        Seq::empty()
    } else if items.len() == 1 {
        items[0]
    } else {
        comma_list(items.drop_last()) + ", "@ + items.last()
    }
}

/// What the user is told of a lookup that failed: that nothing answers to
/// what was asked for, or which jobs do.
pub open spec fn lookup_failure(what: Seq<char>, e: StoreError) -> Seq<char> {
    match e {
        StoreError::NotFound => "No job found with ID or name '"@ + what + "'"@,
        StoreError::Ambiguous(ids) => "Ambiguous job ID or name '"@ + what + "': "@ + comma_list(
            texts(ids@),
        ),
        _ => e.text(),
    }
}

/// The texts given, with a comma and a blank between each two.
pub fn join_with_commas(items: &Vec<String>) -> (r: String)
    ensures
        r@ == comma_list(texts(items@)),
{
    let ghost all = texts(items@);
    let mut r = String::new();
    let mut i: usize = 0;
    assert(all.take(0) =~= Seq::<Seq<char>>::empty());
    while i < items.len()
        invariant
            i <= items.len(),
            all == texts(items@),
            r@ == comma_list(all.take(i as int)),
        decreases items.len() - i,
    {
        proof {
            assert(all.take(i + 1).drop_last() =~= all.take(i as int));
            assert(all.take(i + 1).last() == items@[i as int]@);
        }
        if i > 0 {
            r = r.concat(", ");
        } else {
            assert(r@ =~= Seq::<char>::empty());
        }
        r = r.concat(items[i].as_str());
        proof {
            if i == 0 {
                assert(all.take(1)[0] == items@[0]@);
                assert(r@ =~= items@[0]@);
            }
        }
        i += 1;
    }
    assert(all.take(items.len() as int) =~= all);
    r
}

/// No two jobs have the same id.
pub open spec fn ids_unique(jobs: Seq<JobView>) -> bool {
    forall|i: int, j: int| 0 <= i < j < jobs.len() ==> jobs[i].id != jobs[j].id
}

/// No two jobs have the same idempotency key.
pub open spec fn keys_unique(jobs: Seq<JobView>) -> bool {
    forall|i: int, j: int|
        0 <= i < j < jobs.len() && jobs[i].idempotency_key is Some ==> jobs[i].idempotency_key
            != jobs[j].idempotency_key
}

/// The jobs stand in the order of their creation, the newest first.
pub open spec fn newest_first(jobs: Seq<JobView>) -> bool {
    forall|i: int, j: int|
        0 <= i < j < jobs.len() ==> jobs[j].created_at.at_or_before(jobs[i].created_at)
}

/// What holds of the stored jobs at all times.
pub open spec fn store_wf(jobs: Seq<JobView>) -> bool {
    &&& forall|i: int| 0 <= i < jobs.len() ==> (#[trigger] jobs[i]).wf()
    &&& ids_unique(jobs)
    &&& keys_unique(jobs)
    &&& newest_first(jobs)
}

/// Some job has this id.
pub open spec fn has_id(jobs: Seq<JobView>, id: Seq<char>) -> bool {
    exists|i: int| 0 <= i < jobs.len() && (#[trigger] jobs[i]).id == id
}

/// Some job has this idempotency key.
pub open spec fn has_key(jobs: Seq<JobView>, key: Seq<char>) -> bool {
    exists|i: int| 0 <= i < jobs.len() && (#[trigger] jobs[i]).idempotency_key == Some(key)
}

/// Where a job created at `t` goes: behind every job that is not older than it.
pub open spec fn slot_for(jobs: Seq<JobView>, t: Timestamp) -> int
    decreases jobs.len(),
{
    if jobs.len() == 0 {
        0
    } else if jobs.last().created_at.before(t) {
        slot_for(jobs.drop_last(), t)
    } else {
        jobs.len() as int
    }
}

/// In a store that is in order, the slot parts the jobs that are not older
/// than `t` from those that are.
pub proof fn lemma_slot_parts(jobs: Seq<JobView>, t: Timestamp)
    requires
        newest_first(jobs),
    ensures
        0 <= slot_for(jobs, t) <= jobs.len(),
        forall|i: int| 0 <= i < slot_for(jobs, t) ==> t.at_or_before((#[trigger] jobs[i]).created_at),
        forall|i: int|
            slot_for(jobs, t) <= i < jobs.len() ==> (#[trigger] jobs[i]).created_at.before(t),
    decreases jobs.len(),
{
    if jobs.len() > 0 && jobs.last().created_at.before(t) {
        lemma_slot_parts(jobs.drop_last(), t);
        assert forall|i: int| slot_for(jobs, t) <= i < jobs.len() implies (
        #[trigger] jobs[i]).created_at.before(t) by {
            if i < jobs.len() - 1 {
                assert(jobs.drop_last()[i] == jobs[i]);
            }
        }
        assert forall|i: int| 0 <= i < slot_for(jobs, t) implies t.at_or_before(
            (#[trigger] jobs[i]).created_at,
        ) by {
            assert(jobs.drop_last()[i] == jobs[i]);
        }
    } else if jobs.len() > 0 {
        assert forall|i: int| 0 <= i < jobs.len() implies t.at_or_before(
            (#[trigger] jobs[i]).created_at,
        ) by {
            if i < jobs.len() - 1 {
                assert(jobs.last().created_at.at_or_before(jobs[i].created_at));
            }
        }
    }
}

/// The error that keeps `job` out of `jobs`, if any: an inconsistent record
/// first, then a taken id, then a taken idempotency key.
pub open spec fn insert_refusal(jobs: Seq<JobView>, job: JobView) -> Option<StoreError> {
    if !job.wf() {
        Some(StoreError::InvalidJob)
    } else if has_id(jobs, job.id) {
        Some(StoreError::DuplicateId)
    } else if job.idempotency_key is Some && has_key(jobs, job.idempotency_key->0) {
        Some(StoreError::DuplicateKey)
    } else {
        None
    }
}

/// The stored jobs after `job` has gone in.
pub open spec fn with_job(jobs: Seq<JobView>, job: JobView) -> Seq<JobView> {
    jobs.insert(slot_for(jobs, job.created_at), job)
}

/// Putting an admissible job in its slot keeps the store's rules.
pub proof fn lemma_insert_keeps_rules(jobs: Seq<JobView>, job: JobView)
    requires
        store_wf(jobs),
        insert_refusal(jobs, job) is None,
    ensures
        store_wf(with_job(jobs, job)),
{
    let p = slot_for(jobs, job.created_at);
    lemma_slot_parts(jobs, job.created_at);
    let after = with_job(jobs, job);
    assert forall|i: int| 0 <= i < after.len() implies (#[trigger] after[i]).wf() by {
        if i < p {
            assert(after[i] == jobs[i]);
        } else if i > p {
            assert(after[i] == jobs[i - 1]);
        }
    }
    assert forall|i: int, j: int| 0 <= i < j < after.len() implies after[i].id != after[j].id
        && (after[i].idempotency_key is Some ==> after[i].idempotency_key
        != after[j].idempotency_key) && after[j].created_at.at_or_before(after[i].created_at) by {
        let oi = if i < p {
            i
        } else {
            i - 1
        };
        let oj = if j < p {
            j
        } else {
            j - 1
        };
        if i != p {
            assert(after[i] == jobs[oi]);
        }
        if j != p {
            assert(after[j] == jobs[oj]);
        }
    }
}

/// The job has exactly this id.
pub open spec fn with_id(id: Seq<char>) -> spec_fn(JobView) -> bool {
    |j: JobView| j.id == id
}

/// The job's id begins with this text.
pub open spec fn with_id_prefix(prefix: Seq<char>) -> spec_fn(JobView) -> bool {
    |j: JobView| prefix.is_prefix_of(j.id)
}

/// The job has this name.
pub open spec fn with_name(name: Seq<char>) -> spec_fn(JobView) -> bool {
    |j: JobView| j.name == Some(name)
}

/// The job has this idempotency key.
pub open spec fn with_key(key: Seq<char>) -> spec_fn(JobView) -> bool {
    |j: JobView| j.idempotency_key == Some(key)
}

/// The job is in this status, or no status is asked for.
pub open spec fn in_status(status: Option<Status>) -> spec_fn(JobView) -> bool {
    |j: JobView| status is None || status == Some(j.status)
}

/// The ids of a run of jobs.
pub open spec fn ids_of(jobs: Seq<JobView>) -> Seq<Seq<char>> {
    jobs.map_values(|j: JobView| j.id)
}

/// What a lookup by id or id prefix finds: the job with exactly this id;
/// failing that, the one job whose id begins with it; nothing where no id
/// does; and the ids of all that do where there are several.
pub open spec fn found_by_id(jobs: Seq<JobView>, key: Seq<char>) -> Result<
    Option<JobView>,
    Seq<Seq<char>>,
> {
    let exact = jobs.filter(with_id(key));
    let by_prefix = jobs.filter(with_id_prefix(key));
    if exact.len() > 0 {
        Ok(Some(exact[0]))
    } else if by_prefix.len() == 0 {
        Ok(None)
    } else if by_prefix.len() == 1 {
        Ok(Some(by_prefix[0]))
    } else {
        Err(ids_of(by_prefix))
    }
}

/// What a listing shows: the jobs in the status asked for, newest first, and
/// no more of them than the limit allows.
pub open spec fn listed(jobs: Seq<JobView>, status: Option<Status>, limit: Option<usize>) -> Seq<
    JobView,
> {
    let all = jobs.filter(in_status(status));
    match limit {
        Some(n) => if n < all.len() {
            all.take(n as int)
        } else {
            all
        },
        None => all,
    }
}

/// Filtering one job more either adds that job or changes nothing.
pub proof fn lemma_filter_step(jobs: Seq<JobView>, pred: spec_fn(JobView) -> bool, i: int)
    requires
        0 <= i < jobs.len(),
    ensures
        jobs.take(i + 1).filter(pred) == if pred(jobs[i]) {
            jobs.take(i).filter(pred).push(jobs[i])
        } else {
            jobs.take(i).filter(pred)
        },
{
    reveal(Seq::filter);
    assert(jobs.take(i + 1).drop_last() == jobs.take(i));
    assert(jobs.take(i + 1).last() == jobs[i]);
}

/// A filter keeps nothing of nothing.
pub proof fn lemma_filter_nothing(jobs: Seq<JobView>, pred: spec_fn(JobView) -> bool)
    ensures
        jobs.take(0).filter(pred) == Seq::<JobView>::empty(),
{
    reveal(Seq::filter);
    assert(jobs.take(0).len() == 0);
}

/// What a filter keeps of the whole begins with what it keeps of a front part.
pub proof fn lemma_filter_front(jobs: Seq<JobView>, pred: spec_fn(JobView) -> bool, i: int)
    requires
        0 <= i <= jobs.len(),
    ensures
        jobs.take(i).filter(pred).is_prefix_of(jobs.filter(pred)),
        jobs.take(jobs.len() as int) == jobs,
{
    assert(jobs == jobs.take(i) + jobs.skip(i));
    Seq::filter_distributes_over_add(jobs.take(i), jobs.skip(i), pred);
    assert(jobs.take(jobs.len() as int) == jobs);
}

/// The job stored under exactly this id, if there is one.
pub open spec fn job_at(jobs: Seq<JobView>, id: Seq<char>) -> Option<JobView> {
    if has_id(jobs, id) {
        Some(jobs[choose|i: int| 0 <= i < jobs.len() && (#[trigger] jobs[i]).id == id])
    } else {
        None
    }
}

/// The stored jobs with `new` in the place of the job that has its id.
pub open spec fn put(jobs: Seq<JobView>, new: JobView) -> Seq<JobView> {
    jobs.map_values(
        |j: JobView|
            if j.id == new.id {
                new
            } else {
                j
            },
    )
}

/// The record of a pending job once its process runs. The start time is the
/// clock's reading, or the creation time where the clock reads earlier.
pub open spec fn started(job: JobView, pid: u32, now: Timestamp) -> JobView {
    JobView {
        status: Status::Running,
        pid: Some(pid),
        started_at: Some(now.later_of(job.created_at)),
        ..job
    }
}

/// The last time on record for a job that has not finished.
pub open spec fn last_seen(job: JobView) -> Timestamp {
    match job.started_at {
        Some(started) => started,
        None => job.created_at,
    }
}

/// The record of a job once it has ended. The end time is the clock's
/// reading, or the job's last recorded time where the clock reads earlier.
pub open spec fn finished(
    job: JobView,
    status: Status,
    exit_code: Option<i32>,
    now: Timestamp,
) -> JobView {
    JobView { status, exit_code, finished_at: Some(now.later_of(last_seen(job))), ..job }
}

/// What becomes of a job found unfinished when the daemon starts: it is
/// recorded as interrupted, without an exit code. A finished job stays as it is.
pub open spec fn recovered(job: JobView, now: Timestamp) -> JobView {
    if job.status.terminal() {
        job
    } else {
        finished(job, Status::Interrupted, None, now)
    }
}

/// The job may be cleaned away: it has finished before `before`, in the
/// status asked for if one is.
pub open spec fn expired(before: Timestamp, status: Option<Status>) -> spec_fn(JobView) -> bool {
    |j: JobView|
        j.status.terminal() && (j.finished_at matches Some(at) && at.before(before)) && (status
            is None || status == Some(j.status))
}

/// The job is not to be cleaned away.
pub open spec fn unexpired(before: Timestamp, status: Option<Status>) -> spec_fn(JobView) -> bool {
    |j: JobView| !expired(before, status)(j)
}

/// In a store under its rules an id names one place only.
pub proof fn lemma_job_at(jobs: Seq<JobView>, i: int)
    requires
        ids_unique(jobs),
        0 <= i < jobs.len(),
    ensures
        job_at(jobs, jobs[i].id) == Some(jobs[i]),
{
    let id = jobs[i].id;
    let c = choose|c: int| 0 <= c < jobs.len() && (#[trigger] jobs[c]).id == id;
    assert(c == i) by {
        if c < i {
            assert(jobs[c].id != jobs[i].id);
        } else if i < c {
            assert(jobs[i].id != jobs[c].id);
        }
    }
}

/// Replacing a job by a consistent record with the same id, key and creation
/// time keeps the store's rules, and changes that one place only.
pub proof fn lemma_put_keeps_rules(jobs: Seq<JobView>, i: int, new: JobView)
    requires
        store_wf(jobs),
        0 <= i < jobs.len(),
        new.wf(),
        new.id == jobs[i].id,
        new.idempotency_key == jobs[i].idempotency_key,
        new.created_at == jobs[i].created_at,
    ensures
        put(jobs, new) == jobs.update(i, new),
        store_wf(put(jobs, new)),
{
    let after = put(jobs, new);
    assert forall|k: int| 0 <= k < jobs.len() implies after[k] == jobs.update(i, new)[k] by {
        if k < i {
            assert(jobs[k].id != jobs[i].id);
        } else if i < k {
            assert(jobs[i].id != jobs[k].id);
        }
    }
    assert(after =~= jobs.update(i, new));
    assert forall|a: int, b: int| 0 <= a < b < after.len() implies after[a].id != after[b].id && (
    after[a].idempotency_key is Some ==> after[a].idempotency_key != after[b].idempotency_key)
        && after[b].created_at.at_or_before(after[a].created_at) by {
        assert(after[a].id == jobs[a].id && after[b].id == jobs[b].id);
        assert(after[a].idempotency_key == jobs[a].idempotency_key);
        assert(after[b].idempotency_key == jobs[b].idempotency_key);
    }
    assert forall|k: int| 0 <= k < after.len() implies (#[trigger] after[k]).wf() by {
        if k != i {
            assert(after[k] == jobs[k]);
        }
    }
}

/// Every job as `recovered` leaves it.
pub open spec fn all_recovered(jobs: Seq<JobView>, now: Timestamp) -> Seq<JobView> {
    jobs.map_values(|j: JobView| recovered(j, now))
}

/// What resolving an id or a name finds: what the lookup by id finds; where
/// that finds nothing, the one job of that name. It fails where neither
/// finds a job, and where several jobs answer.
pub open spec fn resolved(jobs: Seq<JobView>, key: Seq<char>) -> Result<JobView, Option<Seq<Seq<char>>>> {
    match found_by_id(jobs, key) {
        Ok(Some(job)) => Ok(job),
        Err(ids) => Err(Some(ids)),
        Ok(None) => {
            let named = jobs.filter(with_name(key));
            if named.len() == 0 {
                Err(None)
            } else if named.len() == 1 {
                Ok(named[0])
            } else {
                Err(Some(ids_of(named)))
            }
        },
    }
}

/// What loading a run of records yields: the store after each has gone in
/// in turn, or the error of the first that is refused.
pub open spec fn loaded(jobs: Seq<JobView>) -> Result<Seq<JobView>, StoreError>
    decreases jobs.len(),
{
    if jobs.len() == 0 {
        Ok(Seq::empty())
    } else {
        match loaded(jobs.drop_last()) {
            Err(e) => Err(e),
            Ok(stored) => match insert_refusal(stored, jobs.last()) {
                Some(e) => Err(e),
                None => Ok(with_job(stored, jobs.last())),
            },
        }
    }
}

/// Jobs picked from a store in their order keep the store's rules.
pub proof fn lemma_picked_keep_rules(jobs: Seq<JobView>, picked: Seq<JobView>, from: Seq<int>)
    requires
        store_wf(jobs),
        from.len() == picked.len(),
        forall|k: int| 0 <= k < from.len() ==> 0 <= #[trigger] from[k] < jobs.len() && picked[k] == jobs[from[k]],
        forall|a: int, b: int| 0 <= a < b < from.len() ==> from[a] < from[b],
    ensures
        store_wf(picked),
{
    assert forall|k: int| 0 <= k < picked.len() implies (#[trigger] picked[k]).wf() by {
        assert(picked[k] == jobs[from[k]]);
    }
    assert(ids_unique(picked)) by {
        assert forall|a: int, b: int| 0 <= a < b < picked.len() implies picked[a].id
            != picked[b].id by {
            assert(picked[a] == jobs[from[a]] && picked[b] == jobs[from[b]]);
            assert(from[a] < from[b]);
        }
    }
    assert(keys_unique(picked)) by {
        assert forall|a: int, b: int|
            0 <= a < b < picked.len() && picked[a].idempotency_key is Some implies picked[a].idempotency_key
            != picked[b].idempotency_key by {
            assert(picked[a] == jobs[from[a]] && picked[b] == jobs[from[b]]);
            assert(from[a] < from[b]);
        }
    }
    assert(newest_first(picked)) by {
        assert forall|a: int, b: int| 0 <= a < b < picked.len() implies picked[b].created_at.at_or_before(
            picked[a].created_at,
        ) by {
            assert(picked[a] == jobs[from[a]] && picked[b] == jobs[from[b]]);
            assert(from[a] < from[b]);
        }
    }
}

/// Recovery keeps the store's rules and leaves no job unfinished.
pub proof fn lemma_recovery(jobs: Seq<JobView>, now: Timestamp)
    requires
        store_wf(jobs),
    ensures
        store_wf(all_recovered(jobs, now)),
        forall|i: int|
            0 <= i < jobs.len() ==> (#[trigger] all_recovered(jobs, now)[i]).status.terminal(),
{
    let after = all_recovered(jobs, now);
    assert forall|a: int, b: int| 0 <= a < b < after.len() implies after[a].id != after[b].id && (
    after[a].idempotency_key is Some ==> after[a].idempotency_key != after[b].idempotency_key)
        && after[b].created_at.at_or_before(after[a].created_at) by {
        assert(after[a].id == jobs[a].id && after[b].id == jobs[b].id);
        assert(after[a].idempotency_key == jobs[a].idempotency_key);
        assert(after[b].idempotency_key == jobs[b].idempotency_key);
    }
    assert forall|k: int| 0 <= k < after.len() implies (#[trigger] after[k]).wf() by {
        assert(jobs[k].wf());
    }
}

/// Once a front part of the records fails to load, so does the whole, and
/// with the same error.
pub proof fn lemma_load_fails_on(jobs: Seq<JobView>, n: int)
    requires
        0 <= n <= jobs.len(),
        loaded(jobs.take(n)) is Err,
    ensures
        loaded(jobs) == loaded(jobs.take(n)),
    decreases jobs.len() - n,
{
    if n < jobs.len() {
        assert(jobs.take(n + 1).drop_last() == jobs.take(n));
        lemma_load_fails_on(jobs, n + 1);
    } else {
        assert(jobs.take(n) == jobs);
    }
}

/// In a store under its rules, the job at an id is the stored job with that id.
pub proof fn lemma_job_at_is_member(jobs: Seq<JobView>, id: Seq<char>, job: JobView)
    requires
        ids_unique(jobs),
    ensures
        job_at(jobs, id) == Some(job) <==> jobs.contains(job) && job.id == id,
        job_at(jobs, id) is None <==> !has_id(jobs, id),
{
    if jobs.contains(job) && job.id == id {
        let i = choose|i: int| 0 <= i < jobs.len() && jobs[i] == job;
        lemma_job_at(jobs, i);
    }
    if job_at(jobs, id) == Some(job) {
        let c = choose|c: int| 0 <= c < jobs.len() && (#[trigger] jobs[c]).id == id;
        assert(jobs[c] == job);
    }
}

/// Replacing a job changes what is found at its id, and at no other.
pub proof fn lemma_job_at_after_put(jobs: Seq<JobView>, i: int, new: JobView, id: Seq<char>)
    requires
        store_wf(jobs),
        0 <= i < jobs.len(),
        new.wf(),
        new.id == jobs[i].id,
        new.idempotency_key == jobs[i].idempotency_key,
        new.created_at == jobs[i].created_at,
    ensures
        job_at(put(jobs, new), id) == if id == new.id {
            Some(new)
        } else {
            job_at(jobs, id)
        },
{
    lemma_put_keeps_rules(jobs, i, new);
    let after = put(jobs, new);
    assert(after == jobs.update(i, new));
    if id == new.id {
        assert(after[i] == new);
        lemma_job_at(after, i);
    } else if has_id(jobs, id) {
        let k = choose|k: int| 0 <= k < jobs.len() && (#[trigger] jobs[k]).id == id;
        assert(k != i);
        assert(after[k] == jobs[k]);
        lemma_job_at(jobs, k);
        lemma_job_at(after, k);
    } else {
        assert forall|k: int| 0 <= k < after.len() implies (#[trigger] after[k]).id != id by {
            if k != i {
                assert(after[k] == jobs[k]);
            }
        }
    }
}

/// A job that goes in is found at its id, and changes what is found at no other.
pub proof fn lemma_job_at_after_insert(jobs: Seq<JobView>, new: JobView, id: Seq<char>)
    requires
        store_wf(jobs),
        insert_refusal(jobs, new) is None,
    ensures
        job_at(with_job(jobs, new), id) == if id == new.id {
            Some(new)
        } else {
            job_at(jobs, id)
        },
{
    lemma_insert_keeps_rules(jobs, new);
    lemma_slot_parts(jobs, new.created_at);
    let p = slot_for(jobs, new.created_at);
    let after = with_job(jobs, new);
    assert(after[p] == new);
    if id == new.id {
        lemma_job_at(after, p);
    } else if has_id(jobs, id) {
        let k = choose|k: int| 0 <= k < jobs.len() && (#[trigger] jobs[k]).id == id;
        let k2 = if k < p {
            k
        } else {
            k + 1
        };
        assert(after[k2] == jobs[k]);
        lemma_job_at(jobs, k);
        lemma_job_at(after, k2);
    } else {
        assert forall|k: int| 0 <= k < after.len() implies (#[trigger] after[k]).id != id by {
            if k < p {
                assert(after[k] == jobs[k]);
            } else if k > p {
                assert(after[k] == jobs[k - 1]);
            }
        }
    }
}

/// Whether a listing of `len` jobs may still grow under `limit`.
fn has_room(len: usize, limit: Option<usize>) -> (r: bool)
    ensures
        r == (limit matches Some(n) ==> len < n),
{
    match limit {
        Some(n) => len < n,
        None => true,
    }
}

/// The jobs of a store, newest first.
pub struct JobStore {
    jobs: Vec<Job>,
}

impl View for JobStore {
    type V = Seq<JobView>;

    closed spec fn view(&self) -> Seq<JobView> {
        views(self.jobs@)
    }
}

impl JobStore {
    #[verifier::type_invariant]
    closed spec fn inv(self) -> bool {
        store_wf(self@)
    }

    /// An empty store.
    pub fn new() -> (store: JobStore)
        ensures
            store@ == Seq::<JobView>::empty(),
            store_wf(store@),
    {
        let store = JobStore { jobs: Vec::new() };
        assert(store@ =~= Seq::<JobView>::empty());
        store
    }

    /// The rules of the store hold of every store there is.
    pub fn rules_hold(&self)
        ensures
            store_wf(self@),
    {
        proof {
            use_type_invariant(self);
        }
    }

    /// Whether some stored job has this id.
    fn holds_id(jobs: &Vec<Job>, id: &String) -> (r: bool)
        ensures
            r == has_id(views(jobs@), id@),
    {
        let ghost view = views(jobs@);
        let mut i: usize = 0;
        while i < jobs.len()
            invariant
                i <= jobs.len(),
                view == views(jobs@),
                forall|k: int| 0 <= k < i ==> (#[trigger] view[k]).id != id@,
            decreases jobs.len() - i,
        {
            if jobs[i].id == *id {
                assert(view[i as int].id == id@);
                return true;
            }
            i += 1;
        }
        false
    }

    /// Whether some stored job has this idempotency key.
    fn holds_key(jobs: &Vec<Job>, key: &String) -> (r: bool)
        ensures
            r == has_key(views(jobs@), key@),
    {
        let ghost view = views(jobs@);
        let mut i: usize = 0;
        while i < jobs.len()
            invariant
                i <= jobs.len(),
                view == views(jobs@),
                forall|k: int| 0 <= k < i ==> (#[trigger] view[k]).idempotency_key != Some(key@),
            decreases jobs.len() - i,
        {
            let same = match &jobs[i].idempotency_key {
                Some(k) => *k == *key,
                None => false,
            };
            if same {
                assert(view[i as int].idempotency_key == Some(key@));
                return true;
            }
            i += 1;
        }
        false
    }

    /// The place where a job created at `t` goes.
    fn find_slot(jobs: &Vec<Job>, t: Timestamp) -> (p: usize)
        ensures
            p == slot_for(views(jobs@), t),
            p <= jobs@.len(),
    {
        let ghost all = views(jobs@);
        let mut p: usize = jobs.len();
        assert(all.take(all.len() as int) == all);
        while p > 0 && jobs[p - 1].created_at.is_before(&t)
            invariant
                p <= jobs.len(),
                all == views(jobs@),
                slot_for(all, t) == slot_for(all.take(p as int), t),
            decreases p,
        {
            assert(all.take(p as int).drop_last() == all.take(p - 1));
            assert(all.take(p as int).last() == all[p - 1]);
            p -= 1;
        }
        assert(p == slot_for(all, t)) by {
            if p > 0 {
                assert(all.take(p as int).last() == all[p - 1]);
            }
        }
        p
    }

    /// Stores a new job. An inconsistent record, a taken id and a taken
    /// idempotency key are refused, in that order, and leave the store as it was.
    pub fn insert(&mut self, job: &Job) -> (r: Result<(), StoreError>)
        ensures
            match r {
                Ok(()) => insert_refusal(old(self)@, job@) is None && final(self)@ == with_job(
                    old(self)@,
                    job@,
                ),
                Err(e) => insert_refusal(old(self)@, job@) == Some(e) && final(self)@ == old(
                    self,
                )@,
            },
            store_wf(final(self)@),
    {
        proof {
            use_type_invariant(&*self);
        }
        if !job.is_well_formed() {
            return Err(StoreError::InvalidJob);
        }
        if Self::holds_id(&self.jobs, &job.id) {
            return Err(StoreError::DuplicateId);
        }
        let key_taken = match &job.idempotency_key {
            Some(key) => Self::holds_key(&self.jobs, key),
            None => false,
        };
        if key_taken {
            return Err(StoreError::DuplicateKey);
        }
        let ghost before = self@;
        let mut jobs: Vec<Job> = Vec::new();
        std::mem::swap(&mut jobs, &mut self.jobs);
        assert(views(jobs@) == before);
        let p = Self::find_slot(&jobs, job.created_at);
        jobs.insert(p, job.duplicate());
        proof {
            lemma_insert_keeps_rules(before, job@);
            assert(views(jobs@) =~= with_job(before, job@));
        }
        self.jobs = jobs;
        Ok(())
    }

    /// Looks a job up by its id or by the beginning of its id.
    pub fn get(&self, id_or_prefix: &str) -> (r: Result<Option<Job>, StoreError>)
        ensures
            match r {
                Ok(Some(job)) => found_by_id(self@, id_or_prefix@) == Ok::<
                    Option<JobView>,
                    Seq<Seq<char>>,
                >(Some(job@)),
                Ok(None) => found_by_id(self@, id_or_prefix@) == Ok::<
                    Option<JobView>,
                    Seq<Seq<char>>,
                >(None),
                Err(StoreError::Ambiguous(ids)) => found_by_id(self@, id_or_prefix@) == Err::<
                    Option<JobView>,
                    Seq<Seq<char>>,
                >(texts(ids@)),
                Err(_) => false,
            },
    {
        let key = chars_of(id_or_prefix);
        let ghost all = self@;
        let ghost exact = with_id(id_or_prefix@);
        let ghost prefixed = with_id_prefix(id_or_prefix@);
        let mut found: Vec<usize> = Vec::new();
        let mut i: usize = 0;
        proof {
            lemma_filter_nothing(all, exact);
            lemma_filter_nothing(all, prefixed);
        }
        while i < self.jobs.len()
            invariant
                i <= self.jobs.len(),
                all == views(self.jobs@),
                key@ == id_or_prefix@,
                exact == with_id(id_or_prefix@),
                prefixed == with_id_prefix(id_or_prefix@),
                all.take(i as int).filter(exact).len() == 0,
                found@.len() == all.take(i as int).filter(prefixed).len(),
                forall|k: int|
                    0 <= k < found@.len() ==> 0 <= #[trigger] found@[k] < i && all[found@[k] as int]
                        == all.take(i as int).filter(prefixed)[k],
            decreases self.jobs.len() - i,
        {
            let id = chars_of(self.jobs[i].id.as_str());
            proof {
                lemma_filter_step(all, exact, i as int);
                lemma_filter_step(all, prefixed, i as int);
                lemma_filter_front(all, exact, i + 1);
            }
            if chars_eq(id.as_slice(), key.as_slice()) {
                proof {
                    let front = all.take(i + 1).filter(exact);
                    assert(exact(all[i as int]));
                    assert(front == all.take(i as int).filter(exact).push(all[i as int]));
                    assert(front.len() == 1 && front[0] == all[i as int]);
                    assert(front.is_prefix_of(all.filter(exact)));
                    assert(all.filter(exact)[0] == front[0]);
                }
                return Ok(Some(self.jobs[i].duplicate()));
            }
            if starts_with(id.as_slice(), key.as_slice()) {
                found.push(i);
            }
            i += 1;
        }
        proof {
            lemma_filter_front(all, exact, all.len() as int);
            lemma_filter_front(all, prefixed, all.len() as int);
        }
        if found.len() == 0 {
            Ok(None)
        } else if found.len() == 1 {
            Ok(Some(self.jobs[found[0]].duplicate()))
        } else {
            let mut ids: Vec<String> = Vec::new();
            let mut k: usize = 0;
            let ghost matched = all.filter(prefixed);
            while k < found.len()
                invariant
                    k <= found.len(),
                    all == views(self.jobs@),
                    found@.len() == matched.len(),
                    forall|m: int|
                        0 <= m < found@.len() ==> 0 <= #[trigger] found@[m] < all.len()
                            && all[found@[m] as int] == matched[m],
                    texts(ids@) == ids_of(matched.take(k as int)),
                decreases found.len() - k,
            {
                let ghost before = texts(ids@);
                let id = self.jobs[found[k]].id.clone();
                assert(id@ == all[found@[k as int] as int].id);
                ids.push(id);
                assert(texts(ids@) =~= before.push(matched[k as int].id));
                assert(ids_of(matched.take(k + 1)) =~= ids_of(matched.take(k as int)).push(
                    matched[k as int].id,
                ));
                k += 1;
            }
            assert(matched.take(found.len() as int) == matched);
            Err(StoreError::Ambiguous(ids))
        }
    }

    /// Every job with this name, newest first.
    pub fn get_by_name(&self, name: &str) -> (found: Vec<Job>)
        ensures
            views(found@) == self@.filter(with_name(name@)),
    {
        let wanted = name.to_owned();
        let ghost all = self@;
        let ghost pred = with_name(name@);
        let mut found: Vec<Job> = Vec::new();
        let mut i: usize = 0;
        proof {
            lemma_filter_nothing(all, pred);
        }
        assert(views(found@) =~= all.take(0).filter(pred));
        while i < self.jobs.len()
            invariant
                i <= self.jobs.len(),
                all == views(self.jobs@),
                pred == with_name(name@),
                wanted@ == name@,
                views(found@) == all.take(i as int).filter(pred),
            decreases self.jobs.len() - i,
        {
            let same = match &self.jobs[i].name {
                Some(n) => *n == wanted,
                None => false,
            };
            proof {
                lemma_filter_step(all, pred, i as int);
            }
            if same {
                let ghost before = views(found@);
                found.push(self.jobs[i].duplicate());
                assert(views(found@) =~= before.push(all[i as int]));
            }
            i += 1;
        }
        proof {
            lemma_filter_front(all, pred, all.len() as int);
        }
        found
    }

    /// The job that was submitted under this idempotency key, if there is one.
    pub fn get_by_idempotency_key(&self, key: &str) -> (found: Option<Job>)
        ensures
            match found {
                Some(job) => job@.idempotency_key == Some(key@) && self@.contains(job@),
                None => !has_key(self@, key@),
            },
    {
        let wanted = key.to_owned();
        let ghost all = self@;
        let mut i: usize = 0;
        while i < self.jobs.len()
            invariant
                i <= self.jobs.len(),
                all == views(self.jobs@),
                wanted@ == key@,
                forall|k: int| 0 <= k < i ==> (#[trigger] all[k]).idempotency_key != Some(key@),
            decreases self.jobs.len() - i,
        {
            let same = match &self.jobs[i].idempotency_key {
                Some(k) => *k == wanted,
                None => false,
            };
            if same {
                assert(all[i as int] == self.jobs[i as int]@);
                return Some(self.jobs[i].duplicate());
            }
            i += 1;
        }
        None
    }

    /// The jobs in the given status, or all where none is given, newest
    /// first; with a limit, the first that many of them.
    pub fn list(&self, status: Option<Status>, limit: Option<usize>) -> (shown: Vec<Job>)
        ensures
            views(shown@) == listed(self@, status, limit),
    {
        let ghost all = self@;
        let ghost pred = in_status(status);
        let mut shown: Vec<Job> = Vec::new();
        let mut i: usize = 0;
        proof {
            lemma_filter_nothing(all, pred);
        }
        assert(views(shown@) =~= all.take(0).filter(pred));
        while i < self.jobs.len() && has_room(shown.len(), limit)
            invariant
                i <= self.jobs.len(),
                all == views(self.jobs@),
                pred == in_status(status),
                views(shown@) == all.take(i as int).filter(pred),
                limit matches Some(n) ==> shown@.len() <= n,
            decreases self.jobs.len() - i,
        {
            let wanted = match status {
                Some(s) => s == self.jobs[i].status,
                None => true,
            };
            proof {
                lemma_filter_step(all, pred, i as int);
            }
            if wanted {
                let ghost before = views(shown@);
                shown.push(self.jobs[i].duplicate());
                assert(views(shown@) =~= before.push(all[i as int]));
            }
            i += 1;
        }
        proof {
            lemma_filter_front(all, pred, i as int);
            let kept = all.filter(pred);
            if i < self.jobs.len() {
                assert(views(shown@) =~= kept.take(shown@.len() as int));
            }
        }
        shown
    }

    /// How many jobs are in the given status, or how many there are at all.
    pub fn count(&self, status: Option<Status>) -> (n: usize)
        ensures
            n == self@.filter(in_status(status)).len(),
    {
        let ghost all = self@;
        let ghost pred = in_status(status);
        let mut n: usize = 0;
        let mut i: usize = 0;
        proof {
            lemma_filter_nothing(all, pred);
        }
        while i < self.jobs.len()
            invariant
                i <= self.jobs.len(),
                all == views(self.jobs@),
                pred == in_status(status),
                n == all.take(i as int).filter(pred).len(),
                n <= i,
            decreases self.jobs.len() - i,
        {
            let wanted = match status {
                Some(s) => s == self.jobs[i].status,
                None => true,
            };
            proof {
                lemma_filter_step(all, pred, i as int);
            }
            if wanted {
                n += 1;
            }
            i += 1;
        }
        proof {
            lemma_filter_front(all, pred, all.len() as int);
        }
        n
    }

    /// The place of the job with exactly this id.
    fn index_of(&self, id: &str) -> (r: Option<usize>)
        ensures
            match r {
                Some(i) => i < self@.len() && self@[i as int].id == id@ && job_at(self@, id@)
                    == Some(self@[i as int]) && self.jobs@[i as int]@ == self@[i as int],
                None => job_at(self@, id@) is None,
            },
    {
        proof {
            use_type_invariant(self);
        }
        let wanted = id.to_owned();
        let ghost all = self@;
        let mut i: usize = 0;
        while i < self.jobs.len()
            invariant
                i <= self.jobs.len(),
                all == views(self.jobs@),
                store_wf(all),
                wanted@ == id@,
                forall|k: int| 0 <= k < i ==> (#[trigger] all[k]).id != id@,
            decreases self.jobs.len() - i,
        {
            if self.jobs[i].id == wanted {
                proof {
                    lemma_job_at(all, i as int);
                }
                return Some(i);
            }
            i += 1;
        }
        None
    }

    /// Puts `new` in the place `i`, whose job it stands for.
    fn replace(&mut self, i: usize, new: Job)
        requires
            i < old(self)@.len(),
            new@.wf(),
            new@.id == old(self)@[i as int].id,
            new@.idempotency_key == old(self)@[i as int].idempotency_key,
            new@.created_at == old(self)@[i as int].created_at,
        ensures
            final(self)@ == put(old(self)@, new@),
            store_wf(final(self)@),
    {
        proof {
            use_type_invariant(&*self);
            lemma_put_keeps_rules(self@, i as int, new@);
        }
        let ghost before = self@;
        let mut jobs: Vec<Job> = Vec::new();
        std::mem::swap(&mut jobs, &mut self.jobs);
        jobs.set(i, new);
        assert(views(jobs@) =~= before.update(i as int, new@));
        self.jobs = jobs;
    }

    /// Records that the job's process runs, as of now. See `update_started_at`.
    pub fn update_started(&mut self, id: &str, pid: u32) -> (r: Result<(), StoreError>)
        ensures
            store_wf(final(self)@),
            match r {
                Ok(()) => job_at(old(self)@, id@) matches Some(job) && job.status is Pending
                    && exists|at: Timestamp| final(self)@ == put(old(self)@, started(job, pid, at)),
                Err(StoreError::NotFound) => job_at(old(self)@, id@) is None && final(self)@
                    == old(self)@,
                Err(StoreError::InvalidTransition) => job_at(old(self)@, id@) matches Some(job)
                    && !(job.status is Pending) && final(self)@ == old(self)@,
                Err(_) => false,
            },
    {
        self.update_started_at(id, pid, now())
    }

    /// Takes a pending job to running: records its process and its start
    /// time. A job that is not pending stays as it is.
    pub fn update_started_at(&mut self, id: &str, pid: u32, now: Timestamp) -> (r: Result<
        (),
        StoreError,
    >)
        ensures
            store_wf(final(self)@),
            match r {
                Ok(()) => job_at(old(self)@, id@) matches Some(job) && job.status is Pending
                    && final(self)@ == put(old(self)@, started(job, pid, now)),
                Err(StoreError::NotFound) => job_at(old(self)@, id@) is None && final(self)@
                    == old(self)@,
                Err(StoreError::InvalidTransition) => job_at(old(self)@, id@) matches Some(job)
                    && !(job.status is Pending) && final(self)@ == old(self)@,
                Err(_) => false,
            },
    {
        proof {
            use_type_invariant(&*self);
        }
        let i = match self.index_of(id) {
            Some(i) => i,
            None => {
                return Err(StoreError::NotFound);
            },
        };
        match self.jobs[i].status {
            Status::Pending => {},
            _ => {
                return Err(StoreError::InvalidTransition);
            },
        }
        let mut job = self.jobs[i].duplicate();
        job.status = Status::Running;
        job.pid = Some(pid);
        job.started_at = Some(now.max(job.created_at));
        assert(job@ == started(self@[i as int], pid, now));
        self.replace(i, job);
        Ok(())
    }

    /// Records that the job has ended, as of now. See `update_finished_at`.
    pub fn update_finished(&mut self, id: &str, status: Status, exit_code: Option<i32>) -> (r:
        Result<(), StoreError>)
        ensures
            store_wf(final(self)@),
            match r {
                Ok(()) => job_at(old(self)@, id@) matches Some(job) && status.terminal() && (
                if job.status.terminal() {
                    job.status == status && final(self)@ == put(
                        old(self)@,
                        JobView { exit_code, ..job },
                    )
                } else {
                    exists|at: Timestamp|
                        final(self)@ == put(old(self)@, finished(job, status, exit_code, at))
                }),
                Err(StoreError::NotFound) => job_at(old(self)@, id@) is None && final(self)@
                    == old(self)@,
                Err(StoreError::InvalidTransition) => job_at(old(self)@, id@) matches Some(job)
                    && (!status.terminal() || (job.status.terminal() && job.status != status))
                    && final(self)@ == old(self)@,
                Err(_) => false,
            },
    {
        self.update_finished_at(id, status, exit_code, now())
    }

    /// Takes an unfinished job to the terminal status given and records when
    /// it ended. On a job that already ended in that same status only the
    /// exit code is written again. A job that ended otherwise, and a status
    /// that is not terminal, are refused.
    pub fn update_finished_at(
        &mut self,
        id: &str,
        status: Status,
        exit_code: Option<i32>,
        now: Timestamp,
    ) -> (r: Result<(), StoreError>)
        ensures
            store_wf(final(self)@),
            match r {
                Ok(()) => job_at(old(self)@, id@) matches Some(job) && status.terminal()
                    && final(self)@ == put(
                    old(self)@,
                    if job.status.terminal() {
                        JobView { exit_code, ..job }
                    } else {
                        finished(job, status, exit_code, now)
                    },
                ) && (job.status.terminal() ==> job.status == status),
                Err(StoreError::NotFound) => job_at(old(self)@, id@) is None && final(self)@
                    == old(self)@,
                Err(StoreError::InvalidTransition) => job_at(old(self)@, id@) matches Some(job)
                    && (!status.terminal() || (job.status.terminal() && job.status != status))
                    && final(self)@ == old(self)@,
                Err(_) => false,
            },
    {
        proof {
            use_type_invariant(&*self);
        }
        let i = match self.index_of(id) {
            Some(i) => i,
            None => {
                return Err(StoreError::NotFound);
            },
        };
        if !status.is_terminal() {
            return Err(StoreError::InvalidTransition);
        }
        let mut job = self.jobs[i].duplicate();
        if job.status.is_terminal() {
            if job.status != status {
                return Err(StoreError::InvalidTransition);
            }
            job.exit_code = exit_code;
        } else {
            let last = match job.started_at {
                Some(started) => started,
                None => job.created_at,
            };
            job.status = status;
            job.exit_code = exit_code;
            job.finished_at = Some(now.max(last));
        }
        self.replace(i, job);
        Ok(())
    }

    /// Removes the jobs that ended before `before`, of the given status
    /// only if one is given, and returns how many went. A job that has not
    /// ended is never removed.
    pub fn delete_old(&mut self, before: Timestamp, status: Option<Status>) -> (removed: usize)
        ensures
            final(self)@ == old(self)@.filter(unexpired(before, status)),
            removed == old(self)@.len() - final(self)@.len(),
            store_wf(final(self)@),
    {
        proof {
            use_type_invariant(&*self);
        }
        let ghost all = self@;
        let ghost keep = unexpired(before, status);
        let mut jobs: Vec<Job> = Vec::new();
        std::mem::swap(&mut jobs, &mut self.jobs);
        let mut kept: Vec<Job> = Vec::new();
        let ghost mut from: Seq<int> = Seq::empty();
        let mut i: usize = 0;
        proof {
            lemma_filter_nothing(all, keep);
        }
        assert(views(kept@) =~= all.take(0).filter(keep));
        while i < jobs.len()
            invariant
                i <= jobs.len(),
                all == views(jobs@),
                keep == unexpired(before, status),
                views(kept@) == all.take(i as int).filter(keep),
                from.len() == kept@.len(),
                kept@.len() <= i,
                forall|k: int|
                    0 <= k < from.len() ==> 0 <= #[trigger] from[k] < i && views(kept@)[k]
                        == all[from[k]],
                forall|a: int, b: int| 0 <= a < b < from.len() ==> from[a] < from[b],
            decreases jobs.len() - i,
        {
            let job = &jobs[i];
            let ended_before = match job.finished_at {
                Some(at) => at.is_before(&before),
                None => false,
            };
            let in_status = match status {
                Some(s) => s == job.status,
                None => true,
            };
            let goes = job.status.is_terminal() && ended_before && in_status;
            proof {
                lemma_filter_step(all, keep, i as int);
                assert(goes == expired(before, status)(all[i as int]));
            }
            if !goes {
                let ghost before_views = views(kept@);
                kept.push(job.duplicate());
                proof {
                    from = from.push(i as int);
                    assert(views(kept@) =~= before_views.push(all[i as int]));
                }
            }
            i += 1;
        }
        proof {
            lemma_filter_front(all, keep, all.len() as int);
            lemma_picked_keep_rules(all, views(kept@), from);
        }
        let removed: usize = jobs.len() - kept.len();
        self.jobs = kept;
        removed
    }

    /// Marks every unfinished job as interrupted, as of now. See
    /// `recover_orphans_at`.
    pub fn recover_orphans(&mut self)
        ensures
            exists|at: Timestamp| final(self)@ == all_recovered(old(self)@, at),
            forall|i: int| 0 <= i < final(self)@.len() ==> (#[trigger] final(self)@[i]).status.terminal(),
            store_wf(final(self)@),
    {
        let at = now();
        self.recover_orphans_at(at);
    }

    /// Marks every pending and every running job as interrupted, ended at
    /// `now` and without an exit code. Called once when the daemon starts:
    /// the processes of such jobs are out of its reach.
    pub fn recover_orphans_at(&mut self, now: Timestamp)
        ensures
            final(self)@ == all_recovered(old(self)@, now),
            forall|i: int| 0 <= i < final(self)@.len() ==> (#[trigger] final(self)@[i]).status.terminal(),
            store_wf(final(self)@),
    {
        proof {
            use_type_invariant(&*self);
        }
        let ghost all = self@;
        let mut jobs: Vec<Job> = Vec::new();
        std::mem::swap(&mut jobs, &mut self.jobs);
        let mut i: usize = 0;
        while i < jobs.len()
            invariant
                i <= jobs.len(),
                jobs@.len() == all.len(),
                forall|k: int| 0 <= k < i ==> (#[trigger] views(jobs@)[k]) == recovered(all[k], now),
                forall|k: int| i <= k < all.len() ==> (#[trigger] views(jobs@)[k]) == all[k],
            decreases jobs.len() - i,
        {
            if !jobs[i].status.is_terminal() {
                let mut job = jobs[i].duplicate();
                let last = match job.started_at {
                    Some(started) => started,
                    None => job.created_at,
                };
                job.status = Status::Interrupted;
                job.exit_code = None;
                job.finished_at = Some(now.max(last));
                let ghost before = views(jobs@);
                assert(before[i as int] == all[i as int]);
                assert(job@ == recovered(all[i as int], now));
                jobs.set(i, job);
                assert(views(jobs@) =~= before.update(i as int, recovered(all[i as int], now)));
            }
            i += 1;
        }
        proof {
            lemma_recovery(all, now);
            assert(views(jobs@) =~= all_recovered(all, now));
        }
        self.jobs = jobs;
    }

    /// Finds the one job that an id, the beginning of an id, or a name stands for.
    pub fn resolve(&self, id_or_name: &str) -> (r: Result<Job, StoreError>)
        ensures
            match r {
                Ok(job) => resolved(self@, id_or_name@) == Ok::<JobView, Option<Seq<Seq<char>>>>(
                    job@,
                ),
                Err(StoreError::NotFound) => resolved(self@, id_or_name@) == Err::<
                    JobView,
                    Option<Seq<Seq<char>>>,
                >(None),
                Err(StoreError::Ambiguous(ids)) => resolved(self@, id_or_name@) == Err::<
                    JobView,
                    Option<Seq<Seq<char>>>,
                >(Some(texts(ids@))),
                Err(_) => false,
            },
    {
        match self.get(id_or_name) {
            Ok(Some(job)) => Ok(job),
            Err(e) => Err(e),
            Ok(None) => {
                let mut named = self.get_by_name(id_or_name);
                if named.len() == 0 {
                    Err(StoreError::NotFound)
                } else if named.len() == 1 {
                    let job = named.pop().unwrap();
                    Ok(job)
                } else {
                    let ghost matched = views(named@);
                    let mut ids: Vec<String> = Vec::new();
                    let mut k: usize = 0;
                    while k < named.len()
                        invariant
                            k <= named.len(),
                            matched == views(named@),
                            texts(ids@) == ids_of(matched.take(k as int)),
                        decreases named.len() - k,
                    {
                        let ghost before = texts(ids@);
                        let id = named[k].id.clone();
                        ids.push(id);
                        assert(texts(ids@) =~= before.push(
                            matched[k as int].id,
                        ));
                        assert(ids_of(matched.take(k + 1)) =~= ids_of(matched.take(k as int)).push(
                            matched[k as int].id,
                        ));
                        k += 1;
                    }
                    assert(matched.take(named.len() as int) == matched);
                    Err(StoreError::Ambiguous(ids))
                }
            },
        }
    }

    /// A store of the records given, each put in as by `insert`, in turn.
    pub fn from_jobs(jobs: &Vec<Job>) -> (r: Result<JobStore, StoreError>)
        ensures
            match r {
                Ok(store) => loaded(views(jobs@)) == Ok::<Seq<JobView>, StoreError>(store@)
                    && store_wf(store@),
                Err(e) => loaded(views(jobs@)) == Err::<Seq<JobView>, StoreError>(e),
            },
    {
        let ghost all = views(jobs@);
        let mut store = JobStore::new();
        let mut i: usize = 0;
        assert(all.take(0) =~= Seq::<JobView>::empty());
        while i < jobs.len()
            invariant
                i <= jobs.len(),
                all == views(jobs@),
                loaded(all.take(i as int)) == Ok::<Seq<JobView>, StoreError>(store@),
                store_wf(store@),
            decreases jobs.len() - i,
        {
            proof {
                assert(all.take(i + 1).drop_last() == all.take(i as int));
                assert(all.take(i + 1).last() == jobs@[i as int]@);
            }
            match store.insert(&jobs[i]) {
                Ok(()) => {},
                Err(e) => {
                    proof {
                        lemma_load_fails_on(all, i + 1);
                    }
                    return Err(e);
                },
            }
            i += 1;
        }
        assert(all.take(jobs.len() as int) == all);
        Ok(store)
    }

    /// A copy of every job, newest first.
    pub fn jobs(&self) -> (all: Vec<Job>)
        ensures
            views(all@) == self@,
    {
        let mut all: Vec<Job> = Vec::new();
        let mut i: usize = 0;
        while i < self.jobs.len()
            invariant
                i <= self.jobs.len(),
                views(all@) == self@.take(i as int),
            decreases self.jobs.len() - i,
        {
            let ghost before = views(all@);
            all.push(self.jobs[i].duplicate());
            assert(views(all@) =~= before.push(self@[i as int]));
            assert(self@.take(i + 1) =~= self@.take(i as int).push(self@[i as int]));
            i += 1;
        }
        assert(self@.take(self.jobs.len() as int) == self@);
        all
    }

    /// The number of jobs stored.
    pub fn len(&self) -> (n: usize)
        ensures
            n == self@.len(),
    {
        self.jobs.len()
    }
}

} // verus!
