//! The supervisor's decisions around one request: taking a submission,
//! recording what became of the spawn, waiting for a job's end, and
//! dispatching a client's request.

use crate::daemon::{DaemonState, RunningView, Submission};
use crate::job::{text_of, Job, JobView};
use crate::message::{Request, RequestView, Response, ResponseView, SubmitView};
use crate::monitor::timeout_ms;
use crate::project::{base36, job_id, nth_seed, seed_after};
use crate::status::Status;
use crate::store::{
    finished, found_by_id, has_key, insert_refusal, job_at, listed, put, started, with_job,
    StoreError,
};
use crate::time::Timestamp;
use vstd::prelude::*;

verus! {

/// The record of the job that a submission asks for, created at `at`.
pub open spec fn submitted_job(id: Seq<char>, submit: SubmitView, at: Timestamp) -> JobView {
    JobView {
        name: submit.name,
        timeout_secs: submit.timeout_secs,
        context: submit.context,
        idempotency_key: submit.idempotency_key,
        ..JobView::fresh(id, submit.command, submit.cwd, submit.project, at)
    }
}

/// The pending job that a submission asks for, under the id given.
pub fn job_for(
    id: String,
    command: String,
    name: Option<String>,
    cwd: String,
    project: String,
    timeout_secs: Option<u64>,
    context: Option<serde_json::Value>,
    idempotency_key: Option<String>,
    at: Timestamp,
) -> (job: Job)
    ensures
        job@ == submitted_job(
            id@,
            SubmitView {
                command: command@,
                name: text_of(name),
                cwd: cwd@,
                project: project@,
                timeout_secs,
                context,
                idempotency_key: text_of(idempotency_key),
            },
            at,
        ),
        job@.wf(),
{
    let mut job = Job::new_at(id, command, cwd, project, at);
    if let Some(name) = name {
        job = job.with_name(name);
    }
    if let Some(secs) = timeout_secs {
        job = job.with_timeout(secs);
    }
    if let Some(context) = context {
        job = job.with_context(context);
    }
    if let Some(key) = idempotency_key {
        job = job.with_idempotency_key(key);
    }
    job
}

/// The text of the answer to a submission that the store refused.
pub open spec fn create_failed_message(e: StoreError) -> Seq<char> {
    "Failed to create job: "@ + e.text()
}

impl Submission {
    /// The job to spawn: the one that was accepted, and none otherwise.
    pub open spec fn to_spawn(self) -> Option<JobView> {
        match self {
            Submission::Accepted(job) => Some(job@),
            _ => None,
        }
    }

    /// Whether the submission leaves a job to be spawned.
    pub fn must_spawn(&self) -> (r: bool)
        ensures
            r == self.to_spawn() is Some,
    {
        match self {
            Submission::Accepted(_) => true,
            _ => false,
        }
    }

    /// The answer that the submitter gets: the job, new or prior, or the
    /// reason why none was created.
    pub fn response(self) -> (r: Response)
        ensures
            r@ == match self {
                Submission::Existing(job) => ResponseView::Job(job@),
                Submission::Accepted(job) => ResponseView::Job(job@),
                Submission::Rejected(e) => ResponseView::Error(create_failed_message(e)),
            },
    {
        match self {
            Submission::Existing(job) => Response::Job(job),
            Submission::Accepted(job) => Response::Job(job),
            Submission::Rejected(e) => {
                let message = "Failed to create job: ".to_string().concat(e.message().as_str());
                Response::Error(message)
            },
        }
    }
}

/// Takes a submission under a fresh id. A job that was submitted before
/// under the same idempotency key is returned as it is stored, and nothing
/// is written; otherwise the new job is stored as pending, to be spawned
/// by the caller.
pub fn spawn_job(
    state: &mut DaemonState,
    id: String,
    command: String,
    name: Option<String>,
    cwd: String,
    project: String,
    timeout_secs: Option<u64>,
    context: Option<serde_json::Value>,
    idempotency_key: Option<String>,
    at: Timestamp,
) -> (r: Submission)
    ensures
        final(state).running() == old(state).running(),
        final(state).started_at() == old(state).started_at(),
        final(state).root() == old(state).root(),
        ({
            let job = submitted_job(
                id@,
                SubmitView {
                    command: command@,
                    name: text_of(name),
                    cwd: cwd@,
                    project: project@,
                    timeout_secs,
                    context,
                    idempotency_key: text_of(idempotency_key),
                },
                at,
            );
            &&& match r {
                Submission::Existing(prior) => {
                    &&& idempotency_key is Some
                    &&& prior@.idempotency_key == text_of(idempotency_key)
                    &&& old(state).jobs().contains(prior@)
                    &&& final(state).jobs() == old(state).jobs()
                },
                Submission::Accepted(stored) => {
                    &&& stored@ == job
                    &&& insert_refusal(old(state).jobs(), job) is None
                    &&& final(state).jobs() == with_job(old(state).jobs(), job)
                },
                Submission::Rejected(e) => {
                    &&& insert_refusal(old(state).jobs(), job) == Some(e)
                    &&& e is DuplicateId
                    &&& final(state).jobs() == old(state).jobs()
                },
            }
            &&& (idempotency_key matches Some(key) && has_key(old(state).jobs(), key@)) ==> (r
                is Existing)
        }),
{
    let job = job_for(id, command, name, cwd, project, timeout_secs, context, idempotency_key, at);
    state.submit(job)
}

/// How many ids a submission tries before it gives up.
pub const ID_ATTEMPTS: u64 = 1000;

/// The first try from `from` on, and below `tries`, whose id no stored job has.
pub open spec fn first_free(jobs: Seq<JobView>, seed: u64, from: nat, tries: nat) -> Option<nat>
    decreases tries - from,
{
    if from >= tries {
        None
    } else if !crate::store::has_id(jobs, base36(nth_seed(seed, from) as nat)) {
        Some(from)
    } else {
        first_free(jobs, seed, from + 1, tries)
    }
}

/// Takes a submission and gives it an id of its own: the first of the ids
/// made from `seed` and the numbers after it that no stored job has. As
/// with `spawn_job`, a job that was submitted before under the same
/// idempotency key is the answer where there is one. Where all of
/// `ID_ATTEMPTS` ids are taken the submission is rejected.
pub fn submit_fresh(
    state: &mut DaemonState,
    seed: u64,
    command: String,
    name: Option<String>,
    cwd: String,
    project: String,
    timeout_secs: Option<u64>,
    context: Option<serde_json::Value>,
    idempotency_key: Option<String>,
    at: Timestamp,
) -> (r: Submission)
    ensures
        final(state).running() == old(state).running(),
        final(state).started_at() == old(state).started_at(),
        final(state).root() == old(state).root(),
        ({
            let submit = SubmitView {
                command: command@,
                name: text_of(name),
                cwd: cwd@,
                project: project@,
                timeout_secs,
                context,
                idempotency_key: text_of(idempotency_key),
            };
            if idempotency_key matches Some(key) && has_key(old(state).jobs(), key@) {
                &&& r matches Submission::Existing(prior)
                &&& prior@.idempotency_key == text_of(idempotency_key)
                &&& old(state).jobs().contains(prior@)
                &&& final(state).jobs() == old(state).jobs()
            } else {
                match first_free(old(state).jobs(), seed, 0, ID_ATTEMPTS as nat) {
                    Some(k) => {
                        &&& r matches Submission::Accepted(stored)
                        &&& stored@ == submitted_job(base36(nth_seed(seed, k) as nat), submit, at)
                        &&& final(state).jobs() == with_job(old(state).jobs(), stored@)
                    },
                    None => {
                        &&& r matches Submission::Rejected(e)
                        &&& e is DuplicateId
                        &&& final(state).jobs() == old(state).jobs()
                    },
                }
            }
        }),
{
    let mut k: u64 = 0;
    loop
        invariant
            k < ID_ATTEMPTS,
            state.jobs() == old(state).jobs(),
            state.running() == old(state).running(),
            state.started_at() == old(state).started_at(),
            state.root() == old(state).root(),
            first_free(old(state).jobs(), seed, 0, ID_ATTEMPTS as nat) == first_free(
                old(state).jobs(),
                seed,
                k as nat,
                ID_ATTEMPTS as nat,
            ),
        decreases ID_ATTEMPTS - k,
    {
        let id = job_id(seed_after(seed, k));
        let submission = spawn_job(
            state,
            id,
            command.clone(),
            name.clone(),
            cwd.clone(),
            project.clone(),
            timeout_secs,
            context.clone(),
            idempotency_key.clone(),
            at,
        );
        match submission {
            Submission::Rejected(e) => {
                assert(crate::store::has_id(old(state).jobs(), base36(nth_seed(seed, k as nat) as nat)));
                if k + 1 >= ID_ATTEMPTS {
                    assert(first_free(
                        old(state).jobs(),
                        seed,
                        (k + 1) as nat,
                        ID_ATTEMPTS as nat,
                    ) is None);
                    return Submission::Rejected(e);
                }
                k += 1;
            },
            other => {
                return other;
            },
        }
    }
}

/// What the caller does once the spawn has been recorded.
#[derive(Debug, Clone, Copy, PartialEq, Eq, Structural)]
pub enum SpawnRecord {
    /// The job runs: watch it.
    Monitor,
    /// The spawn failed and the job is recorded as failed.
    Failed,
    /// The job is no longer pending; the process, if any, is not the daemon's to watch.
    Abandon,
}

/// Records what became of the attempt to spawn a job's process: with a
/// process id the job starts running and is watched; without one the job
/// is recorded as failed, with no exit code.
pub fn record_spawn(state: &mut DaemonState, id: &str, spawned: Option<u32>, now: Timestamp) -> (r:
    SpawnRecord)
    ensures
        final(state).started_at() == old(state).started_at(),
        final(state).root() == old(state).root(),
        final(state).consistent(),
        match (spawned, job_at(old(state).jobs(), id@)) {
            (Some(pid), Some(job)) => if job.status is Pending {
                &&& r is Monitor
                &&& final(state).jobs() == put(old(state).jobs(), started(job, pid, now))
                &&& final(state).running() == old(state).running().push(
                    RunningView { id: id@, pid, stop_requested: false },
                )
            } else {
                &&& r is Abandon
                &&& final(state).jobs() == old(state).jobs()
                &&& final(state).running() == old(state).running()
            },
            (None, Some(job)) => if !job.status.terminal() {
                &&& r is Failed
                &&& final(state).jobs() == put(
                    old(state).jobs(),
                    finished(job, Status::Failed, None, now),
                )
                &&& final(state).running() == crate::daemon::unwatched(old(state).running(), id@)
            } else if job.status is Failed {
                &&& r is Failed
                &&& final(state).jobs() == put(old(state).jobs(), JobView { exit_code: None, ..job })
                &&& final(state).running() == crate::daemon::unwatched(old(state).running(), id@)
            } else {
                &&& r is Abandon
                &&& final(state).jobs() == old(state).jobs()
                &&& final(state).running() == old(state).running()
            },
            (_, None) => {
                &&& r is Abandon
                &&& final(state).jobs() == old(state).jobs()
                &&& final(state).running() == old(state).running()
            },
        },
{
    match spawned {
        Some(pid) => match state.job_started(id, pid, now) {
            Ok(()) => SpawnRecord::Monitor,
            Err(_) => SpawnRecord::Abandon,
        },
        None => match state.finish_job(id, Status::Failed, None, now) {
            Ok(()) => SpawnRecord::Failed,
            Err(_) => SpawnRecord::Abandon,
        },
    }
}

/// Stops a job: signals the whole process group of its shell, with
/// SIGKILL where `force` is set and SIGTERM otherwise. A job that the
/// daemon does not watch is not running, and the answer is an error that
/// says so.
pub fn stop_job(state: &mut DaemonState, job_id: &str, force: bool) -> (r: Response)
    ensures
        final(state).jobs() == old(state).jobs(),
        final(state).started_at() == old(state).started_at(),
        final(state).root() == old(state).root(),
        final(state).consistent(),
        crate::daemon::stop_result(old(state).running(), job_id@, r@, final(state).running()),
{
    state.stop_job(job_id, force)
}

/// What a waiting client is told, or that it is to be kept waiting.
#[derive(Debug)]
pub enum WaitStep {
    /// Answer the client with this.
    Respond(Response),
    /// Sleep for a poll interval and look again.
    Sleep,
}

/// The answer to a wait for a job that the store does not hold.
pub open spec fn job_not_found_message(id: Seq<char>) -> Seq<char> {
    "Job not found: "@ + id
}

/// What one look at the store tells a waiting client: the job once it has
/// ended; an error where there is no such job or the wait has lasted as
/// long as its timeout allows; otherwise to wait on. The store is asked,
/// not the table, so that a wait is answered alike for a job of this
/// daemon and one that an earlier daemon finished.
pub fn wait_for_job(state: &DaemonState, job_id: &str, timeout_secs: Option<u64>, elapsed_ms: u64) -> (r:
    WaitStep)
    ensures
        match found_by_id(state.jobs(), job_id@) {
            Ok(Some(job)) => if job.status.terminal() {
                r matches WaitStep::Respond(response) && response@ == ResponseView::Job(job)
            } else if timeout_secs matches Some(t) && elapsed_ms >= timeout_ms(t) {
                r matches WaitStep::Respond(response) && response@ == ResponseView::Error(
                    "Wait timed out"@,
                )
            } else {
                r is Sleep
            },
            Ok(None) => r matches WaitStep::Respond(response) && response@ == ResponseView::Error(
                job_not_found_message(job_id@),
            ),
            Err(_) => r matches WaitStep::Respond(response) && response@ == ResponseView::Error(
                "Ambiguous job ID or name"@,
            ),
        },
{
    match state.get_job(job_id) {
        Ok(Some(job)) => {
            if job.status.is_terminal() {
                WaitStep::Respond(Response::Job(job))
            } else if crate::monitor::timed_out(timeout_secs, elapsed_ms) {
                WaitStep::Respond(Response::Error("Wait timed out".to_string()))
            } else {
                WaitStep::Sleep
            }
        },
        Ok(None) => {
            let message = "Job not found: ".to_string().concat(job_id);
            WaitStep::Respond(Response::Error(message))
        },
        Err(e) => WaitStep::Respond(Response::Error(e.message())),
    }
}

/// What the server does with a request.
#[derive(Debug)]
pub enum Dispatch {
    /// The request is answered.
    Reply(Response),
    /// A submission: give it a fresh id and hand it to `spawn_job`.
    Submit,
    /// A wait: poll with `wait_for_job` until it answers.
    Wait,
}

/// The answer to a request that the state can answer at once.
pub open spec fn reply_to(state: DaemonState, request: RequestView, uptime_secs: u64) -> Option<
    ResponseView,
> {
    match request {
        RequestView::Ping => Some(ResponseView::Pong),
        RequestView::Get { id } => Some(
            match found_by_id(state.jobs(), id) {
                Ok(Some(job)) => ResponseView::Job(job),
                Ok(None) => ResponseView::Error(job_not_found_message(id)),
                Err(_) => ResponseView::Error("Ambiguous job ID or name"@),
            },
        ),
        RequestView::List { status, limit } => Some(
            ResponseView::Jobs(listed(state.jobs(), status, limit)),
        ),
        RequestView::Status => Some(
            ResponseView::Status {
                uptime_secs,
                running_count: state.running().len() as usize,
                total_jobs: state.jobs().len() as usize,
            },
        ),
        _ => None,
    }
}

/// Answers a request that needs no process and no waiting: a ping, a
/// lookup, a listing, the daemon's status. A stop is carried out. A
/// submission and a wait are handed back to the server, which has the id
/// source and the clock they need.
pub fn dispatch(state: &mut DaemonState, request: &Request, now: Timestamp) -> (r: Dispatch)
    ensures
        final(state).jobs() == old(state).jobs(),
        final(state).started_at() == old(state).started_at(),
        final(state).root() == old(state).root(),
        final(state).consistent(),
        match request@ {
            RequestView::Submit(_) => r is Submit && final(state).running() == old(state).running(),
            RequestView::Wait { .. } => r is Wait && final(state).running() == old(state).running(),
            RequestView::Stop { id, force } => r matches Dispatch::Reply(response)
                && crate::daemon::stop_result(
                old(state).running(),
                id,
                response@,
                final(state).running(),
            ),
            _ => {
                &&& r matches Dispatch::Reply(response)
                &&& Some(response@) == reply_to(
                    *old(state),
                    request@,
                    now.secs_since(old(state).started_at()) as u64,
                )
                &&& final(state).running() == old(state).running()
            },
        },
{
    state.is_consistent();
    match request {
        Request::Ping => Dispatch::Reply(Response::Pong),
        Request::Submit { .. } => Dispatch::Submit,
        Request::Wait { .. } => Dispatch::Wait,
        Request::Stop { id, force } => Dispatch::Reply(stop_job(state, id.as_str(), *force)),
        Request::Get { id } => {
            let response = match state.get_job(id.as_str()) {
                Ok(Some(job)) => Response::Job(job),
                Ok(None) => Response::Error("Job not found: ".to_string().concat(id.as_str())),
                Err(e) => Response::Error(e.message()),
            };
            Dispatch::Reply(response)
        },
        Request::List { status, limit } => Dispatch::Reply(
            Response::Jobs(state.list_jobs(*status, *limit)),
        ),
        Request::Status => Dispatch::Reply(
            Response::Status {
                uptime_secs: state.uptime_at(now),
                running_count: state.running_count(),
                total_jobs: state.total_jobs(),
            },
        ),
    }
}

} // verus!
