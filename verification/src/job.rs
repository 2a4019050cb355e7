//! The job record: a submitted command and what became of it.

use crate::status::Status;
use crate::time::{now, Timestamp};
use vstd::prelude::*;

verus! {

/// `serde_json::Value`, the structured payload a submitter may attach to a
/// job. The library never looks inside one; it only carries it along.
#[verifier::external_type_specification]
#[verifier::external_body]
pub struct ExJsonValue(serde_json::Value);

/// `Value::clone` copies the whole value: the copy equals the value copied.
pub assume_specification[ <serde_json::Value as Clone>::clone ](v: &serde_json::Value) -> (r:
    serde_json::Value)
    ensures
        r == *v,
;

/// A job: the command as submitted and the record of its life.
#[derive(Debug)]
pub struct Job {
    pub id: String,
    pub name: Option<String>,
    pub command: String,
    pub status: Status,
    pub project: String,
    pub cwd: String,
    pub pid: Option<u32>,
    pub exit_code: Option<i32>,
    pub created_at: Timestamp,
    pub started_at: Option<Timestamp>,
    pub finished_at: Option<Timestamp>,
    pub timeout_secs: Option<u64>,
    pub context: Option<serde_json::Value>,
    pub idempotency_key: Option<String>,
}

/// What a job holds, with each text as its sequence of characters.
pub struct JobView {
    pub id: Seq<char>,
    pub name: Option<Seq<char>>,
    pub command: Seq<char>,
    pub status: Status,
    pub project: Seq<char>,
    pub cwd: Seq<char>,
    pub pid: Option<u32>,
    pub exit_code: Option<i32>,
    pub created_at: Timestamp,
    pub started_at: Option<Timestamp>,
    pub finished_at: Option<Timestamp>,
    pub timeout_secs: Option<u64>,
    pub context: Option<serde_json::Value>,
    pub idempotency_key: Option<Seq<char>>,
}

/// The characters of an optional text.
pub open spec fn text_of(s: Option<String>) -> Option<Seq<char>> {
    match s {
        Some(s) => Some(s@),
        None => None,
    }
}

impl View for Job {
    type V = JobView;

    open spec fn view(&self) -> JobView {
        JobView {
            id: self.id@,
            name: text_of(self.name),
            command: self.command@,
            status: self.status,
            project: self.project@,
            cwd: self.cwd@,
            pid: self.pid,
            exit_code: self.exit_code,
            created_at: self.created_at,
            started_at: self.started_at,
            finished_at: self.finished_at,
            timeout_secs: self.timeout_secs,
            context: self.context,
            idempotency_key: text_of(self.idempotency_key),
        }
    }
}

/// The views of a run of jobs.
pub open spec fn views(jobs: Seq<Job>) -> Seq<JobView> {
    jobs.map_values(|j: Job| j@)
}

impl JobView {
    /// The record of a job that was just submitted and has not started.
    pub open spec fn fresh(
        id: Seq<char>,
        command: Seq<char>,
        cwd: Seq<char>,
        project: Seq<char>,
        created_at: Timestamp,
    ) -> JobView {
        JobView {
            id,
            name: None,
            command,
            status: Status::Pending,
            project,
            cwd,
            pid: None,
            exit_code: None,
            created_at,
            started_at: None,
            finished_at: None,
            timeout_secs: None,
            context: None,
            idempotency_key: None,
        }
    }

    /// The record is consistent: it is finished exactly when its status is
    /// terminal, a running job has a process and a start time, a pending job
    /// has nothing yet, and its times follow one another.
    pub open spec fn wf(self) -> bool {
        &&& self.status.terminal() <==> self.finished_at is Some
        &&& self.status is Running ==> self.pid is Some && self.started_at is Some
        &&& self.status is Pending ==> self.started_at is None && self.pid is None
            && self.exit_code is None
        &&& self.started_at matches Some(started) ==> self.created_at.at_or_before(started)
        &&& self.finished_at matches Some(finished) ==> {
            &&& self.created_at.at_or_before(finished)
            &&& self.started_at matches Some(started) ==> started.at_or_before(finished)
        }
    }
}

fn clone_text(s: &Option<String>) -> (r: Option<String>)
    ensures
        text_of(r) == text_of(*s),
{
    match s {
        Some(s) => Some(s.clone()),
        None => None,
    }
}

impl Job {
    /// A pending job created now.
    #[must_use]
    pub fn new(id: String, command: String, cwd: String, project: String) -> (job: Job)
        ensures
            job@ == JobView::fresh(id@, command@, cwd@, project@, job.created_at),
            job@.wf(),
    {
        Job::new_at(id, command, cwd, project, now())
    }

    /// A pending job created at `created_at`.
    #[must_use]
    pub fn new_at(
        id: String,
        command: String,
        cwd: String,
        project: String,
        created_at: Timestamp,
    ) -> (job: Job)
        ensures
            job@ == JobView::fresh(id@, command@, cwd@, project@, created_at),
            job@.wf(),
    {
        Job {
            id,
            name: None,
            command,
            status: Status::Pending,
            project,
            cwd,
            pid: None,
            exit_code: None,
            created_at,
            started_at: None,
            finished_at: None,
            timeout_secs: None,
            context: None,
            idempotency_key: None,
        }
    }

    #[must_use]
    pub fn with_name(self, name: String) -> (job: Job)
        ensures
            job@ == (JobView { name: Some(name@), ..self@ }),
    {
        let mut job = self;
        job.name = Some(name);
        job
    }

    #[must_use]
    pub fn with_timeout(self, secs: u64) -> (job: Job)
        ensures
            job@ == (JobView { timeout_secs: Some(secs), ..self@ }),
    {
        let mut job = self;
        job.timeout_secs = Some(secs);
        job
    }

    #[must_use]
    pub fn with_context(self, context: serde_json::Value) -> (job: Job)
        ensures
            job@ == (JobView { context: Some(context), ..self@ }),
    {
        let mut job = self;
        job.context = Some(context);
        job
    }

    #[must_use]
    pub fn with_idempotency_key(self, key: String) -> (job: Job)
        ensures
            job@ == (JobView { idempotency_key: Some(key@), ..self@ }),
    {
        let mut job = self;
        job.idempotency_key = Some(key);
        job
    }

    /// The id under which the job is shown.
    #[must_use]
    pub fn short_id(&self) -> (id: &str)
        ensures
            id@ == self@.id,
    {
        self.id.as_str()
    }

    /// Whether the record is consistent.
    pub fn is_well_formed(&self) -> (r: bool)
        ensures
            r == self@.wf(),
    {
        let finished_matches = self.status.is_terminal() == self.finished_at.is_some();
        let running_ok = match self.status {
            Status::Running => self.pid.is_some() && self.started_at.is_some(),
            _ => true,
        };
        let pending_ok = match self.status {
            Status::Pending => self.started_at.is_none() && self.pid.is_none()
                && self.exit_code.is_none(),
            _ => true,
        };
        let started_ok = match self.started_at {
            Some(started) => !started.is_before(&self.created_at),
            None => true,
        };
        let finished_ok = match self.finished_at {
            Some(finished) => !finished.is_before(&self.created_at) && match self.started_at {
                Some(started) => !finished.is_before(&started),
                None => true,
            },
            None => true,
        };
        finished_matches && running_ok && pending_ok && started_ok && finished_ok
    }

    /// A copy of the record.
    pub fn duplicate(&self) -> (job: Job)
        ensures
            job@ == self@,
    {
        Job {
            id: self.id.clone(),
            name: clone_text(&self.name),
            command: self.command.clone(),
            status: self.status,
            project: self.project.clone(),
            cwd: self.cwd.clone(),
            pid: self.pid,
            exit_code: self.exit_code,
            created_at: self.created_at,
            started_at: self.started_at,
            finished_at: self.finished_at,
            timeout_secs: self.timeout_secs,
            context: match &self.context {
                Some(v) => Some(v.clone()),
                None => None,
            },
            idempotency_key: clone_text(&self.idempotency_key),
        }
    }
}

impl Clone for Job {
    fn clone(&self) -> (job: Job)
        ensures
            job@ == self@,
    {
        self.duplicate()
    }
}

} // verus!
