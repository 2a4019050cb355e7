//! The messages of the wire protocol: what a client asks and what the
//! daemon answers. One response answers one request.

use crate::job::{text_of, views, Job, JobView};
use crate::status::Status;
use vstd::prelude::*;

verus! {

/// What a client asks of the daemon.
#[derive(Debug)]
pub enum Request {
    Ping,
    Submit {
        command: String,
        name: Option<String>,
        cwd: String,
        project: String,
        timeout_secs: Option<u64>,
        context: Option<serde_json::Value>,
        idempotency_key: Option<String>,
    },
    Stop { id: String, force: bool },
    Wait { id: String, timeout_secs: Option<u64> },
    Get { id: String },
    List { status: Option<Status>, limit: Option<usize> },
    Status,
}

/// What the daemon answers.
#[derive(Debug)]
pub enum Response {
    /// The request was carried out and there is nothing to report.
    Okay,
    Job(Job),
    Jobs(Vec<Job>),
    Pong,
    Status { uptime_secs: u64, running_count: usize, total_jobs: usize },
    Error(String),
}

/// What a response holds, with each text as its sequence of characters.
pub enum ResponseView {
    Okay,
    Job(JobView),
    Jobs(Seq<JobView>),
    Pong,
    Status { uptime_secs: u64, running_count: usize, total_jobs: usize },
    Error(Seq<char>),
}

impl View for Response {
    type V = ResponseView;

    open spec fn view(&self) -> ResponseView {
        match *self {
            Response::Okay => ResponseView::Okay,
            Response::Job(job) => ResponseView::Job(job@),
            Response::Jobs(jobs) => ResponseView::Jobs(views(jobs@)),
            Response::Pong => ResponseView::Pong,
            Response::Status { uptime_secs, running_count, total_jobs } => ResponseView::Status {
                uptime_secs,
                running_count,
                total_jobs,
            },
            Response::Error(message) => ResponseView::Error(message@),
        }
    }
}

/// What a submission asks for, with each text as its sequence of characters.
pub struct SubmitView {
    pub command: Seq<char>,
    pub name: Option<Seq<char>>,
    pub cwd: Seq<char>,
    pub project: Seq<char>,
    pub timeout_secs: Option<u64>,
    pub context: Option<serde_json::Value>,
    pub idempotency_key: Option<Seq<char>>,
}

/// What a request holds, with each text as its sequence of characters.
pub enum RequestView {
    Ping,
    Submit(SubmitView),
    Stop { id: Seq<char>, force: bool },
    Wait { id: Seq<char>, timeout_secs: Option<u64> },
    Get { id: Seq<char> },
    List { status: Option<Status>, limit: Option<usize> },
    Status,
}

impl View for Request {
    type V = RequestView;

    open spec fn view(&self) -> RequestView {
        match *self {
            Request::Ping => RequestView::Ping,
            Request::Submit {
                command,
                name,
                cwd,
                project,
                timeout_secs,
                context,
                idempotency_key,
            } => RequestView::Submit(
                SubmitView {
                    command: command@,
                    name: text_of(name),
                    cwd: cwd@,
                    project: project@,
                    timeout_secs,
                    context,
                    idempotency_key: text_of(idempotency_key),
                },
            ),
            Request::Stop { id, force } => RequestView::Stop { id: id@, force },
            Request::Wait { id, timeout_secs } => RequestView::Wait { id: id@, timeout_secs },
            Request::Get { id } => RequestView::Get { id: id@ },
            Request::List { status, limit } => RequestView::List { status, limit },
            Request::Status => RequestView::Status,
        }
    }
}

} // verus!
