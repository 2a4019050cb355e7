//! Following a job's log while the job runs: the decisions of the loop
//! that waits for the log to appear, shows what is appended to it, and
//! leaves with the job's exit code once the job has ended.

use crate::job::{Job, JobView};
use vstd::prelude::*;

verus! {

/// Where the follower stands.
#[derive(Debug, Clone, Copy, PartialEq, Eq, Structural)]
pub enum FollowState {
    /// The log file has not appeared yet.
    Waiting,
    /// The job runs; the first `position` bytes of the log have been shown.
    Streaming { position: u64 },
    /// The job has ended; what is left of the log is being shown.
    Draining { position: u64, exit_code: Option<i32> },
    /// The follower has left.
    Left,
}

/// What the store says of the followed job.
#[derive(Debug, Clone, Copy, PartialEq, Eq, Structural)]
pub enum Progress {
    /// The store holds no such job.
    Missing,
    /// The job has not ended.
    Active,
    /// The job has ended, with this exit code if it has one.
    Ended { exit_code: Option<i32> },
}

/// What the follower has observed since its last step.
#[derive(Debug, Clone, Copy, PartialEq, Eq, Structural)]
pub enum FollowEvent {
    /// After a sleep, or at the start: whether the user has interrupted,
    /// whether the log file exists, and what the store says of the job.
    Woke { interrupted: bool, log_exists: bool, progress: Progress },
    /// A read at the current position gave `bytes_read` bytes, which have
    /// been shown; and what the store says of the job now.
    Read { bytes_read: u64, progress: Progress },
}

/// Why following failed.
#[derive(Debug, Clone, Copy, PartialEq, Eq, Structural)]
pub enum FollowError {
    /// There was no such job when following began.
    JobNotFound,
    /// The job vanished from the store while it was followed.
    JobDisappeared,
}

impl FollowError {
    /// The one-line message of the error.
    pub open spec fn text(self) -> Seq<char> {
        match self {
            FollowError::JobNotFound => "Job not found"@,
            FollowError::JobDisappeared => "Job disappeared from database"@,
        }
    }

    /// The one-line message of the error.
    pub fn message(&self) -> (s: String)
        ensures
            s@ == self.text(),
    {
        match self {
            FollowError::JobNotFound => "Job not found".to_string(),
            FollowError::JobDisappeared => "Job disappeared from database".to_string(),
        }
    }
}

/// What the follower does next.
#[derive(Debug, Clone, Copy, PartialEq, Eq, Structural)]
pub enum FollowAction {
    /// Sleep for a poll interval, then report `Woke`.
    Sleep,
    /// Read up to a chunk of the log at `position`, show it, then report `Read`.
    ReadAt { position: u64 },
    /// Show what is left of an unfinished line and leave; with `exit_code`
    /// as the process's exit code where there is one, and 0 otherwise.
    /// `no_output` where the job ended before its log appeared.
    Leave { exit_code: Option<i32>, no_output: bool },
    /// Leave with this error.
    Fail(FollowError),
}

/// The position after `bytes_read` more bytes; it stops at the largest offset.
pub open spec fn advanced(position: u64, bytes_read: u64) -> u64 {
    if position + bytes_read > u64::MAX {
        u64::MAX
    } else {
        (position + bytes_read) as u64
    }
}

/// What the store says of a job, from the record it holds.
pub open spec fn progress_of(job: Option<JobView>) -> Progress {
    match job {
        None => Progress::Missing,
        Some(job) => if job.status.terminal() {
            Progress::Ended { exit_code: job.exit_code }
        } else {
            Progress::Active
        },
    }
}

/// The follower's next state and action.
pub open spec fn follow_next(state: FollowState, event: FollowEvent) -> (FollowState, FollowAction) {
    match (state, event) {
        (FollowState::Left, _) => (
            FollowState::Left,
            FollowAction::Leave { exit_code: None, no_output: false },
        ),
        // An interrupt ends the following, and nothing but the following.
        (_, FollowEvent::Woke { interrupted: true, .. }) => (
            FollowState::Left,
            FollowAction::Leave { exit_code: None, no_output: false },
        ),
        (FollowState::Waiting, FollowEvent::Woke { log_exists: true, .. }) => (
            FollowState::Streaming { position: 0 },
            FollowAction::ReadAt { position: 0 },
        ),
        (FollowState::Waiting, FollowEvent::Woke { progress, .. }) => match progress {
            Progress::Missing => (FollowState::Left, FollowAction::Fail(FollowError::JobNotFound)),
            Progress::Ended { exit_code } => (
                FollowState::Left,
                FollowAction::Leave { exit_code, no_output: true },
            ),
            Progress::Active => (FollowState::Waiting, FollowAction::Sleep),
        },
        (FollowState::Waiting, FollowEvent::Read { .. }) => (FollowState::Waiting, FollowAction::Sleep),
        (FollowState::Streaming { position }, FollowEvent::Woke { .. }) => (
            state,
            FollowAction::ReadAt { position },
        ),
        (FollowState::Streaming { position }, FollowEvent::Read { bytes_read, progress }) => {
            let position = advanced(position, bytes_read);
            match progress {
                Progress::Missing => (
                    FollowState::Left,
                    FollowAction::Fail(FollowError::JobDisappeared),
                ),
                Progress::Ended { exit_code } => (
                    FollowState::Draining { position, exit_code },
                    FollowAction::ReadAt { position },
                ),
                Progress::Active => (FollowState::Streaming { position }, FollowAction::Sleep),
            }
        },
        (FollowState::Draining { position, .. }, FollowEvent::Woke { .. }) => (
            state,
            FollowAction::ReadAt { position },
        ),
        (FollowState::Draining { position, exit_code }, FollowEvent::Read { bytes_read, .. }) => {
            if bytes_read == 0 {
                (FollowState::Left, FollowAction::Leave { exit_code, no_output: false })
            } else {
                let position = advanced(position, bytes_read);
                (FollowState::Draining { position, exit_code }, FollowAction::ReadAt { position })
            }
        },
    }
}

/// What the store says of a job, from the record it holds.
pub fn job_progress(job: Option<&Job>) -> (progress: Progress)
    ensures
        progress == progress_of(
            match job {
                Some(job) => Some(job@),
                None => None,
            },
        ),
{
    match job {
        None => Progress::Missing,
        Some(job) => if job.status.is_terminal() {
            Progress::Ended { exit_code: job.exit_code }
        } else {
            Progress::Active
        },
    }
}

/// Takes the follower one step further: returns what to do and moves the
/// state on.
pub fn follow_step(state: &mut FollowState, event: FollowEvent) -> (action: FollowAction)
    ensures
        (*final(state), action) == follow_next(*old(state), event),
{
    let (next, action) = match *state {
        FollowState::Left => (
            FollowState::Left,
            FollowAction::Leave { exit_code: None, no_output: false },
        ),
        FollowState::Waiting => match event {
            FollowEvent::Woke { interrupted, log_exists, progress } => {
                if interrupted {
                    (FollowState::Left, FollowAction::Leave { exit_code: None, no_output: false })
                } else if log_exists {
                    (FollowState::Streaming { position: 0 }, FollowAction::ReadAt { position: 0 })
                } else {
                    match progress {
                        Progress::Missing => (
                            FollowState::Left,
                            FollowAction::Fail(FollowError::JobNotFound),
                        ),
                        Progress::Ended { exit_code } => (
                            FollowState::Left,
                            FollowAction::Leave { exit_code, no_output: true },
                        ),
                        Progress::Active => (FollowState::Waiting, FollowAction::Sleep),
                    }
                }
            },
            FollowEvent::Read { .. } => (FollowState::Waiting, FollowAction::Sleep),
        },
        FollowState::Streaming { position } => match event {
            FollowEvent::Woke { interrupted, .. } => {
                if interrupted {
                    (FollowState::Left, FollowAction::Leave { exit_code: None, no_output: false })
                } else {
                    (FollowState::Streaming { position }, FollowAction::ReadAt { position })
                }
            },
            FollowEvent::Read { bytes_read, progress } => {
                let position = position.saturating_add(bytes_read);
                match progress {
                    Progress::Missing => (
                        FollowState::Left,
                        FollowAction::Fail(FollowError::JobDisappeared),
                    ),
                    Progress::Ended { exit_code } => (
                        FollowState::Draining { position, exit_code },
                        FollowAction::ReadAt { position },
                    ),
                    Progress::Active => (FollowState::Streaming { position }, FollowAction::Sleep),
                }
            },
        },
        FollowState::Draining { position, exit_code } => match event {
            FollowEvent::Woke { interrupted, .. } => {
                if interrupted {
                    (FollowState::Left, FollowAction::Leave { exit_code: None, no_output: false })
                } else {
                    (
                        FollowState::Draining { position, exit_code },
                        FollowAction::ReadAt { position },
                    )
                }
            },
            FollowEvent::Read { bytes_read, .. } => {
                if bytes_read == 0 {
                    (FollowState::Left, FollowAction::Leave { exit_code, no_output: false })
                } else {
                    let position = position.saturating_add(bytes_read);
                    (
                        FollowState::Draining { position, exit_code },
                        FollowAction::ReadAt { position },
                    )
                }
            },
        },
    };
    *state = next;
    action
}

/// The bytes shown so far.
pub open spec fn shown(state: FollowState) -> int {
    match state {
        FollowState::Streaming { position } => position as int,
        FollowState::Draining { position, .. } => position as int,
        _ => 0,
    }
}

/// While the follower reads, what it has shown never shrinks, and each
/// read it asks for begins where the shown part ends.
pub proof fn lemma_follow_reads_on(state: FollowState, event: FollowEvent)
    requires
        state is Streaming || state is Draining,
    ensures
        !(follow_next(state, event).0 is Left) ==> shown(follow_next(state, event).0) >= shown(
            state,
        ),
        follow_next(state, event).1 matches FollowAction::ReadAt { position } ==> position
            == shown(follow_next(state, event).0),
{
}

/// An interrupt makes the follower leave without an exit code of the job,
/// whatever it was doing.
pub proof fn lemma_interrupt_leaves(state: FollowState, log_exists: bool, progress: Progress)
    ensures
        follow_next(state, FollowEvent::Woke { interrupted: true, log_exists, progress }) == (
            FollowState::Left,
            FollowAction::Leave { exit_code: None, no_output: false },
        ),
{
}

/// The follower leaves with an exit code only for a job that ended with it.
pub proof fn lemma_exit_code_is_the_jobs(state: FollowState, event: FollowEvent, code: i32)
    requires
        follow_next(state, event).1 matches FollowAction::Leave { exit_code, .. } && exit_code
            == Some(code),
    ensures
        (state matches FollowState::Draining { exit_code, .. } && exit_code == Some(code)) || (
        event matches FollowEvent::Woke { progress, .. } && progress == (Progress::Ended {
            exit_code: Some(code),
        })),
{
}

/// Once the job has ended the follower reads on without sleeping, for as
/// long as a read gives anything, and leaves only after a read that gave
/// nothing, or on an interrupt.
pub proof fn lemma_drain_reads_to_the_end(
    position: u64,
    exit_code: Option<i32>,
    event: FollowEvent,
)
    ensures
        ({
            let state = FollowState::Draining { position, exit_code };
            let (next, action) = follow_next(state, event);
            &&& !(action is Sleep)
            &&& !(action is Fail)
            &&& (event matches FollowEvent::Read { bytes_read, .. } && bytes_read > 0) ==> (event
                matches FollowEvent::Read { bytes_read, .. } && next == (FollowState::Draining {
                position: advanced(position, bytes_read),
                exit_code,
            }))
            &&& next is Left ==> ((event matches FollowEvent::Read { bytes_read, .. } && bytes_read
                == 0) || (event matches FollowEvent::Woke { interrupted, .. } && interrupted))
        }),
{
}

} // verus!
