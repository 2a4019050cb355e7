//! The monitor of one running job: what to do at each poll of its process,
//! and how the job's end is recorded.
//!
//! The monitor waits for the earliest of three things: the process exits,
//! the job's timeout runs out, a client asks for a stop. On a timeout it
//! asks the process group to end, and after a grace period makes it.

use crate::signal::GroupSignal;
use crate::status::Status;
use vstd::prelude::*;

verus! {

/// How long a process group is given to end after SIGTERM, in milliseconds.
pub const GRACE_MS: u64 = 1000;

/// How long the monitor sleeps between two polls, in milliseconds.
pub const POLL_MS: u64 = 100;

/// What the monitor is doing.
#[derive(Debug, Clone, Copy, PartialEq, Eq, Structural)]
pub enum MonitorState {
    /// The job runs and nothing has been asked of it.
    Watching,
    /// The job was told to end at `since` ms; `escalated` once SIGKILL was sent.
    Ending { since_ms: u64, escalated: bool },
    /// The job's end has been handed on for recording.
    Finished,
}

/// What a poll of the job's process found.
#[derive(Debug, Clone, Copy, PartialEq, Eq, Structural)]
pub enum ProcessState {
    /// The process has not exited.
    Alive,
    /// The process exited; `code` is absent where a signal ended it.
    Exited { success: bool, code: Option<i32> },
    /// The system could not say.
    Unknown,
}

/// What a poll found of the job's table entry.
#[derive(Debug, Clone, Copy, PartialEq, Eq, Structural)]
pub enum EntryState {
    /// The table has let go of the job: the daemon is shutting down.
    Gone,
    /// The job is watched; `stop_requested` once a client's stop was signalled.
    Watched { stop_requested: bool },
}

/// What one poll observed.
#[derive(Debug, Clone, Copy, PartialEq, Eq, Structural)]
pub struct Poll {
    pub entry: EntryState,
    pub process: ProcessState,
    /// Milliseconds since the monitor started.
    pub elapsed_ms: u64,
}

/// What the monitor does next.
#[derive(Debug, Clone, Copy, PartialEq, Eq, Structural)]
pub enum MonitorAction {
    /// Sleep for `POLL_MS`, then poll again.
    Sleep,
    /// Send the signal to the job's process group, then sleep and poll again.
    Signal(GroupSignal),
    /// Record the job's end with this status and exit code, and stop monitoring.
    Finish { status: Status, exit_code: Option<i32> },
    /// Nothing is left to do.
    Idle,
}

/// The timeout in milliseconds, as far as a `u64` holds it.
pub open spec fn timeout_ms(timeout_secs: u64) -> u64 {
    if timeout_secs * 1000 > u64::MAX {
        u64::MAX
    } else {
        (timeout_secs * 1000) as u64
    }
}

/// The status and exit code under which a process that exited by itself is
/// recorded: completed where the system reports success, failed otherwise.
pub open spec fn exit_record(success: bool, code: Option<i32>) -> (Status, Option<i32>) {
    if success {
        (Status::Completed, code)
    } else {
        (Status::Failed, code)
    }
}

/// The monitor's next state and action, given its state, the job's timeout
/// and what the poll observed.
pub open spec fn monitor_next(
    state: MonitorState,
    timeout_secs: Option<u64>,
    poll: Poll,
) -> (MonitorState, MonitorAction) {
    match state {
        MonitorState::Finished => (MonitorState::Finished, MonitorAction::Idle),
        MonitorState::Watching => match poll.entry {
            EntryState::Gone => (
                MonitorState::Finished,
                MonitorAction::Finish { status: Status::Interrupted, exit_code: None },
            ),
            EntryState::Watched { stop_requested } => match poll.process {
                ProcessState::Exited { success, code } => (
                    MonitorState::Finished,
                    if stop_requested {
                        MonitorAction::Finish { status: Status::Stopped, exit_code: None }
                    } else {
                        MonitorAction::Finish {
                            status: exit_record(success, code).0,
                            exit_code: exit_record(success, code).1,
                        }
                    },
                ),
                ProcessState::Unknown => (
                    MonitorState::Finished,
                    MonitorAction::Finish { status: Status::Failed, exit_code: None },
                ),
                ProcessState::Alive => if stop_requested {
                    (
                        MonitorState::Ending { since_ms: poll.elapsed_ms, escalated: false },
                        MonitorAction::Sleep,
                    )
                } else if timeout_secs matches Some(t) && poll.elapsed_ms >= timeout_ms(t) {
                    (
                        MonitorState::Ending { since_ms: poll.elapsed_ms, escalated: false },
                        MonitorAction::Signal(GroupSignal::Terminate),
                    )
                } else {
                    (MonitorState::Watching, MonitorAction::Sleep)
                },
            },
        },
        MonitorState::Ending { since_ms, escalated } => match poll.entry {
            EntryState::Gone => (
                MonitorState::Finished,
                MonitorAction::Finish { status: Status::Interrupted, exit_code: None },
            ),
            EntryState::Watched { .. } => match poll.process {
                ProcessState::Alive => if !escalated && poll.elapsed_ms - since_ms >= GRACE_MS {
                    (
                        MonitorState::Ending { since_ms, escalated: true },
                        MonitorAction::Signal(GroupSignal::Kill),
                    )
                } else {
                    (state, MonitorAction::Sleep)
                },
                _ => (
                    MonitorState::Finished,
                    MonitorAction::Finish { status: Status::Stopped, exit_code: None },
                ),
            },
        },
    }
}

/// The status and exit code under which a process that exited by itself is recorded.
pub fn exit_outcome(success: bool, code: Option<i32>) -> (r: (Status, Option<i32>))
    ensures
        r == exit_record(success, code),
{
    if success {
        (Status::Completed, code)
    } else {
        (Status::Failed, code)
    }
}

/// Whether a job with this timeout has run too long after `elapsed_ms`.
pub fn timed_out(timeout_secs: Option<u64>, elapsed_ms: u64) -> (r: bool)
    ensures
        r == (timeout_secs matches Some(t) && elapsed_ms >= timeout_ms(t)),
{
    match timeout_secs {
        None => false,
        Some(t) => {
            let limit: u64 = match t.checked_mul(1000) {
                Some(ms) => ms,
                None => u64::MAX,
            };
            elapsed_ms >= limit
        },
    }
}

/// Takes the monitor one poll further: returns what to do and moves the
/// state on.
pub fn monitor_step(state: &mut MonitorState, timeout_secs: Option<u64>, poll: Poll) -> (action:
    MonitorAction)
    ensures
        (*final(state), action) == monitor_next(*old(state), timeout_secs, poll),
{
    let (next, action) = match *state {
        MonitorState::Finished => (MonitorState::Finished, MonitorAction::Idle),
        MonitorState::Watching => match poll.entry {
            EntryState::Gone => (
                MonitorState::Finished,
                MonitorAction::Finish { status: Status::Interrupted, exit_code: None },
            ),
            EntryState::Watched { stop_requested } => match poll.process {
                ProcessState::Exited { success, code } => {
                    if stop_requested {
                        (
                            MonitorState::Finished,
                            MonitorAction::Finish { status: Status::Stopped, exit_code: None },
                        )
                    } else {
                        let (status, exit_code) = exit_outcome(success, code);
                        (MonitorState::Finished, MonitorAction::Finish { status, exit_code })
                    }
                },
                ProcessState::Unknown => (
                    MonitorState::Finished,
                    MonitorAction::Finish { status: Status::Failed, exit_code: None },
                ),
                ProcessState::Alive => {
                    if stop_requested {
                        (
                            MonitorState::Ending { since_ms: poll.elapsed_ms, escalated: false },
                            MonitorAction::Sleep,
                        )
                    } else if timed_out(timeout_secs, poll.elapsed_ms) {
                        (
                            MonitorState::Ending { since_ms: poll.elapsed_ms, escalated: false },
                            MonitorAction::Signal(GroupSignal::Terminate),
                        )
                    } else {
                        (MonitorState::Watching, MonitorAction::Sleep)
                    }
                },
            },
        },
        MonitorState::Ending { since_ms, escalated } => match poll.entry {
            EntryState::Gone => (
                MonitorState::Finished,
                MonitorAction::Finish { status: Status::Interrupted, exit_code: None },
            ),
            EntryState::Watched { .. } => match poll.process {
                ProcessState::Alive => {
                    if !escalated && poll.elapsed_ms >= since_ms && poll.elapsed_ms - since_ms
                        >= GRACE_MS {
                        (
                            MonitorState::Ending { since_ms, escalated: true },
                            MonitorAction::Signal(GroupSignal::Kill),
                        )
                    } else {
                        (MonitorState::Ending { since_ms, escalated }, MonitorAction::Sleep)
                    }
                },
                _ => (
                    MonitorState::Finished,
                    MonitorAction::Finish { status: Status::Stopped, exit_code: None },
                ),
            },
        },
    };
    *state = next;
    action
}

/// Whatever the monitor hands on for recording is a terminal status; a
/// stop and an interruption carry no exit code; and with that the monitor
/// has finished.
pub proof fn lemma_monitor_finishes_terminal(
    state: MonitorState,
    timeout_secs: Option<u64>,
    poll: Poll,
)
    ensures
        monitor_next(state, timeout_secs, poll).1 matches MonitorAction::Finish {
            status,
            exit_code,
        } ==> {
            &&& status.terminal()
            &&& status is Stopped || status is Interrupted ==> exit_code is None
            &&& monitor_next(state, timeout_secs, poll).0 is Finished
        },
        monitor_next(state, timeout_secs, poll).0 is Finished ==> !(monitor_next(
            state,
            timeout_secs,
            poll,
        ).1 is Sleep) && !(monitor_next(state, timeout_secs, poll).1 is Signal),
{
}

/// A monitor that has finished stays finished and asks for nothing more.
pub proof fn lemma_monitor_finished_is_final(timeout_secs: Option<u64>, poll: Poll)
    ensures
        monitor_next(MonitorState::Finished, timeout_secs, poll) == (
            MonitorState::Finished,
            MonitorAction::Idle,
        ),
{
}

/// A job that runs past its timeout is told to end, and one that was told
/// to end and is still alive after the grace period is killed.
pub proof fn lemma_timeout_escalates(timeout_secs: u64, poll: Poll, since_ms: u64)
    requires
        poll.entry == (EntryState::Watched { stop_requested: false }),
        poll.process is Alive,
    ensures
        poll.elapsed_ms >= timeout_ms(timeout_secs) ==> monitor_next(
            MonitorState::Watching,
            Some(timeout_secs),
            poll,
        ) == (
            MonitorState::Ending { since_ms: poll.elapsed_ms, escalated: false },
            MonitorAction::Signal(GroupSignal::Terminate),
        ),
        poll.elapsed_ms - since_ms >= GRACE_MS ==> monitor_next(
            MonitorState::Ending { since_ms, escalated: false },
            Some(timeout_secs),
            poll,
        ) == (MonitorState::Ending { since_ms, escalated: true }, MonitorAction::Signal(GroupSignal::Kill)),
{
}

/// A job is recorded as completed only where it was watched, no stop was
/// asked for and none was under way, and its process exited with success;
/// and then with the exit code of the process.
pub proof fn lemma_completed_means_success(
    state: MonitorState,
    timeout_secs: Option<u64>,
    poll: Poll,
    exit_code: Option<i32>,
)
    requires
        monitor_next(state, timeout_secs, poll).1 == (MonitorAction::Finish {
            status: Status::Completed,
            exit_code,
        }),
    ensures
        state is Watching,
        poll.entry == (EntryState::Watched { stop_requested: false }),
        poll.process == (ProcessState::Exited { success: true, code: exit_code }),
{
}

/// The process group is killed only where it was told to end before and
/// has outlived the grace period; and it is told to end by the monitor
/// only on a timeout.
pub proof fn lemma_signals_in_turn(state: MonitorState, timeout_secs: Option<u64>, poll: Poll)
    ensures
        monitor_next(state, timeout_secs, poll).1 == MonitorAction::Signal(GroupSignal::Kill)
            ==> (state matches MonitorState::Ending { since_ms, escalated } && !escalated
            && poll.elapsed_ms - since_ms >= GRACE_MS && poll.process is Alive),
        monitor_next(state, timeout_secs, poll).1 == MonitorAction::Signal(GroupSignal::Terminate)
            ==> (state is Watching && poll.process is Alive && (timeout_secs matches Some(t)
            && poll.elapsed_ms >= timeout_ms(t))),
{
}

} // verus!
