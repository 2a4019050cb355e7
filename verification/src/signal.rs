//! Signalling a job's process group, and probing whether a process exists.

use vstd::prelude::*;

verus! {

/// The signal sent to a job's process group.
#[derive(Debug, Clone, Copy, PartialEq, Eq, Structural)]
pub enum GroupSignal {
    /// SIGTERM: asks the processes to end.
    Terminate,
    /// SIGKILL: ends them.
    Kill,
}

/// What became of an attempt to signal a process group.
#[derive(Debug, Clone, Copy, PartialEq, Eq, Structural)]
pub enum KillOutcome {
    /// The pid names no process group that may be signalled; nothing was sent.
    Refused,
    /// The signal was sent.
    Delivered,
    /// The system refused the signal, as it does for a group that is gone.
    Failed,
}

/// The signal for a stop request: a forced stop kills, any other terminates.
pub open spec fn signal_for(force: bool) -> GroupSignal {
    if force {
        GroupSignal::Kill
    } else {
        GroupSignal::Terminate
    }
}

/// The process group that a job's pid stands for. Pid 0 would stand for the
/// caller's own group and pid 1 for every process there is, so neither names
/// a group; nor does a pid that no `i32` holds.
pub open spec fn group_of(pid: u32) -> Option<i32> {
    if 1 < pid <= i32::MAX {
        Some(pid as i32)
    } else {
        None
    }
}

/// The group and the signal of a stop request, where the pid names a group.
pub fn kill_order(pid: u32, force: bool) -> (order: Option<(i32, GroupSignal)>)
    ensures
        order == match group_of(pid) {
            Some(group) => Some((group, signal_for(force))),
            None => None,
        },
{
    if pid <= 1 || pid > i32::MAX as u32 {
        return None;
    }
    let signal = if force {
        GroupSignal::Kill
    } else {
        GroupSignal::Terminate
    };
    Some((pid as i32, signal))
}

/// Calls `nix::sys::signal::killpg` on the group with SIGTERM or SIGKILL and
/// says whether the call succeeded. Nothing is promised of the answer: it
/// depends on which processes exist. Groups 0 and 1 are kept out, for which
/// `killpg` signals other processes than a job's.
#[verifier::external_body]
fn send_to_group(group: i32, signal: GroupSignal) -> (delivered: bool)
    requires
        group > 1,
{
    let signal = match signal {
        GroupSignal::Terminate => nix::sys::signal::Signal::SIGTERM,
        GroupSignal::Kill => nix::sys::signal::Signal::SIGKILL,
    };
    nix::sys::signal::killpg(nix::unistd::Pid::from_raw(group), signal).is_ok()
}

/// Calls `nix::sys::signal::kill` with no signal, which sends nothing and
/// only checks that the process could be signalled. Nothing is promised of
/// the answer: it depends on which processes exist.
#[verifier::external_body]
pub(crate) fn probe_process(pid: i32) -> (exists: bool) {
    nix::sys::signal::kill(nix::unistd::Pid::from_raw(pid), None).is_ok()
}

/// The outcome of a stop request, given whether the system took the signal.
pub fn kill_outcome(order: Option<(i32, GroupSignal)>, delivered: bool) -> (outcome: KillOutcome)
    ensures
        outcome == match order {
            None => KillOutcome::Refused,
            Some(_) => if delivered {
                KillOutcome::Delivered
            } else {
                KillOutcome::Failed
            },
        },
{
    match order {
        None => KillOutcome::Refused,
        Some(_) => if delivered {
            KillOutcome::Delivered
        } else {
            KillOutcome::Failed
        },
    }
}

/// Signals the whole process group that `pid` leads: SIGKILL where `force`
/// is set, SIGTERM otherwise. A pid that names no group is refused and
/// nothing is sent.
pub fn kill_process_group(pid: u32, force: bool) -> (outcome: KillOutcome)
    ensures
        outcome is Refused <==> group_of(pid) is None,
{
    let order = kill_order(pid, force);
    match order {
        None => kill_outcome(order, false),
        Some((group, signal)) => {
            let delivered = send_to_group(group, signal);
            kill_outcome(order, delivered)
        },
    }
}

} // verus!
