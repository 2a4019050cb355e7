//! What a client needs to know of the daemon before it talks to it: whether
//! the process that the pid file names is still there.

use crate::number::{i32_of, parse_i32, trim, trimmed};
use crate::signal::probe_process;
use crate::text::chars_of;
use vstd::prelude::*;

verus! {

/// The process id that the text of a pid file stands for: a decimal
/// number, white space around it passed over.
pub open spec fn pid_in(contents: Seq<char>) -> Option<i32> {
    i32_of(trimmed(contents))
}

/// Reads the process id from the text of the pid file.
pub fn parse_pid(contents: &str) -> (pid: Option<i32>)
    ensures
        pid == pid_in(contents@),
{
    let chars = chars_of(contents);
    let inner = trim(chars.as_slice());
    parse_i32(inner.as_slice())
}

/// Whether the daemon runs, given what the pid file holds, or `None` where
/// there is no pid file. Without a file, and with one that names no
/// process id, the daemon does not run; otherwise the system is asked,
/// without a signal, whether the process exists: see `daemon_verdict`.
pub fn is_daemon_running(pid_file: Option<&str>) -> (running: bool)
    ensures
        running ==> (pid_file matches Some(contents) && pid_in(contents@) is Some),
{
    match pid_file {
        None => daemon_verdict(None, false),
        Some(contents) => {
            let pid = parse_pid(contents);
            match pid {
                None => daemon_verdict(pid, false),
                Some(process) => {
                    let exists = probe_process(process);
                    daemon_verdict(pid, exists)
                },
            }
        },
    }
}

/// Whether the daemon runs, given the process id that its pid file names,
/// if it names one, and what the system said when asked whether that
/// process exists: it runs where the file names a process and the process
/// exists.
pub fn daemon_verdict(pid: Option<i32>, exists: bool) -> (running: bool)
    ensures
        running == (pid is Some && exists),
{
    match pid {
        None => false,
        Some(_) => exists,
    }
}

} // verus!
