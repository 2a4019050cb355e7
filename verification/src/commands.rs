//! What the commands of the command line decide, apart from what they read
//! and print: which jobs `clean` removes, what `retry` submits, how `wait`
//! ends, and how `logs` shows a log.

use crate::duration::{duration_secs, parse_duration, DurationError};
use crate::job::{Job, JobView};
use crate::number::{decimal, format_i64, format_u64, signed_decimal};
use crate::store::{found_by_id, JobStore, StoreError};
use crate::text::{chars_of, string_of};
use crate::time::Timestamp;
use vstd::prelude::*;

verus! {

/// The time before which `clean` removes: now where everything that has
/// ended is to go, else the time that lies the given duration back.
pub open spec fn cutoff(now: Timestamp, older_than: Seq<char>, all: bool) -> Result<
    Timestamp,
    DurationError,
> {
    match duration_secs(older_than) {
        Err(e) => Err(e),
        Ok(secs) => if all {
            Ok(now)
        } else if now.secs - secs < i64::MIN {
            Err(DurationError::TooLong)
        } else {
            Ok(Timestamp { secs: (now.secs - secs) as i64, nanos: now.nanos })
        },
    }
}

/// The time before which `clean` removes the jobs that have ended.
pub fn clean_cutoff(now: Timestamp, older_than: &str, all: bool) -> (r: Result<
    Timestamp,
    DurationError,
>)
    ensures
        r == cutoff(now, older_than@, all),
{
    let secs = match parse_duration(older_than) {
        Ok(secs) => secs,
        Err(e) => {
            return Err(e);
        },
    };
    if all {
        return Ok(now);
    }
    match now.minus_secs(secs) {
        Some(before) => Ok(before),
        None => Err(DurationError::TooLong),
    }
}

/// What `clean` reports when it is done.
pub open spec fn clean_report(count: nat, older_than: Seq<char>, all: bool) -> Seq<char> {
    if all {
        "Removed "@ + decimal(count) + " non-running jobs"@
    } else {
        "Removed "@ + decimal(count) + " jobs older than "@ + older_than
    }
}

/// What `clean` reports when it is done.
pub fn clean_message(count: usize, older_than: &str, all: bool) -> (r: String)
    ensures
        r@ == clean_report(count as nat, older_than@, all),
{
    let head = "Removed ".to_string().concat(format_u64(count as u64).as_str());
    if all {
        head.concat(" non-running jobs")
    } else {
        head.concat(" jobs older than ").concat(older_than)
    }
}

/// The stem of a file name: what stands before its last dot; the whole
/// name where it has no dot, or none but a first one.
pub open spec fn stem_of(name: Seq<char>) -> Seq<char> {
    let dot = last_dot(name);
    if dot <= 0 {
        name
    } else {
        name.take(dot)
    }
}

/// The place of the last dot in a name, or -1 where it has none.
pub open spec fn last_dot(name: Seq<char>) -> int
    decreases name.len(),
{
    if name.len() == 0 {
        -1
    } else if name.last() == '.' {
        name.len() - 1
    } else {
        last_dot(name.drop_last())
    }
}

/// The stem of a file name.
pub fn file_stem(name: &str) -> (stem: String)
    ensures
        stem@ == stem_of(name@),
{
    let chars = chars_of(name);
    let mut i: usize = chars.len();
    assert(chars@.take(chars.len() as int) == chars@);
    while i > 0 && chars[i - 1] != '.'
        invariant
            i <= chars.len(),
            last_dot(chars@) == last_dot(chars@.take(i as int)),
        decreases i,
    {
        assert(chars@.take(i as int).drop_last() == chars@.take(i - 1));
        assert(chars@.take(i as int).last() == chars@[i - 1]);
        i -= 1;
    }
    proof {
        if i > 0 {
            assert(chars@.take(i as int).last() == chars@[i - 1]);
        }
    }
    if i <= 1 {
        name.to_string()
    } else {
        let head = vstd::slice::slice_subrange(chars.as_slice(), 0, i - 1);
        string_of(head)
    }
}

/// Whether a file in the log directory belongs to no job: no job answers
/// to the stem of its name.
pub fn is_orphan_log(store: &JobStore, file_name: &str) -> (r: Result<bool, StoreError>)
    ensures
        match r {
            Ok(orphan) => match found_by_id(store@, stem_of(file_name@)) {
                Ok(found) => orphan == found is None,
                Err(_) => false,
            },
            Err(e) => e is Ambiguous && found_by_id(store@, stem_of(file_name@)) is Err,
        },
{
    let stem = file_stem(file_name);
    match store.get(stem.as_str()) {
        Ok(Some(_)) => Ok(false),
        Ok(None) => Ok(true),
        Err(e) => Err(e),
    }
}

/// The job that a retry submits: the same command in the same place, with
/// the name, the timeout and the context of the earlier job; under a new
/// id, pending, and without the earlier job's idempotency key.
pub open spec fn retried(earlier: JobView, id: Seq<char>, at: Timestamp) -> JobView {
    JobView {
        name: earlier.name,
        timeout_secs: earlier.timeout_secs,
        context: earlier.context,
        ..JobView::fresh(id, earlier.command, earlier.cwd, earlier.project, at)
    }
}

/// The job that a retry of `earlier` submits, under the id given.
pub fn retry_job(earlier: &Job, id: String, at: Timestamp) -> (job: Job)
    ensures
        job@ == retried(earlier@, id@, at),
        job@.wf(),
{
    let copy = earlier.duplicate();
    let mut job = Job::new_at(id, copy.command, copy.cwd, copy.project, at);
    if let Some(name) = copy.name {
        job = job.with_name(name);
    }
    if let Some(secs) = copy.timeout_secs {
        job = job.with_timeout(secs);
    }
    if let Some(context) = copy.context {
        job = job.with_context(context);
    }
    job
}

/// The exit code of `wait` when the wait runs out.
pub const WAIT_TIMEOUT_EXIT: i32 = 124;

/// How a `wait` goes on after a look at the job.
#[derive(Debug)]
pub enum WaitVerdict {
    /// The job has ended: print the line and leave with the exit code.
    Ended { line: String, exit_code: i32 },
    /// The wait has run out: leave with `WAIT_TIMEOUT_EXIT`.
    TimedOut,
    /// Sleep and look again.
    KeepWaiting,
}

/// The line that `wait` prints for a job that has ended.
pub open spec fn ended_line(job: JobView) -> Seq<char> {
    match job.exit_code {
        Some(code) => if code == 0 {
            "Completed (exit 0)"@
        } else {
            "Failed (exit "@ + signed_decimal(code as int) + ")"@
        },
        None => job.status.name(),
    }
}

/// How a `wait` goes on: a job that has ended ends the wait, with the
/// job's own exit code where it has one and 0 otherwise; a wait that has
/// lasted longer than its timeout runs out.
pub fn wait_verdict(job: &Job, elapsed_secs: u64, timeout_secs: Option<u64>) -> (r: WaitVerdict)
    ensures
        if job@.status.terminal() {
            r matches WaitVerdict::Ended { line, exit_code } && line@ == ended_line(job@)
                && exit_code == match job@.exit_code {
                Some(code) => code,
                None => 0i32,
            }
        } else if timeout_secs matches Some(t) && elapsed_secs > t {
            r is TimedOut
        } else {
            r is KeepWaiting
        },
{
    if job.status.is_terminal() {
        match job.exit_code {
            Some(code) => {
                if code == 0 {
                    WaitVerdict::Ended { line: "Completed (exit 0)".to_string(), exit_code: 0 }
                } else {
                    let line = "Failed (exit ".to_string().concat(
                        format_i64(code as i64).as_str(),
                    ).concat(")");
                    WaitVerdict::Ended { line, exit_code: code }
                }
            },
            None => WaitVerdict::Ended { line: job.status.to_string(), exit_code: 0 },
        }
    } else {
        let out = match timeout_secs {
            Some(t) => elapsed_secs > t,
            None => false,
        };
        if out {
            WaitVerdict::TimedOut
        } else {
            WaitVerdict::KeepWaiting
        }
    }
}

/// How `logs` shows a log.
#[derive(Debug, Clone, Copy, PartialEq, Eq, Structural)]
pub enum LogPlan {
    /// Follow the log while the job runs.
    Follow { colorize: bool },
    /// There is no log yet: say so.
    NoOutput,
    /// Show the last `lines` lines.
    Tail { lines: usize, colorize: bool, pager: bool },
    /// Show the whole log.
    Whole { colorize: bool, pager: bool },
}

/// Whether output is coloured: on a terminal, unless `NO_COLOR` is set.
pub fn should_colorize(is_terminal: bool, no_color: bool) -> (r: bool)
    ensures
        r == (is_terminal && !no_color),
{
    is_terminal && !no_color
}

/// How `logs` shows a log: following has precedence; a log that does not
/// exist has nothing to show; a pager is used only for coloured output.
pub fn log_plan(
    tail: Option<usize>,
    follow: bool,
    pager: bool,
    colorize: bool,
    log_exists: bool,
) -> (plan: LogPlan)
    ensures
        plan == if follow {
            LogPlan::Follow { colorize }
        } else if !log_exists {
            LogPlan::NoOutput
        } else {
            match tail {
                Some(lines) => LogPlan::Tail { lines, colorize, pager: colorize && pager },
                None => LogPlan::Whole { colorize, pager: colorize && pager },
            }
        },
{
    if follow {
        LogPlan::Follow { colorize }
    } else if !log_exists {
        LogPlan::NoOutput
    } else {
        match tail {
            Some(lines) => LogPlan::Tail { lines, colorize, pager: colorize && pager },
            None => LogPlan::Whole { colorize, pager: colorize && pager },
        }
    }
}

/// What `serde_json::from_str` makes of a text: whether it is JSON at all.
pub uninterp spec fn is_json(text: Seq<char>) -> bool;

/// Calls `serde_json::from_str` to read a text as a JSON value. Whether a
/// text is JSON depends on the text alone; the contract gives that a
/// name, and promises nothing of the value itself.
#[verifier::external_body]
fn read_json(text: &str) -> (value: Option<serde_json::Value>)
    ensures
        value is Some == is_json(text@),
{
    serde_json::from_str(text).ok()
}

/// The context given on the command line is no JSON.
#[derive(Debug, Clone, Copy, PartialEq, Eq, Structural)]
pub struct InvalidContext;

/// The context of a submission, from the JSON text given for it, if any.
pub fn parse_context(text: Option<&str>) -> (r: Result<Option<serde_json::Value>, InvalidContext>)
    ensures
        match text {
            None => r == Ok::<Option<serde_json::Value>, InvalidContext>(None),
            Some(t) => if is_json(t@) {
                r matches Ok(Some(_))
            } else {
                r is Err
            },
        },
{
    match text {
        None => Ok(None),
        Some(t) => match read_json(t) {
            Some(value) => Ok(Some(value)),
            None => Err(InvalidContext),
        },
    }
}

} // verus!
