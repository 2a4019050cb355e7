//! The table that `list` prints: which jobs it asks for and how a job's
//! row is laid out.

use crate::job::{Job, JobView};
use crate::number::{decimal, format_i64, format_u64, signed_decimal};
use crate::status::{status_named, Status, UnknownStatus};
use crate::text::{chars_of, lowercased, string_of, texts};
use crate::time::Timestamp;
use vstd::prelude::*;

verus! {

/// How many jobs a listing shows where no limit is given.
pub const DEFAULT_LIMIT: usize = 10;

/// The limit of a listing: none where all jobs are asked for, else the
/// limit given, else the default.
pub fn effective_limit(limit: Option<usize>, all: bool) -> (r: Option<usize>)
    ensures
        r == if all {
            None
        } else {
            Some(
                match limit {
                    Some(n) => n,
                    None => DEFAULT_LIMIT,
                },
            )
        },
{
    if all {
        None
    } else {
        match limit {
            Some(n) => Some(n),
            None => Some(DEFAULT_LIMIT),
        }
    }
}

/// The status that a listing is restricted to: failed where only failures
/// are asked for, else the status named, if one is.
pub fn status_filter(named: Option<&str>, failed: bool) -> (r: Result<Option<Status>, UnknownStatus>)
    ensures
        r == if failed {
            Ok::<Option<Status>, UnknownStatus>(Some(Status::Failed))
        } else {
            match named {
                None => Ok::<Option<Status>, UnknownStatus>(None),
                Some(name) => match status_named(lowercased(name@)) {
                    Some(status) => Ok::<Option<Status>, UnknownStatus>(Some(status)),
                    None => Err::<Option<Status>, UnknownStatus>(UnknownStatus),
                },
            }
        },
{
    if failed {
        return Ok(Some(Status::Failed));
    }
    match named {
        None => Ok(None),
        Some(name) => match Status::parse(name) {
            Ok(status) => Ok(Some(status)),
            Err(e) => Err(e),
        },
    }
}

/// A text cut down for a column: unchanged up to `limit` characters,
/// else its first `keep` characters and three dots.
pub open spec fn shortened(s: Seq<char>, limit: nat, keep: nat) -> Seq<char> {
    if s.len() > limit {
        s.take(keep as int) + "..."@
    } else {
        s
    }
}

/// A text cut down for a column.
pub fn shorten(s: &str, limit: usize, keep: usize) -> (r: String)
    requires
        keep <= limit,
    ensures
        r@ == shortened(s@, limit as nat, keep as nat),
{
    let chars = chars_of(s);
    if chars.len() > limit {
        let head = vstd::slice::slice_subrange(chars.as_slice(), 0, keep);
        string_of(head).concat("...")
    } else {
        s.to_string()
    }
}

/// A text cut down to `max` characters: where it is longer, its end gives
/// way to three dots.
pub fn truncate(s: &str, max: usize) -> (r: String)
    requires
        max >= 3,
    ensures
        r@ == shortened(s@, max as nat, (max - 3) as nat),
        r@.len() <= max,
{
    proof {
        reveal_strlit("...");
    }
    shorten(s, max, max - 3)
}

/// A text filled up with blanks on the right to `width` characters; a
/// longer text stays as it is.
pub open spec fn padded(s: Seq<char>, width: nat) -> Seq<char> {
    if s.len() >= width {
        s
    } else {
        s + Seq::new((width - s.len()) as nat, |i: int| ' ')
    }
}

/// A text filled up with blanks on the right.
pub fn pad_right(s: &str, width: usize) -> (r: String)
    ensures
        r@ == padded(s@, width as nat),
{
    let mut chars = chars_of(s);
    let ghost start = chars@;
    while chars.len() < width
        invariant
            start == s@,
            chars@.len() >= start.len(),
            chars@.len() <= width || chars@.len() == start.len(),
            chars@ == start + Seq::new((chars@.len() - start.len()) as nat, |i: int| ' '),
        decreases width - chars.len(),
    {
        let ghost before = chars@;
        chars.push(' ');
        assert(chars@ =~= start + Seq::new((chars@.len() - start.len()) as nat, |i: int| ' '));
    }
    proof {
        if start.len() >= width {
            assert(chars@ =~= start);
        }
    }
    assert(chars@ =~= padded(s@, width as nat));
    string_of(chars.as_slice())
}

/// How long ago `then` was, in the largest unit that fits: days, hours,
/// minutes; less than a minute, and any time not yet past, is just now.
pub open spec fn relative_time(now: Timestamp, then: Timestamp) -> Seq<char> {
    let secs = now.secs_since(then);
    if secs / 86400 > 0 {
        decimal((secs / 86400) as nat) + "d ago"@
    } else if secs / 3600 > 0 {
        decimal((secs / 3600) as nat) + "h ago"@
    } else if secs / 60 > 0 {
        decimal((secs / 60) as nat) + "m ago"@
    } else {
        "just now"@
    }
}

/// How long ago `then` was, as of `now`.
pub fn format_relative_time(now: Timestamp, then: Timestamp) -> (r: String)
    ensures
        r@ == relative_time(now, then),
{
    let secs: u64 = now.elapsed_secs_since(&then);
    if secs / 86400 > 0 {
        format_u64(secs / 86400).concat("d ago")
    } else if secs / 3600 > 0 {
        format_u64(secs / 3600).concat("h ago")
    } else if secs / 60 > 0 {
        format_u64(secs / 60).concat("m ago")
    } else {
        "just now".to_string()
    }
}

/// The heading of the table.
pub open spec fn header_text() -> Seq<char> {
    padded("ID"@, 10).push(' ') + padded("STATUS"@, 12).push(' ') + padded("EXIT"@, 6).push(' ')
        + padded("NAME"@, 12).push(' ') + padded("COMMAND"@, 30).push(' ') + "STARTED"@
}

/// The row of a job: id, status, exit code, name, command and start, each
/// but the last in a column of fixed width; a dash stands for what is absent.
pub open spec fn row_text(job: JobView, now: Timestamp) -> Seq<char> {
    let exit = match job.exit_code {
        Some(code) => signed_decimal(code as int),
        None => "-"@,
    };
    let name = match job.name {
        Some(name) => name,
        None => "-"@,
    };
    let started = match job.started_at {
        Some(at) => relative_time(now, at),
        None => "-"@,
    };
    padded(job.id, 10).push(' ') + padded(job.status.name(), 12).push(' ') + padded(exit, 6).push(
        ' ',
    ) + padded(shortened(name, 10, 7), 12).push(' ') + padded(
        shortened(job.command, 28, 25),
        30,
    ).push(' ') + started
}

/// Puts a column and the blank that follows it at the end of a row.
fn push_column(row: String, text: &str, width: usize) -> (r: String)
    ensures
        r@ == row@ + padded(text@, width as nat).push(' '),
{
    proof {
        reveal_strlit(" ");
    }
    let cell = pad_right(text, width).concat(" ");
    assert(cell@ =~= padded(text@, width as nat).push(' '));
    row.concat(cell.as_str())
}

/// The heading of the table.
pub fn format_header() -> (r: String)
    ensures
        r@ == header_text(),
{
    let row = String::new();
    let row = push_column(row, "ID", 10);
    let row = push_column(row, "STATUS", 12);
    let row = push_column(row, "EXIT", 6);
    let row = push_column(row, "NAME", 12);
    let row = push_column(row, "COMMAND", 30);
    let r = row.concat("STARTED");
    assert(r@ =~= header_text());
    r
}

/// What `list` prints, line by line: the heading and a row for each job,
/// or a note that there is none.
pub open spec fn listing_text(jobs: Seq<JobView>, now: Timestamp) -> Seq<Seq<char>> {
    if jobs.len() == 0 {
        seq!["No jobs found"@]
    } else {
        seq![header_text()] + jobs.map_values(|j: JobView| row_text(j, now))
    }
}

/// What `list` prints for the jobs given, line by line.
pub fn format_listing(jobs: &Vec<Job>, now: Timestamp) -> (lines: Vec<String>)
    ensures
        texts(lines@) == listing_text(crate::job::views(jobs@), now),
{
    let mut lines: Vec<String> = Vec::new();
    if jobs.len() == 0 {
        lines.push("No jobs found".to_string());
        assert(texts(lines@) =~= seq!["No jobs found"@]);
        return lines;
    }
    let ghost all = crate::job::views(jobs@);
    let ghost rows = all.map_values(|j: JobView| row_text(j, now));
    lines.push(format_header());
    let mut i: usize = 0;
    assert(texts(lines@) =~= seq![header_text()] + rows.take(0));
    while i < jobs.len()
        invariant
            i <= jobs.len(),
            all == crate::job::views(jobs@),
            rows == all.map_values(|j: JobView| row_text(j, now)),
            texts(lines@) == seq![header_text()] + rows.take(i as int),
        decreases jobs.len() - i,
    {
        let ghost before = texts(lines@);
        lines.push(format_row(&jobs[i], now));
        assert(texts(lines@) =~= before.push(rows[i as int]));
        assert(rows.take(i + 1) =~= rows.take(i as int).push(rows[i as int]));
        i += 1;
    }
    assert(rows.take(jobs.len() as int) =~= rows);
    lines
}

/// The row of a job in the table, as of `now`.
pub fn format_row(job: &Job, now: Timestamp) -> (r: String)
    ensures
        r@ == row_text(job@, now),
{
    let exit = match job.exit_code {
        Some(code) => format_i64(code as i64),
        None => "-".to_string(),
    };
    let name = match &job.name {
        Some(name) => truncate(name.as_str(), 10),
        None => truncate("-", 10),
    };
    let command = shorten(job.command.as_str(), 28, 25);
    let started = match job.started_at {
        Some(at) => format_relative_time(now, at),
        None => "-".to_string(),
    };
    let row = String::new();
    let row = push_column(row, job.short_id(), 10);
    let row = push_column(row, job.status.as_str(), 12);
    let row = push_column(row, exit.as_str(), 6);
    let row = push_column(row, name.as_str(), 12);
    let row = push_column(row, command.as_str(), 30);
    let r = row.concat(started.as_str());
    proof {
        reveal_strlit("-");
        reveal_strlit("...");
        assert(r@ =~= row_text(job@, now));
    }
    r
}

} // verus!
