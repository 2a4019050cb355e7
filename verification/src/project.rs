//! The project that a job belongs to, and the ids that jobs are given.

use crate::number::{format_in_base, in_base, trim, trimmed};
use crate::text::{chars_of, string_of};
use crate::time::Timestamp;
use vstd::prelude::*;

verus! {

/// The project of a working directory: the top level of the repository
/// around it, as the version control system reports it, without the white
/// space around the report; and the working directory itself where there
/// is no report.
pub open spec fn project_of(cwd: Seq<char>, toplevel: Option<Seq<char>>) -> Seq<char> {
    match toplevel {
        Some(report) => trimmed(report),
        None => cwd,
    }
}

/// The project of a working directory, given what `git rev-parse
/// --show-toplevel` printed there, or `None` where it failed.
pub fn detect_project(cwd: &str, toplevel: Option<&str>) -> (project: String)
    ensures
        project@ == project_of(
            cwd@,
            match toplevel {
                Some(report) => Some(report@),
                None => None,
            },
        ),
{
    match toplevel {
        Some(report) => {
            let chars = chars_of(report);
            let inner = trim(chars.as_slice());
            string_of(inner.as_slice())
        },
        None => cwd.to_string(),
    }
}

/// A number in base 36, without leading zeros.
pub open spec fn base36(n: nat) -> Seq<char> {
    in_base(n, 36)
}

/// The character is safe in a URL and in a file name: a decimal digit or a
/// lower-case letter.
pub open spec fn id_char(c: char) -> bool {
    '0' <= c <= '9' || 'a' <= c <= 'z'
}

/// A number in base 36 is short and made of id characters only.
pub proof fn lemma_base36_is_an_id(n: nat)
    ensures
        base36(n).len() >= 1,
        forall|i: int| 0 <= i < base36(n).len() ==> id_char(#[trigger] base36(n)[i]),
        n <= u64::MAX ==> base36(n).len() <= 13,
    decreases n,
{
    if n >= 36 {
        lemma_base36_is_an_id(n / 36);
        let s = base36(n);
        assert forall|i: int| 0 <= i < s.len() implies id_char(#[trigger] s[i]) by {
            if i < s.len() - 1 {
                assert(s[i] == base36(n / 36)[i]);
            }
        }
        if n <= u64::MAX {
            assert(pow36(13) > u64::MAX) by {
                reveal_with_fuel(pow36, 14);
            }
            lemma_base36_len(n, 13);
        }
    }
}

/// A number below 36 to the `k` has at most `k` digits in base 36.
proof fn lemma_base36_len(n: nat, k: nat)
    requires
        k >= 1,
        n < pow36(k),
    ensures
        base36(n).len() <= k,
    decreases k,
{
    reveal_with_fuel(pow36, 2);
    if n >= 36 {
        assert(k >= 2);
        assert(pow36(k) == 36 * pow36((k - 1) as nat));
        lemma_base36_len(n / 36, (k - 1) as nat);
    }
}

/// 36 to the `k`.
spec fn pow36(k: nat) -> nat
    decreases k,
{
    if k == 0 {
        1
    } else {
        36 * pow36((k - 1) as nat)
    }
}

/// The id that stands for a number: the number in base 36.
pub fn job_id(seed: u64) -> (id: String)
    ensures
        id@ == base36(seed as nat),
{
    format_in_base(seed, 36)
}

/// The number from which the ids of the jobs submitted at `at` are
/// made: the milliseconds since the epoch, as far as 64 bits hold them,
/// and the milliseconds within the second for a time before the epoch.
pub open spec fn seed_at(at: Timestamp) -> u64 {
    let millis = (at.nanos / 1_000_000) as int;
    if at.secs < 0 {
        millis as u64
    } else {
        ((at.secs * 1000 + millis) % 0x1_0000_0000_0000_0000) as u64
    }
}

/// The number from which the ids of the jobs submitted at `at` are made.
pub fn id_seed(at: Timestamp) -> (seed: u64)
    ensures
        seed == seed_at(at),
{
    let millis: u64 = (at.nanos / 1_000_000) as u64;
    if at.secs < 0 {
        millis
    } else {
        let wide: u128 = at.secs as u128 * 1000 + millis as u128;
        (wide % 0x1_0000_0000_0000_0000) as u64
    }
}

/// The number that the `k`-th try after `seed` is made from: the next
/// number each time, starting again from 0 after the largest.
pub open spec fn nth_seed(seed: u64, k: nat) -> u64 {
    ((seed + k) % 0x1_0000_0000_0000_0000) as u64
}

/// The number that the `k`-th try after `seed` is made from.
pub fn seed_after(seed: u64, k: u64) -> (r: u64)
    ensures
        r == nth_seed(seed, k as nat),
{
    let wide: u128 = seed as u128 + k as u128;
    (wide % 0x1_0000_0000_0000_0000) as u64
}

} // verus!
