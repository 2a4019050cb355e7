//! Points in time, as the store compares and records them.

use vstd::prelude::*;

verus! {

/// A point in time in UTC: whole seconds since the Unix epoch and the
/// nanoseconds into that second.
#[derive(Debug, Clone, Copy, PartialEq, Eq, Structural)]
pub struct Timestamp {
    pub secs: i64,
    pub nanos: u32,
}

impl Timestamp {
    /// `self` is strictly earlier than `other`.
    pub open spec fn before(self, other: Timestamp) -> bool {
        self.secs < other.secs || (self.secs == other.secs && self.nanos < other.nanos)
    }

    /// `self` is not later than `other`.
    pub open spec fn at_or_before(self, other: Timestamp) -> bool {
        !other.before(self)
    }

    /// The later of the two.
    pub open spec fn later_of(self, other: Timestamp) -> Timestamp {
        if self.before(other) {
            other
        } else {
            self
        }
    }

    pub fn is_before(&self, other: &Timestamp) -> (r: bool)
        ensures
            r == self.before(*other),
    {
        self.secs < other.secs || (self.secs == other.secs && self.nanos < other.nanos)
    }

    pub fn max(self, other: Timestamp) -> (r: Timestamp)
        ensures
            r == self.later_of(other),
    {
        if self.is_before(&other) {
            other
        } else {
            self
        }
    }

    /// The point `secs` seconds before this one; `None` where that lies
    /// before the earliest point a `Timestamp` can name.
    pub fn minus_secs(self, secs: u64) -> (r: Option<Timestamp>)
        ensures
            r == if self.secs - secs >= i64::MIN {
                Some(Timestamp { secs: (self.secs - secs) as i64, nanos: self.nanos })
            } else {
                None
            },
    {
        let wide: i128 = self.secs as i128 - secs as i128;
        if wide < i64::MIN as i128 {
            None
        } else {
            Some(Timestamp { secs: wide as i64, nanos: self.nanos })
        }
    }

    /// Whole seconds from `earlier` to `self`, and 0 where `earlier` is not
    /// earlier. Saturates at `u64::MAX`.
    pub open spec fn secs_since(self, earlier: Timestamp) -> int {
        let whole = self.secs - earlier.secs - if self.nanos < earlier.nanos {
            1int
        } else {
            0int
        };
        if whole < 0 {
            0
        } else {
            whole
        }
    }

    pub fn elapsed_secs_since(&self, earlier: &Timestamp) -> (r: u64)
        ensures
            r == self.secs_since(*earlier),
    {
        let borrow: i128 = if self.nanos < earlier.nanos {
            1
        } else {
            0
        };
        let whole: i128 = self.secs as i128 - earlier.secs as i128 - borrow;
        if whole < 0 {
            0
        } else {
            whole as u64
        }
    }
}

/// `before` orders timestamps strictly and totally.
pub proof fn lemma_before_is_strict_total_order(a: Timestamp, b: Timestamp, c: Timestamp)
    ensures
        !a.before(a),
        a.before(b) && b.before(c) ==> a.before(c),
        a.before(b) || b.before(a) || a == b,
        a.at_or_before(b) && b.at_or_before(c) ==> a.at_or_before(c),
{
}

/// Reads the system clock through `chrono::Utc::now` and hands its seconds
/// and sub-second nanoseconds on unchanged. Nothing is promised of the
/// reading. `Utc::now` itself gives up on a clock set before 1970.
#[verifier::external_body]
pub(crate) fn now() -> Timestamp {
    let t = chrono::Utc::now();
    Timestamp { secs: t.timestamp(), nanos: t.timestamp_subsec_nanos() }
}

} // verus!
