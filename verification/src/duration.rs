//! Durations as the command line writes them: a whole number and a unit,
//! as in `30s`, `5m`, `1h`, `7d`.

use crate::number::{parse_u64, trim, trimmed, u64_of};
use crate::text::chars_of;
use vstd::prelude::*;

verus! {

/// Why a text is no duration.
#[derive(Debug, Clone, Copy, PartialEq, Eq, Structural)]
pub enum DurationError {
    /// The text does not end in one of the units `s`, `m`, `h`, `d`.
    InvalidFormat,
    /// What stands before the unit is not a whole number.
    InvalidNumber,
    /// The duration is more seconds than a `u64` holds.
    TooLong,
}

impl DurationError {
    /// The one-line message of the error.
    pub open spec fn text(self) -> Seq<char> {
        match self {
            DurationError::InvalidFormat => "Invalid duration format. Use: 30s, 5m, 1h, 7d"@,
            DurationError::InvalidNumber => "Invalid duration: a whole number must stand before the unit"@,
            DurationError::TooLong => "Invalid duration: too long"@,
        }
    }

    /// The one-line message of the error.
    pub fn message(&self) -> (s: String)
        ensures
            s@ == self.text(),
    {
        match self {
            DurationError::InvalidFormat => "Invalid duration format. Use: 30s, 5m, 1h, 7d".to_string(),
            DurationError::InvalidNumber => "Invalid duration: a whole number must stand before the unit".to_string(),
            DurationError::TooLong => "Invalid duration: too long".to_string(),
        }
    }
}

/// The seconds in one unit.
pub open spec fn unit_secs(unit: char) -> Option<u64> {
    if unit == 's' {
        Some(1u64)
    } else if unit == 'm' {
        Some(60u64)
    } else if unit == 'h' {
        Some(3600u64)
    } else if unit == 'd' {
        Some(86400u64)
    } else {
        None
    }
}

/// The seconds that a duration text stands for: white space at its ends is
/// passed over, the last character is the unit, and what stands before it
/// is the number of units.
pub open spec fn duration_secs(s: Seq<char>) -> Result<u64, DurationError> {
    let t = trimmed(s);
    if t.len() == 0 {
        Err(DurationError::InvalidFormat)
    } else {
        match unit_secs(t.last()) {
            None => Err(DurationError::InvalidFormat),
            Some(unit) => match u64_of(t.drop_last()) {
                None => Err(DurationError::InvalidNumber),
                Some(n) => if n * unit > u64::MAX {
                    Err(DurationError::TooLong)
                } else {
                    Ok((n * unit) as u64)
                },
            },
        }
    }
}

/// The seconds in the unit that a character names.
pub fn unit_of(unit: char) -> (r: Option<u64>)
    ensures
        r == unit_secs(unit),
{
    if unit == 's' {
        Some(1)
    } else if unit == 'm' {
        Some(60)
    } else if unit == 'h' {
        Some(3600)
    } else if unit == 'd' {
        Some(86400)
    } else {
        None
    }
}

/// Reads a duration and gives it in seconds.
pub fn parse_duration(s: &str) -> (r: Result<u64, DurationError>)
    ensures
        r == duration_secs(s@),
{
    let chars = chars_of(s);
    let t = trim(chars.as_slice());
    if t.len() == 0 {
        return Err(DurationError::InvalidFormat);
    }
    let unit = match unit_of(t[t.len() - 1]) {
        Some(unit) => unit,
        None => {
            return Err(DurationError::InvalidFormat);
        },
    };
    let number = vstd::slice::slice_subrange(t.as_slice(), 0, t.len() - 1);
    assert(number@ == t@.drop_last());
    let n = match parse_u64(number) {
        Some(n) => n,
        None => {
            return Err(DurationError::InvalidNumber);
        },
    };
    match n.checked_mul(unit) {
        Some(secs) => Ok(secs),
        None => Err(DurationError::TooLong),
    }
}

} // verus!
