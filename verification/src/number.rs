//! Decimal numbers as text: reading them, writing them, and the blanks
//! that may stand around them.

use crate::text::string_of;
use vstd::prelude::*;

verus! {

/// The character is a white-space character in Unicode's sense.
pub open spec fn is_space(c: char) -> bool {
    let u = c as u32;
    ||| 0x09 <= u <= 0x0d
    ||| u == 0x20
    ||| u == 0x85
    ||| u == 0xa0
    ||| u == 0x1680
    ||| 0x2000 <= u <= 0x200a
    ||| u == 0x2028
    ||| u == 0x2029
    ||| u == 0x202f
    ||| u == 0x205f
    ||| u == 0x3000
}

/// `inner` is `s` without the white space at its two ends.
pub open spec fn is_trimmed_of(inner: Seq<char>, s: Seq<char>) -> bool {
    exists|lo: int, hi: int|
        {
            &&& 0 <= lo <= hi <= s.len()
            &&& inner == #[trigger] s.subrange(lo, hi)
            &&& forall|i: int| 0 <= i < lo ==> is_space(s[i])
            &&& forall|i: int| hi <= i < s.len() ==> is_space(s[i])
            &&& lo < hi ==> !is_space(s[lo]) && !is_space(s[hi - 1])
            &&& lo == hi ==> lo == s.len()
        }
}

/// The text without the white space at its two ends, as `str::trim` gives it.
pub open spec fn trimmed(s: Seq<char>) -> Seq<char> {
    choose|inner: Seq<char>| is_trimmed_of(inner, s)
}

/// The bounds of a text without the white space at its two ends.
pub open spec fn trim_bounds(s: Seq<char>, lo: int, hi: int) -> bool {
    &&& 0 <= lo <= hi <= s.len()
    &&& forall|i: int| 0 <= i < lo ==> is_space(s[i])
    &&& forall|i: int| hi <= i < s.len() ==> is_space(s[i])
    &&& lo < hi ==> !is_space(s[lo]) && !is_space(s[hi - 1])
    &&& lo == hi ==> lo == s.len()
}

/// A text has one trimmed form only.
pub proof fn lemma_trim_unique(s: Seq<char>, lo: int, hi: int)
    requires
        trim_bounds(s, lo, hi),
    ensures
        trimmed(s) == s.subrange(lo, hi),
{
    assert(is_trimmed_of(s.subrange(lo, hi), s));
    let inner = trimmed(s);
    assert(is_trimmed_of(inner, s));
    let (l2, h2) = choose|l2: int, h2: int|
        {
            &&& 0 <= l2 <= h2 <= s.len()
            &&& inner == #[trigger] s.subrange(l2, h2)
            &&& forall|i: int| 0 <= i < l2 ==> is_space(s[i])
            &&& forall|i: int| h2 <= i < s.len() ==> is_space(s[i])
            &&& l2 < h2 ==> !is_space(s[l2]) && !is_space(s[h2 - 1])
            &&& l2 == h2 ==> l2 == s.len()
        };
    if lo < hi {
        // s[lo] is no space, so it is not in the other's blank front; and so on.
        assert(l2 <= lo);
        assert(h2 >= hi);
        if l2 < h2 {
            assert(lo <= l2);
            assert(hi >= h2);
        } else {
            assert(l2 == s.len());
        }
    } else {
        assert(lo == s.len());
        if l2 < h2 {
            assert(is_space(s[l2]));
        }
        assert(s.subrange(l2, h2) =~= s.subrange(lo, hi));
    }
}

pub fn is_whitespace(c: char) -> (r: bool)
    ensures
        r == is_space(c),
{
    let u: u32 = c as u32;
    (0x09 <= u && u <= 0x0d) || u == 0x20 || u == 0x85 || u == 0xa0 || u == 0x1680 || (0x2000 <= u
        && u <= 0x200a) || u == 0x2028 || u == 0x2029 || u == 0x202f || u == 0x205f || u
        == 0x3000
}

/// The characters of `s` without the white space at its two ends.
pub fn trim(s: &[char]) -> (inner: Vec<char>)
    ensures
        inner@ == trimmed(s@),
{
    let mut hi: usize = s.len();
    while hi > 0 && is_whitespace(s[hi - 1])
        invariant
            hi <= s.len(),
            forall|i: int| hi <= i < s.len() ==> is_space(s@[i]),
        decreases hi,
    {
        hi -= 1;
    }
    let mut lo: usize = 0;
    while lo < hi && is_whitespace(s[lo])
        invariant
            lo <= hi <= s.len(),
            forall|i: int| 0 <= i < lo ==> is_space(s@[i]),
        decreases hi - lo,
    {
        lo += 1;
    }
    if lo == hi {
        // All of it is white space: the trimmed text is the empty end.
        proof {
            assert forall|i: int| 0 <= i < s@.len() implies is_space(s@[i]) by {
                if i >= hi {
                }
            }
            lemma_trim_unique(s@, s@.len() as int, s@.len() as int);
        }
        return Vec::new();
    }
    proof {
        lemma_trim_unique(s@, lo as int, hi as int);
    }
    let mut inner: Vec<char> = Vec::new();
    let mut i: usize = lo;
    while i < hi
        invariant
            lo <= i <= hi <= s.len(),
            inner@ == s@.subrange(lo as int, i as int),
        decreases hi - i,
    {
        inner.push(s[i]);
        assert(s@.subrange(lo as int, i + 1) == s@.subrange(lo as int, i as int).push(s@[i as int]));
        i += 1;
    }
    inner
}

/// The character is one of the ten decimal digits.
pub open spec fn is_digit(c: char) -> bool {
    '0' <= c <= '9'
}

/// Every character of the text is a decimal digit.
pub open spec fn all_digits(s: Seq<char>) -> bool {
    forall|i: int| 0 <= i < s.len() ==> is_digit(#[trigger] s[i])
}

/// The number that a run of decimal digits stands for.
pub open spec fn digits_value(s: Seq<char>) -> nat
    decreases s.len(),
{
    if s.len() == 0 {
        0
    } else {
        digits_value(s.drop_last()) * 10 + (s.last() as u32 - '0' as u32) as nat
    }
}

/// The unsigned number that a text stands for: decimal digits, at least
/// one, after an optional plus sign, and no more than a `u64` holds.
pub open spec fn u64_of(s: Seq<char>) -> Option<u64> {
    let digits = if s.len() > 0 && s[0] == '+' {
        s.skip(1)
    } else {
        s
    };
    if digits.len() == 0 || !all_digits(digits) || digits_value(digits) > u64::MAX {
        None
    } else {
        Some(digits_value(digits) as u64)
    }
}

/// The signed number that a text stands for: decimal digits, at least one,
/// after an optional sign, and within what an `i32` holds.
pub open spec fn i32_of(s: Seq<char>) -> Option<i32> {
    let negative = s.len() > 0 && s[0] == '-';
    let digits = if s.len() > 0 && (s[0] == '+' || s[0] == '-') {
        s.skip(1)
    } else {
        s
    };
    let value = if negative {
        -(digits_value(digits) as int)
    } else {
        digits_value(digits) as int
    };
    if digits.len() == 0 || !all_digits(digits) || value < i32::MIN || value > i32::MAX {
        None
    } else {
        Some(value as i32)
    }
}

/// A longer run of digits stands for no smaller a number.
pub proof fn lemma_digits_grow(s: Seq<char>, n: int)
    requires
        0 <= n <= s.len(),
    ensures
        digits_value(s.take(n)) <= digits_value(s),
    decreases s.len() - n,
{
    if n < s.len() {
        assert(s.take(n + 1).drop_last() == s.take(n));
        lemma_digits_grow(s, n + 1);
    } else {
        assert(s.take(n) == s);
    }
}

/// Reads a run of decimal digits as a number, as far as it stays within `limit`.
fn read_digits(s: &[char], limit: u64) -> (r: Option<u64>)
    requires
        limit >= 9,
    ensures
        r == if s@.len() == 0 || !all_digits(s@) || digits_value(s@) > limit {
            None
        } else {
            Some(digits_value(s@) as u64)
        },
{
    if s.len() == 0 {
        return None;
    }
    let mut value: u64 = 0;
    let mut i: usize = 0;
    while i < s.len()
        invariant
            i <= s.len(),
            all_digits(s@.take(i as int)),
            value == digits_value(s@.take(i as int)),
            value <= limit,
            limit >= 9,
        decreases s.len() - i,
    {
        let c: char = s[i];
        if !('0' <= c && c <= '9') {
            assert(!is_digit(s@[i as int]));
            return None;
        }
        let d: u64 = (c as u32 - '0' as u32) as u64;
        proof {
            assert(s@.take(i + 1).drop_last() == s@.take(i as int));
            assert(s@.take(i + 1).last() == c);
            lemma_digits_grow(s@, i + 1);
        }
        if value > (limit - d) / 10 {
            assert(digits_value(s@.take(i + 1)) > limit);
            return None;
        }
        assert forall|k: int| 0 <= k < i + 1 implies is_digit(#[trigger] s@.take(i + 1)[k]) by {
            if k < i {
                assert(s@.take(i as int)[k] == s@[k]);
            }
        }
        value = value * 10 + d;
        i += 1;
    }
    assert(s@.take(s.len() as int) == s@);
    Some(value)
}

/// Reads an unsigned decimal number.
pub fn parse_u64(s: &[char]) -> (r: Option<u64>)
    ensures
        r == u64_of(s@),
{
    if s.len() > 0 && s[0] == '+' {
        let digits = vstd::slice::slice_subrange(s, 1, s.len());
        assert(digits@ == s@.skip(1));
        read_digits(digits, u64::MAX)
    } else {
        read_digits(s, u64::MAX)
    }
}

/// Reads a signed decimal number.
pub fn parse_i32(s: &[char]) -> (r: Option<i32>)
    ensures
        r == i32_of(s@),
{
    let negative = s.len() > 0 && s[0] == '-';
    let signed = s.len() > 0 && (s[0] == '+' || s[0] == '-');
    let digits = if signed {
        let rest = vstd::slice::slice_subrange(s, 1, s.len());
        assert(rest@ == s@.skip(1));
        rest
    } else {
        s
    };
    if negative {
        match read_digits(digits, 0x8000_0000) {
            Some(v) => Some((-(v as i64)) as i32),
            None => None,
        }
    } else {
        match read_digits(digits, 0x7fff_ffff) {
            Some(v) => Some(v as i32),
            None => None,
        }
    }
}

/// The character for a digit below 36: the ten decimal digits, then the
/// lower-case letters.
pub open spec fn digit_char(d: nat) -> char {
    if d < 10 {
        ('0' as u32 + d as u32) as char
    } else {
        ('a' as u32 + (d - 10) as u32) as char
    }
}

/// The digits of a number in the base given, without leading zeros.
pub open spec fn in_base(n: nat, base: nat) -> Seq<char>
    decreases n,
{
    if base < 2 || n < base {
        seq![digit_char(n)]
    } else {
        proof {
            assert(n / base < n) by (nonlinear_arith)
                requires
                    base >= 2,
                    n >= base,
            ;
        }
        in_base(n / base, base).push(digit_char(n % base))
    }
}

/// The decimal digits of a number, without leading zeros.
pub open spec fn decimal(n: nat) -> Seq<char> {
    in_base(n, 10)
}

/// The decimal form of a signed number: a minus sign before the digits of
/// a negative one.
pub open spec fn signed_decimal(n: int) -> Seq<char> {
    if n < 0 {
        seq!['-'] + decimal((-n) as nat)
    } else {
        decimal(n as nat)
    }
}

/// A number reads back from its decimal digits.
pub proof fn lemma_decimal_round_trip(n: nat)
    ensures
        decimal(n).len() >= 1,
        all_digits(decimal(n)),
        digits_value(decimal(n)) == n,
    decreases n,
{
    reveal_with_fuel(digits_value, 2);
    if n < 10 {
        assert(decimal(n).drop_last().len() == 0);
        assert(decimal(n).last() == digit_char(n));
    } else {
        lemma_decimal_round_trip(n / 10);
        let s = decimal(n);
        assert(s.drop_last() == decimal(n / 10));
        assert(s.last() == digit_char(n % 10));
        assert forall|i: int| 0 <= i < s.len() implies is_digit(#[trigger] s[i]) by {
            if i < s.len() - 1 {
                assert(s[i] == decimal(n / 10)[i]);
            }
        }
    }
}

/// Writes an unsigned number in the base given, with the lower-case
/// letters for the digits from ten on.
pub fn format_in_base(n: u64, base: u64) -> (s: String)
    requires
        2 <= base <= 36,
    ensures
        s@ == in_base(n as nat, base as nat),
{
    let mut reversed: Vec<char> = Vec::new();
    let mut rest: u64 = n;
    // The digits come out last first.
    while rest >= base
        invariant
            2 <= base <= 36,
            in_base(n as nat, base as nat) == in_base(rest as nat, base as nat) + reversed@.reverse(),
        decreases rest,
    {
        let c: char = char_of_digit((rest % base) as u32);
        let ghost before = reversed@;
        reversed.push(c);
        proof {
            assert(in_base(rest as nat, base as nat) == in_base(
                (rest / base) as nat,
                base as nat,
            ).push(c));
            assert(reversed@.reverse() =~= seq![c] + before.reverse());
            assert(in_base((rest / base) as nat, base as nat).push(c) + before.reverse()
                =~= in_base((rest / base) as nat, base as nat) + (seq![c] + before.reverse()));
        }
        rest = rest / base;
    }
    let first: char = char_of_digit(rest as u32);
    let mut digits: Vec<char> = Vec::new();
    digits.push(first);
    let mut i: usize = reversed.len();
    assert(reversed@.reverse().take(0) =~= Seq::<char>::empty());
    while i > 0
        invariant
            i <= reversed.len(),
            digits@ == seq![first] + reversed@.reverse().take(reversed.len() - i),
        decreases i,
    {
        i -= 1;
        digits.push(reversed[i]);
        assert(reversed@.reverse().take(reversed.len() - i) =~= reversed@.reverse().take(
            reversed.len() - i - 1,
        ).push(reversed@[i as int]));
    }
    assert(reversed@.reverse().take(reversed.len() as int) =~= reversed@.reverse());
    string_of(digits.as_slice())
}

/// The character of a digit below 36.
fn char_of_digit(d: u32) -> (c: char)
    requires
        d < 36,
    ensures
        c == digit_char(d as nat),
{
    let digits: [char; 36] = [
        '0', '1', '2', '3', '4', '5', '6', '7', '8', '9', 'a', 'b', 'c', 'd', 'e', 'f', 'g', 'h',
        'i', 'j', 'k', 'l', 'm', 'n', 'o', 'p', 'q', 'r', 's', 't', 'u', 'v', 'w', 'x', 'y', 'z',
    ];
    digits[d as usize]
}

/// Writes an unsigned number in decimal.
pub fn format_u64(n: u64) -> (s: String)
    ensures
        s@ == decimal(n as nat),
{
    format_in_base(n, 10)
}

/// Writes a signed number in decimal.
pub fn format_i64(n: i64) -> (s: String)
    ensures
        s@ == signed_decimal(n as int),
{
    if n < 0 {
        let magnitude: u64 = if n == i64::MIN {
            0x8000_0000_0000_0000
        } else {
            (-n) as u64
        };
        let digits = format_u64(magnitude);
        proof {
            reveal_strlit("-");
        }
        let s = "-".to_string().concat(digits.as_str());
        assert(s@ =~= seq!['-'] + digits@);
        s
    } else {
        format_u64(n as u64)
    }
}

} // verus!
