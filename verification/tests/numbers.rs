use job_core::duration::{parse_duration, unit_of, DurationError};
use job_core::number::{
    format_i64, format_in_base, format_u64, is_whitespace, parse_i32, parse_u64, trim,
};

fn chars(s: &str) -> Vec<char> {
    s.chars().collect()
}

fn u64_of(s: &str) -> Option<u64> {
    parse_u64(&chars(s))
}

fn i32_of(s: &str) -> Option<i32> {
    parse_i32(&chars(s))
}

#[test]
fn unsigned_numbers_read_as_std_reads_them() {
    for s in [
        "0", "7", "42", "007", "+5", "+0", "18446744073709551615", "18446744073709551616",
        "99999999999999999999999", "", "+", "-", "-5", "-0", "5 ", " 5", "5a", "a5", "++5", "5+",
        "٣", "1_000", "0x10", "1e3",
    ] {
        assert_eq!(u64_of(s), s.parse::<u64>().ok(), "{s:?}");
    }
    assert_eq!(u64_of("18446744073709551615"), Some(u64::MAX));
    assert_eq!(u64_of("18446744073709551616"), None);
}

#[test]
fn signed_numbers_read_as_std_reads_them() {
    for s in [
        "0", "-0", "+0", "12345", "-12345", "+12345", "2147483647", "2147483648", "-2147483648",
        "-2147483649", "", "+", "-", "--1", "+-1", "1-", " 1", "1 ", "99999999999",
    ] {
        assert_eq!(i32_of(s), s.parse::<i32>().ok(), "{s:?}");
    }
    assert_eq!(i32_of("-2147483648"), Some(i32::MIN));
    assert_eq!(i32_of("2147483647"), Some(i32::MAX));
}

#[test]
fn numbers_are_written_in_decimal() {
    assert_eq!(format_u64(0), "0");
    assert_eq!(format_u64(9), "9");
    assert_eq!(format_u64(10), "10");
    assert_eq!(format_u64(1_234_567_890), "1234567890");
    assert_eq!(format_u64(u64::MAX), "18446744073709551615");
    assert_eq!(format_i64(0), "0");
    assert_eq!(format_i64(-1), "-1");
    assert_eq!(format_i64(143), "143");
    assert_eq!(format_i64(i64::MIN), "-9223372036854775808");
    assert_eq!(format_i64(i64::MAX), "9223372036854775807");
    for n in [0u64, 1, 99, 100, 101, 65_535, 1 << 40] {
        assert_eq!(u64_of(&format_u64(n)), Some(n));
    }
}

#[test]
fn white_space_is_what_std_takes_for_it() {
    for u in 0..=0x3100u32 {
        if let Some(c) = char::from_u32(u) {
            assert_eq!(is_whitespace(c), c.is_whitespace(), "U+{u:04X}");
        }
    }
    assert!(!is_whitespace('\u{feff}'));
    assert!(!is_whitespace('\u{200b}'));
}

#[test]
fn trimming_takes_the_white_space_off_both_ends() {
    for s in [
        "", " ", "  \t\n", "a", " a", "a ", "  a b  ", "\u{3000}x\u{a0}", "\n\n30s\r\n", "a\u{200b} ",
        " \u{85}mid dle\u{2028}",
    ] {
        let trimmed: String = trim(&chars(s)).into_iter().collect();
        assert_eq!(trimmed, s.trim(), "{s:?}");
    }
}

#[test]
fn durations_in_each_unit() {
    assert_eq!(parse_duration("30s"), Ok(30));
    assert_eq!(parse_duration("5m"), Ok(300));
    assert_eq!(parse_duration("1h"), Ok(3600));
    assert_eq!(parse_duration("7d"), Ok(604_800));
    assert_eq!(parse_duration("0s"), Ok(0));
    assert_eq!(parse_duration("  15m \n"), Ok(900));
    assert_eq!(parse_duration("+2h"), Ok(7200));
    assert_eq!(parse_duration("007d"), Ok(604_800));
    assert_eq!(unit_of('s'), Some(1));
    assert_eq!(unit_of('m'), Some(60));
    assert_eq!(unit_of('h'), Some(3600));
    assert_eq!(unit_of('d'), Some(86_400));
    assert_eq!(unit_of('w'), None);
    assert_eq!(unit_of('S'), None);
}

#[test]
fn what_is_no_duration() {
    assert_eq!(parse_duration(""), Err(DurationError::InvalidFormat));
    assert_eq!(parse_duration("   "), Err(DurationError::InvalidFormat));
    assert_eq!(parse_duration("30"), Err(DurationError::InvalidFormat));
    assert_eq!(parse_duration("30w"), Err(DurationError::InvalidFormat));
    assert_eq!(parse_duration("5M"), Err(DurationError::InvalidFormat));
    assert_eq!(parse_duration("s"), Err(DurationError::InvalidNumber));
    assert_eq!(parse_duration("-5s"), Err(DurationError::InvalidNumber));
    assert_eq!(parse_duration("1.5h"), Err(DurationError::InvalidNumber));
    assert_eq!(parse_duration("5 m"), Err(DurationError::InvalidNumber));
    assert_eq!(parse_duration("ms"), Err(DurationError::InvalidNumber));
    assert_eq!(parse_duration("99999999999999999999s"), Err(DurationError::InvalidNumber));
}

#[test]
fn a_duration_beyond_what_seconds_can_count() {
    assert_eq!(parse_duration("18446744073709551615s"), Ok(u64::MAX));
    assert_eq!(parse_duration("18446744073709551615m"), Err(DurationError::TooLong));
    assert_eq!(parse_duration("213503982334601d"), Ok(213_503_982_334_601 * 86_400));
    assert_eq!(parse_duration("213503982334602d"), Err(DurationError::TooLong));
}

#[test]
fn numbers_are_written_in_other_bases() {
    assert_eq!(format_in_base(0, 2), "0");
    assert_eq!(format_in_base(5, 2), "101");
    assert_eq!(format_in_base(255, 16), "ff");
    assert_eq!(format_in_base(u64::MAX, 16), "ffffffffffffffff");
    assert_eq!(format_in_base(35, 36), "z");
    assert_eq!(format_in_base(36, 36), "10");
    assert_eq!(format_in_base(1234, 10), format_u64(1234));
}
