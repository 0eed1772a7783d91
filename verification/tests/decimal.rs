use putio::{i64_to_string, parse_i64, parse_u32, u64_to_string};

#[test]
fn parse_i64_reads_plain_digits() {
    assert_eq!(parse_i64("0"), Some(0));
    assert_eq!(parse_i64("921234"), Some(921234));
    assert_eq!(parse_i64("00012"), Some(12));
}

#[test]
fn parse_i64_reads_signs() {
    assert_eq!(parse_i64("+5"), Some(5));
    assert_eq!(parse_i64("-5"), Some(-5));
    assert_eq!(parse_i64("-0"), Some(0));
}

#[test]
fn parse_i64_reads_the_bounds() {
    assert_eq!(parse_i64("9223372036854775807"), Some(i64::MAX));
    assert_eq!(parse_i64("-9223372036854775808"), Some(i64::MIN));
    assert_eq!(parse_i64("+9223372036854775807"), Some(i64::MAX));
}

#[test]
fn parse_i64_rejects_what_does_not_fit() {
    assert_eq!(parse_i64("9223372036854775808"), None);
    assert_eq!(parse_i64("-9223372036854775809"), None);
    assert_eq!(parse_i64("99999999999999999999999999999999999999999999"), None);
}

#[test]
fn parse_i64_rejects_what_is_no_numeral() {
    for text in ["", "+", "-", "+-1", "-+1", "--1", " 1", "1 ", "1_0", "0x10", "1e3", "1.0", "١٢"] {
        assert_eq!(parse_i64(text), None, "for {:?}", text);
    }
}

#[test]
fn parse_i64_agrees_with_std() {
    for text in ["", "7", "-7", "+7", "007", "-", "+", "a", "7a", "-9223372036854775808",
        "9223372036854775807", "9223372036854775808", "18446744073709551616", "é", "7é"]
    {
        assert_eq!(parse_i64(text), text.parse::<i64>().ok(), "for {:?}", text);
    }
}

#[test]
fn parse_u32_reads_digits_and_plus() {
    assert_eq!(parse_u32("0"), Some(0));
    assert_eq!(parse_u32("+3"), Some(3));
    assert_eq!(parse_u32("4294967295"), Some(u32::MAX));
}

#[test]
fn parse_u32_rejects_minus_and_overflow() {
    assert_eq!(parse_u32("-0"), None);
    assert_eq!(parse_u32("-1"), None);
    assert_eq!(parse_u32("4294967296"), None);
    assert_eq!(parse_u32(""), None);
    assert_eq!(parse_u32("+"), None);
}

#[test]
fn parse_u32_agrees_with_std() {
    for text in ["", "7", "-7", "+7", "007", "-", "+", "a", "7a", "4294967295", "4294967296", "-0"] {
        assert_eq!(parse_u32(text), text.parse::<u32>().ok(), "for {:?}", text);
    }
}

#[test]
fn u64_to_string_writes_digits() {
    assert_eq!(u64_to_string(0), "0");
    assert_eq!(u64_to_string(9), "9");
    assert_eq!(u64_to_string(10), "10");
    assert_eq!(u64_to_string(1234567890), "1234567890");
    assert_eq!(u64_to_string(u64::MAX), "18446744073709551615");
}

#[test]
fn i64_to_string_writes_the_sign() {
    assert_eq!(i64_to_string(0), "0");
    assert_eq!(i64_to_string(42), "42");
    assert_eq!(i64_to_string(-1), "-1");
    assert_eq!(i64_to_string(i64::MAX), "9223372036854775807");
    assert_eq!(i64_to_string(i64::MIN), "-9223372036854775808");
}

#[test]
fn i64_to_string_agrees_with_format() {
    for n in [0i64, 1, -1, 10, -10, 99, 100, 921234, i64::MAX, i64::MIN, i64::MIN + 1] {
        assert_eq!(i64_to_string(n), format!("{}", n));
    }
}

#[test]
fn what_is_written_reads_back() {
    for n in [0i64, 5, -5, 1000, -1000, i64::MAX, i64::MIN] {
        assert_eq!(parse_i64(&i64_to_string(n)), Some(n));
    }
}
