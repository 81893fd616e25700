use ejlv_cli::error::Error;
use ejlv_cli::number::{parse_i32, push_decimal, push_int, push_signed, IntErrorKind};

fn chars_of(s: &str) -> Vec<char> {
    s.chars().collect()
}

fn kind_of_std(kind: &std::num::IntErrorKind) -> IntErrorKind {
    match kind {
        std::num::IntErrorKind::Empty => IntErrorKind::Empty,
        std::num::IntErrorKind::InvalidDigit => IntErrorKind::InvalidDigit,
        std::num::IntErrorKind::PosOverflow => IntErrorKind::PosOverflow,
        std::num::IntErrorKind::NegOverflow => IntErrorKind::NegOverflow,
        other => panic!("unexpected kind {:?}", other),
    }
}

#[test]
fn numbers_are_read() {
    assert_eq!(parse_i32(&chars_of("0")), Ok(0));
    assert_eq!(parse_i32(&chars_of("35")), Ok(35));
    assert_eq!(parse_i32(&chars_of("+35")), Ok(35));
    assert_eq!(parse_i32(&chars_of("-35")), Ok(-35));
    assert_eq!(parse_i32(&chars_of("-0")), Ok(0));
    assert_eq!(parse_i32(&chars_of("007")), Ok(7));
    assert_eq!(parse_i32(&chars_of("2147483647")), Ok(2147483647));
    assert_eq!(parse_i32(&chars_of("-2147483648")), Ok(-2147483648));
    assert_eq!(parse_i32(&chars_of("00000000002147483647")), Ok(2147483647));
}

#[test]
fn each_reason_is_given() {
    assert_eq!(parse_i32(&chars_of("")), Err(IntErrorKind::Empty));
    assert_eq!(parse_i32(&chars_of("+")), Err(IntErrorKind::InvalidDigit));
    assert_eq!(parse_i32(&chars_of("-")), Err(IntErrorKind::InvalidDigit));
    assert_eq!(parse_i32(&chars_of("12a")), Err(IntErrorKind::InvalidDigit));
    assert_eq!(parse_i32(&chars_of(" 12")), Err(IntErrorKind::InvalidDigit));
    assert_eq!(parse_i32(&chars_of("--1")), Err(IntErrorKind::InvalidDigit));
    assert_eq!(parse_i32(&chars_of("١٢")), Err(IntErrorKind::InvalidDigit));
    assert_eq!(parse_i32(&chars_of("2147483648")), Err(IntErrorKind::PosOverflow));
    assert_eq!(parse_i32(&chars_of("-2147483649")), Err(IntErrorKind::NegOverflow));
    assert_eq!(parse_i32(&chars_of("99999999999999999999")), Err(IntErrorKind::PosOverflow));
}

#[test]
fn first_fault_from_the_left_decides() {
    assert_eq!(parse_i32(&chars_of("99999999999x")), Err(IntErrorKind::PosOverflow));
    assert_eq!(parse_i32(&chars_of("-99999999999x")), Err(IntErrorKind::NegOverflow));
    assert_eq!(parse_i32(&chars_of("999999999x9")), Err(IntErrorKind::InvalidDigit));
    assert_eq!(parse_i32(&chars_of("214748364x")), Err(IntErrorKind::InvalidDigit));
    assert_eq!(parse_i32(&chars_of("2147483647x")), Err(IntErrorKind::InvalidDigit));
}

#[test]
fn reading_agrees_with_the_standard_library() {
    let samples = [
        "", "0", "1", "-1", "+1", "+", "-", "+-1", "-+1", "12", "0012", "1_000", "1.5", "1e3",
        "2147483647", "2147483648", "-2147483648", "-2147483649", "4294967296", "x", "12x", "x12",
        " 1", "1 ", "99999999999x", "-99999999999x", "9999999999", "-9999999999", "+2147483647",
        "+2147483648", "0x10", "०", "12３", "000000000000000000000000000001", "-000000000000",
        "1234567", "12345678", "123456789", "1234567a", "12345678a", "a2345678",
    ];
    for text in samples {
        let expected = match text.parse::<i32>() {
            Ok(v) => Ok(v),
            Err(e) => Err(kind_of_std(e.kind())),
        };
        assert_eq!(parse_i32(&chars_of(text)), expected, "for {:?}", text);
    }
}

#[test]
fn numbers_are_written() {
    let mut out = String::from("n=");
    push_decimal(&mut out, 0);
    out.push(',');
    push_decimal(&mut out, 7);
    out.push(',');
    push_decimal(&mut out, 10);
    out.push(',');
    push_decimal(&mut out, 1234567890123456789);
    out.push(',');
    push_decimal(&mut out, u64::MAX);
    assert_eq!(out, "n=0,7,10,1234567890123456789,18446744073709551615");

    let mut ints = String::new();
    for v in [0, 5, -5, 120, i32::MAX, i32::MIN] {
        push_int(&mut ints, v);
        ints.push(' ');
    }
    assert_eq!(ints, "0 5 -5 120 2147483647 -2147483648 ");

    let mut changes = String::new();
    for v in [0, 5, -5, 120, i32::MAX, i32::MIN] {
        push_signed(&mut changes, v);
        changes.push(' ');
    }
    assert_eq!(changes, "0 +5 -5 +120 +2147483647 -2147483648 ");
}

#[test]
fn writing_agrees_with_the_standard_library() {
    for v in [0, 1, 9, 10, 11, 99, 100, 101, 4096, -1, -10, -4096, i32::MAX, i32::MIN] {
        let mut out = String::new();
        push_int(&mut out, v);
        assert_eq!(out, v.to_string());
    }
}

#[test]
fn reasons_and_messages_are_worded() {
    assert_eq!(IntErrorKind::Empty.reason(), "cannot parse integer from empty string");
    assert_eq!(IntErrorKind::InvalidDigit.reason(), "invalid digit found in string");
    assert_eq!(IntErrorKind::PosOverflow.reason(), "number too large to fit in target type");
    assert_eq!(IntErrorKind::NegOverflow.reason(), "number too small to fit in target type");
    for text in ["", "x", "2147483648", "-2147483649"] {
        let std_error = text.parse::<i32>().unwrap_err();
        assert_eq!(kind_of_std(std_error.kind()).reason(), std_error.to_string());
    }
    assert_eq!(
        Error::InvalidResultColumn(12, 1, " 35".to_string()).message(),
        "Invalid column at line 12, col 1: ' 35'"
    );
    assert_eq!(
        Error::ParseIntFailed(0, 3, " x8".to_string(), IntErrorKind::InvalidDigit).message(),
        "Parse failed for column at line 0, col 3: ' x8' - invalid digit found in string"
    );
    assert_eq!(Error::ResultSliceEmpty.message(), "Result slice is empty");
    assert_eq!(
        Error::SceneMissing("Empty screen".to_string()).message(),
        "Failed to find scene 'Empty screen'"
    );
    assert_eq!(Error::InvalidMetric("speed".to_string()).message(), "Invalid Metric speed");
}
