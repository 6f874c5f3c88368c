use cc_scraper::number::{push_decimal, push_decimal_digits, read_i16};
use cc_scraper::text::chars_of;

fn read(s: &str) -> Option<i16> {
    read_i16(&chars_of(s), 0)
}

fn decimal(n: i64) -> String {
    let mut out = String::new();
    push_decimal(&mut out, n);
    out
}

#[test]
fn read_i16_reads_plain_numbers() {
    assert_eq!(read("2"), Some(2));
    assert_eq!(read("0"), Some(0));
    assert_eq!(read("10"), Some(10));
    assert_eq!(read("32767"), Some(32767));
    assert_eq!(read("-32768"), Some(-32768));
}

#[test]
fn read_i16_takes_a_sign_and_leading_zeros() {
    assert_eq!(read("+5"), Some(5));
    assert_eq!(read("-5"), Some(-5));
    assert_eq!(read("-0"), Some(0));
    assert_eq!(read("+0"), Some(0));
    assert_eq!(read("007"), Some(7));
    assert_eq!(read("-007"), Some(-7));
    assert_eq!(read("000000000000000032767"), Some(32767));
}

#[test]
fn read_i16_refuses_what_is_no_number() {
    assert_eq!(read(""), None);
    assert_eq!(read("-"), None);
    assert_eq!(read("+"), None);
    assert_eq!(read("+-1"), None);
    assert_eq!(read("--1"), None);
    assert_eq!(read("1a"), None);
    assert_eq!(read("a1"), None);
    assert_eq!(read(" 1"), None);
    assert_eq!(read("1 "), None);
    assert_eq!(read("1_000"), None);
    assert_eq!(read("2&sort=price"), None);
    assert_eq!(read("٣"), None);
    assert_eq!(read("1.0"), None);
}

#[test]
fn read_i16_refuses_what_does_not_fit() {
    assert_eq!(read("32768"), None);
    assert_eq!(read("-32769"), None);
    assert_eq!(read("65536"), None);
    assert_eq!(read("99999999999999999999999999"), None);
    assert_eq!(read("-99999999999999999999999999"), None);
}

#[test]
fn read_i16_starts_where_told() {
    let text = chars_of("/c?page=12");
    assert_eq!(read_i16(&text, 8), Some(12));
    assert_eq!(read_i16(&text, 9), Some(2));
    assert_eq!(read_i16(&text, 10), None);
    assert_eq!(read_i16(&text, 7), None);
}

#[test]
fn read_i16_agrees_with_parse() {
    let samples = [
        "", "0", "-", "+", "+1", "-1", "12", "012", "32767", "32768", "-32768", "-32769", "3276a",
        "327670", "+32767", "+32768", "१२", " 7", "7 ", "0x10", "1e3", "-+1", "000", "-000",
    ];
    for sample in samples {
        assert_eq!(read(sample), sample.parse::<i16>().ok(), "{:?}", sample);
    }
}

#[test]
fn every_i16_is_read_back_from_its_decimal_text() {
    let mut n: i32 = -32768;
    while n <= 32767 {
        let written = decimal(n as i64);
        assert_eq!(written, n.to_string());
        assert_eq!(read(&written), Some(n as i16));
        n += 1;
    }
}

#[test]
fn push_decimal_writes_the_numeral_after_what_is_there() {
    let mut out = String::from("n=");
    push_decimal(&mut out, 9500);
    assert_eq!(out, "n=9500");
    push_decimal(&mut out, -3);
    assert_eq!(out, "n=9500-3");
}

#[test]
fn push_decimal_exact_values() {
    assert_eq!(decimal(0), "0");
    assert_eq!(decimal(7), "7");
    assert_eq!(decimal(10), "10");
    assert_eq!(decimal(-1), "-1");
    assert_eq!(decimal(100), "100");
    assert_eq!(decimal(2147483647), "2147483647");
    assert_eq!(decimal(-2147483648), "-2147483648");
    assert_eq!(decimal(i64::MAX), "9223372036854775807");
    assert_eq!(decimal(i64::MIN), "-9223372036854775808");
}

#[test]
fn push_decimal_digits_exact_values() {
    let mut out = String::new();
    push_decimal_digits(&mut out, 0);
    push_decimal_digits(&mut out, 405);
    push_decimal_digits(&mut out, u64::MAX);
    assert_eq!(out, "040518446744073709551615");
}
