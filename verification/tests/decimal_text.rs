use geger::decimal::{parse_decimal_string, to_decimal_string};

#[test]
fn writes_numbers_as_decimal_text() {
    assert_eq!(to_decimal_string(0), "0");
    assert_eq!(to_decimal_string(7), "7");
    assert_eq!(to_decimal_string(10), "10");
    assert_eq!(to_decimal_string(1205), "1205");
    assert_eq!(to_decimal_string(u64::MAX), "18446744073709551615");
}

#[test]
fn reads_decimal_text_back() {
    assert_eq!(parse_decimal_string("0"), Some(0));
    assert_eq!(parse_decimal_string("999"), Some(999));
    assert_eq!(parse_decimal_string("+42"), Some(42));
    assert_eq!(parse_decimal_string("007"), Some(7));
    assert_eq!(parse_decimal_string("18446744073709551615"), Some(u64::MAX));
}

#[test]
fn refuses_text_that_is_no_number() {
    assert_eq!(parse_decimal_string(""), None);
    assert_eq!(parse_decimal_string("+"), None);
    assert_eq!(parse_decimal_string("-1"), None);
    assert_eq!(parse_decimal_string("12a"), None);
    assert_eq!(parse_decimal_string(" 1"), None);
    assert_eq!(parse_decimal_string("१"), None);
    assert_eq!(parse_decimal_string("18446744073709551616"), None);
    assert_eq!(parse_decimal_string("99999999999999999999999"), None);
}

#[test]
fn reading_undoes_writing() {
    for n in [0u64, 1, 9, 10, 99, 100, 12345, u64::MAX - 1, u64::MAX] {
        assert_eq!(parse_decimal_string(&to_decimal_string(n)), Some(n));
    }
}
