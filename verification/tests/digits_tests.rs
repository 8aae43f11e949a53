use earnings_scheduler::digits::{i64_to_string, parse_i32, u64_to_string};

#[test]
fn unsigned_values_print_in_decimal() {
    assert_eq!(u64_to_string(0), "0");
    assert_eq!(u64_to_string(7), "7");
    assert_eq!(u64_to_string(1234), "1234");
    assert_eq!(u64_to_string(1000000), "1000000");
}

#[test]
fn signed_values_print_with_a_minus_sign() {
    assert_eq!(i64_to_string(0), "0");
    assert_eq!(i64_to_string(42), "42");
    assert_eq!(i64_to_string(-45), "-45");
    assert_eq!(i64_to_string(i64::MIN), "-9223372036854775808");
}

#[test]
fn tokens_parse_like_machine_integers() {
    assert_eq!(parse_i32("123"), Some(123));
    assert_eq!(parse_i32("-12"), Some(-12));
    assert_eq!(parse_i32("0"), Some(0));
    assert_eq!(parse_i32("-0"), Some(0));
    assert_eq!(parse_i32("2147483647"), Some(i32::MAX));
    assert_eq!(parse_i32("-2147483648"), Some(i32::MIN));
}

#[test]
fn malformed_tokens_do_not_parse() {
    assert_eq!(parse_i32(""), None);
    assert_eq!(parse_i32("-"), None);
    assert_eq!(parse_i32("12-3"), None);
    assert_eq!(parse_i32("--5"), None);
    assert_eq!(parse_i32("5a"), None);
    assert_eq!(parse_i32(" 5"), None);
}

#[test]
fn out_of_range_tokens_do_not_parse() {
    assert_eq!(parse_i32("2147483648"), None);
    assert_eq!(parse_i32("-2147483649"), None);
    assert_eq!(parse_i32("99999999999999999999"), None);
}
