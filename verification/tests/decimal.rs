use clipwin::decimal::{
    decimal_i64, decimal_u128, padded_u128, parse_i32, parse_i64, parse_u32, parse_usize,
};
use clipwin::text::{chars_of, string_of};

#[test]
fn reading_agrees_with_std() {
    for s in [
        "", "0", "-0", "+7", "-", "+", "12", "-12", "007", "2147483647", "2147483648",
        "-2147483648", "-2147483649", "4294967295", "4294967296", "9223372036854775807",
        "9223372036854775808", "-9223372036854775808", "18446744073709551615",
        "18446744073709551616", " 1", "1 ", "1a", "１", "--1", "+-1",
        "99999999999999999999999999999999999999999999999999",
    ] {
        let c = chars_of(s);
        assert_eq!(parse_i32(&c), s.parse::<i32>().ok(), "{s}");
        assert_eq!(parse_u32(&c), s.parse::<u32>().ok(), "{s}");
        assert_eq!(parse_i64(&c), s.parse::<i64>().ok(), "{s}");
        assert_eq!(parse_usize(&c), s.parse::<usize>().ok(), "{s}");
    }
}

#[test]
fn writing_agrees_with_std() {
    for n in [0i64, 1, 9, 10, 99, 12345, -1, -10, i64::MAX, i64::MIN] {
        assert_eq!(string_of(&decimal_i64(n)), n.to_string());
    }
    assert_eq!(string_of(&decimal_u128(u128::MAX)), u128::MAX.to_string());
    assert_eq!(string_of(&padded_u128(105, 10)), "0000000105");
    assert_eq!(string_of(&padded_u128(12345678901, 10)), "12345678901");
    assert_eq!(string_of(&padded_u128(0, 0)), "0");
}

#[test]
fn a_number_reads_back() {
    for n in [0i64, 7, -7, i64::MAX, i64::MIN] {
        assert_eq!(parse_i64(&decimal_i64(n)), Some(n));
    }
}
