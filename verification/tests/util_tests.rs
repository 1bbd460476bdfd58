use navalyze::util::{get_param_default, parse_u64, reversed, to_decimal, QueryValue};

fn params(pairs: &[(&str, &str)]) -> Vec<(String, String)> {
    pairs.iter().map(|(k, v)| (k.to_string(), v.to_string())).collect()
}

#[test]
fn parse_u64_accepts_digits_and_plus() {
    assert_eq!(parse_u64("42"), Some(42));
    assert_eq!(parse_u64("+7"), Some(7));
    assert_eq!(parse_u64("0007"), Some(7));
    assert_eq!(parse_u64("18446744073709551615"), Some(u64::MAX));
}

#[test]
fn parse_u64_rejects_what_str_parse_rejects() {
    for text in ["", "+", "-1", "-0", "12a", " 1", "1 ", "18446744073709551616", "٣"] {
        assert_eq!(parse_u64(text), None, "{text:?}");
        assert!(text.parse::<u64>().is_err(), "{text:?}");
    }
}

#[test]
fn parse_agrees_with_std_on_samples() {
    for text in ["0", "+0", "-0", "-1", "2147483647", "2147483648", "-2147483648", "-2147483649", "99999999999999999999", "+-1", "--1"] {
        assert_eq!(<u64 as QueryValue>::parse_query(text), text.parse::<u64>().ok(), "{text:?}");
        assert_eq!(<usize as QueryValue>::parse_query(text), text.parse::<usize>().ok(), "{text:?}");
        assert_eq!(<i32 as QueryValue>::parse_query(text), text.parse::<i32>().ok(), "{text:?}");
    }
}

#[test]
fn get_param_default_reads_the_last_value() {
    let p = params(&[("limit", "3"), ("offset", "1"), ("limit", "5")]);
    assert_eq!(get_param_default(&p, "limit", 10usize), 5);
    assert_eq!(get_param_default(&p, "offset", 10u64), 1);
}

#[test]
fn get_param_default_falls_back() {
    let p = params(&[("limit", "many"), ("a", "-3")]);
    assert_eq!(get_param_default(&p, "limit", 10usize), 10);
    assert_eq!(get_param_default(&p, "missing", 4u64), 4);
    assert_eq!(get_param_default(&p, "a", 0u64), 0);
    assert_eq!(get_param_default(&p, "a", 0i32), -3);
}

#[test]
fn to_decimal_writes_numbers() {
    assert_eq!(to_decimal(0), "0");
    assert_eq!(to_decimal(7), "7");
    assert_eq!(to_decimal(1234567890), "1234567890");
    assert_eq!(to_decimal(u64::MAX), u64::MAX.to_string());
}

#[test]
fn decimal_round_trip_on_values() {
    for n in [0u64, 9, 10, 99, 100, 4096, u64::MAX] {
        assert_eq!(parse_u64(&to_decimal(n)), Some(n));
    }
}

#[test]
fn reversed_reverses() {
    assert_eq!(reversed(vec![1, 2, 3]), vec![3, 2, 1]);
    assert_eq!(reversed(Vec::<u8>::new()), Vec::<u8>::new());
}

#[test]
fn get_param_default_for_other_integer_types() {
    let p = params(&[("limit", "-5"), ("x", "12"), ("big", "300")]);
    assert_eq!(get_param_default(&p, "limit", 3usize), 3);
    assert_eq!(get_param_default(&p, "limit", 3i64), -5);
    assert_eq!(get_param_default(&p, "x", 0u64), 12);
    assert_eq!(get_param_default(&p, "y", 7u64), 7);
    assert_eq!(get_param_default(&p, "big", 1u8), 1);
    assert_eq!(get_param_default(&p, "big", 1u16), 300);
    assert_eq!(get_param_default(&p, "limit", 0i8), -5);
    assert_eq!(get_param_default(&p, "x", 0isize), 12);
}

#[test]
fn parse_agrees_with_std_on_more_types() {
    for text in ["0", "-1", "127", "128", "-128", "-129", "255", "256", "65535", "65536", "4294967295", "4294967296",
        "9223372036854775807", "9223372036854775808", "-9223372036854775808", "-9223372036854775809", "+", "-", "x"] {
        assert_eq!(<u8 as QueryValue>::parse_query(text), text.parse::<u8>().ok(), "{text:?}");
        assert_eq!(<u16 as QueryValue>::parse_query(text), text.parse::<u16>().ok(), "{text:?}");
        assert_eq!(<u32 as QueryValue>::parse_query(text), text.parse::<u32>().ok(), "{text:?}");
        assert_eq!(<i8 as QueryValue>::parse_query(text), text.parse::<i8>().ok(), "{text:?}");
        assert_eq!(<i16 as QueryValue>::parse_query(text), text.parse::<i16>().ok(), "{text:?}");
        assert_eq!(<i64 as QueryValue>::parse_query(text), text.parse::<i64>().ok(), "{text:?}");
        assert_eq!(<isize as QueryValue>::parse_query(text), text.parse::<isize>().ok(), "{text:?}");
    }
}
