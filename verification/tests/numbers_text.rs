use backuper::numbers::{decimal_string, parse_i32, parse_u16, signed_decimal_string, IntErrorKind};

#[test]
fn test_parse_u16_matches_std() {
    for s in ["0", "1", "+7", "65535", "65536", "99999x", "x", "", "+", "-", "-1", "007", "1 ", "6553a"] {
        let ours = parse_u16(s);
        let std = s.parse::<u16>();
        match (ours, std) {
            (Ok(a), Ok(b)) => assert_eq!(a, b, "{s}"),
            (Err(k), Err(e)) => assert_eq!(k.description(), e.to_string(), "{s}"),
            (a, b) => panic!("{s}: {a:?} vs {b:?}"),
        }
    }
}

#[test]
fn test_parse_i32_matches_std() {
    for s in ["0", "-0", "+3", "-2147483648", "2147483647", "2147483648", "-2147483649", "-", "--1", "1-", "", "12e3"] {
        let ours = parse_i32(s);
        let std = s.parse::<i32>();
        match (ours, std) {
            (Ok(a), Ok(b)) => assert_eq!(a, b, "{s}"),
            (Err(k), Err(e)) => assert_eq!(k.description(), e.to_string(), "{s}"),
            (a, b) => panic!("{s}: {a:?} vs {b:?}"),
        }
    }
}

#[test]
fn test_parse_error_kinds() {
    assert_eq!(parse_u16(""), Err(IntErrorKind::Empty));
    assert_eq!(parse_u16("+"), Err(IntErrorKind::InvalidDigit));
    assert_eq!(parse_u16("70000"), Err(IntErrorKind::PosOverflow));
    assert_eq!(parse_i32("-3000000000"), Err(IntErrorKind::NegOverflow));
}

#[test]
fn test_decimal_strings() {
    assert_eq!(decimal_string(0), "0");
    assert_eq!(decimal_string(1234567890), "1234567890");
    assert_eq!(decimal_string(u64::MAX), u64::MAX.to_string());
    assert_eq!(signed_decimal_string(-131072), "-131072");
    assert_eq!(signed_decimal_string(22), "22");
    assert_eq!(signed_decimal_string(i64::MIN), i64::MIN.to_string());
}
