use tradebot::text::{parse_fixed, parse_uint, push_decimal, push_signed, str_eq, utf16_entity, UNIT};

#[test]
fn whole_numbers() {
    assert_eq!(parse_uint("0"), Some(0));
    assert_eq!(parse_uint("42"), Some(42));
    assert_eq!(parse_uint("18446744073709551615"), Some(u64::MAX));
    assert_eq!(parse_uint("18446744073709551616"), None);
    assert_eq!(parse_uint(""), None);
    assert_eq!(parse_uint("-1"), None);
    assert_eq!(parse_uint("4a"), None);
}

#[test]
fn fixed_point_numbers() {
    assert_eq!(parse_fixed("1"), Some(UNIT));
    assert_eq!(parse_fixed("0.05"), Some(50_000));
    assert_eq!(parse_fixed("0.001"), Some(1_000));
    assert_eq!(parse_fixed("10000"), Some(10_000 * UNIT));
    assert_eq!(parse_fixed("2.123456"), Some(2_123_456));
    assert_eq!(parse_fixed("2.1234567"), None);
    assert_eq!(parse_fixed(".5"), None);
    assert_eq!(parse_fixed("5."), None);
    assert_eq!(parse_fixed("1.2.3"), None);
    assert_eq!(parse_fixed(""), None);
    assert_eq!(parse_fixed("18446744073709"), Some(18_446_744_073_709 * UNIT));
    assert_eq!(parse_fixed("18446744073710"), None);
    assert_eq!(parse_fixed("18446744073709.551615"), Some(u64::MAX));
    assert_eq!(parse_fixed("18446744073709.551616"), None);
}

#[test]
fn decimal_rendering() {
    let mut s = String::from("n=");
    push_decimal(&mut s, 1000);
    assert_eq!(s, "n=1000");
    let mut s = String::new();
    push_signed(&mut s, i64::MIN);
    assert_eq!(s, "-9223372036854775808");
    let mut s = String::new();
    push_signed(&mut s, 0);
    assert_eq!(s, "0");
}

#[test]
fn string_equality() {
    assert!(str_eq("абв", "абв"));
    assert!(!str_eq("ab", "abc"));
    assert!(!str_eq("ab", "ac"));
}

#[test]
fn utf16_entities() {
    assert_eq!(utf16_entity("ab😀cd", 0, 2), Some("ab".to_string()));
    assert_eq!(utf16_entity("ab😀cd", 2, 2), Some("😀".to_string()));
    assert_eq!(utf16_entity("ab😀cd", 4, 10), Some("cd".to_string()));
    assert_eq!(utf16_entity("ab😀cd", 3, 1), None);
    assert_eq!(utf16_entity("ab😀cd", 2, 1), None);
    assert_eq!(utf16_entity("ab", 5, 1), Some(String::new()));
}
