use apexos::json::{set_member, JsonValue};
use apexos::order::names_in_order;
use apexos::text::{
    decimal_string, from_chars, parse_i64, parse_unsigned, push_hex2, to_chars, trim,
};

#[test]
fn unsigned_parsing_follows_str_parse() {
    let p = |s: &str, max: u64| parse_unsigned(&to_chars(s), max);
    assert_eq!(p("0", u64::MAX), Some(0));
    assert_eq!(p("+12", u64::MAX), Some(12));
    assert_eq!(p("18446744073709551615", u64::MAX), Some(u64::MAX));
    assert_eq!(p("18446744073709551616", u64::MAX), None);
    assert_eq!(p("256", 255), None);
    assert_eq!(p("", u64::MAX), None);
    assert_eq!(p("+", u64::MAX), None);
    assert_eq!(p("-1", u64::MAX), None);
    assert_eq!(p(" 1", u64::MAX), None);
    assert_eq!(parse_i64(&to_chars("-0")), Some(0));
    assert_eq!(parse_i64(&to_chars("9223372036854775807")), Some(i64::MAX));
}

#[test]
fn decimal_and_hex_text() {
    assert_eq!(decimal_string(0), "0");
    assert_eq!(decimal_string(1234567890), "1234567890");
    let mut s = String::new();
    push_hex2(&mut s, 10);
    push_hex2(&mut s, 255);
    push_hex2(&mut s, 4096);
    assert_eq!(s, "0AFF1000");
}

#[test]
fn trimming_unicode_space() {
    assert_eq!(from_chars(&trim(&to_chars("\u{3000} a b \t"))), "a b");
}

#[test]
fn setting_a_member() {
    let v = JsonValue::object(vec![("a".into(), JsonValue::uint(1)), ("b".into(), JsonValue::uint(2))]);
    let v = set_member(v, "a", JsonValue::uint(9));
    assert_eq!(v.get_u64("a"), Some(9));
    assert_eq!(v.get_u64("b"), Some(2));
    match &v {
        JsonValue::Object(f) => assert_eq!(f.len(), 2),
        _ => panic!("not an object"),
    }
    let w = set_member(JsonValue::Null, "k", JsonValue::Bool(true));
    assert_eq!(w.get_bool("k"), Some(true));
}

#[test]
fn names_compare_by_character() {
    assert!(names_in_order("a", "b"));
    assert!(names_in_order("a", "ab"));
    assert!(!names_in_order("b", "a"));
    assert!(names_in_order("Z", "a"));
    assert!(names_in_order("x", "x"));
}
