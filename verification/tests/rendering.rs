use playprobe::strings::{i64_to_string, str_contains, str_eq, str_lex_le, u128_to_string};

#[test]
fn decimal_rendering_matches_standard_formatting() {
    assert_eq!(u128_to_string(0), "0");
    assert_eq!(u128_to_string(9), "9");
    assert_eq!(u128_to_string(10), "10");
    assert_eq!(u128_to_string(266323), "266323");
    assert_eq!(u128_to_string(u128::MAX), format!("{}", u128::MAX));
}

#[test]
fn signed_rendering_handles_negatives() {
    assert_eq!(i64_to_string(0), "0");
    assert_eq!(i64_to_string(-1), "-1");
    assert_eq!(i64_to_string(i64::MIN), format!("{}", i64::MIN));
    assert_eq!(i64_to_string(i64::MAX), format!("{}", i64::MAX));
}

#[test]
fn substring_search_finds_and_rejects() {
    assert!(str_contains("abc", ""));
    assert!(str_contains("", ""));
    assert!(!str_contains("", "a"));
    assert!(str_contains("{\"code\":0,\"x\":1}", "\"code\":0,"));
    assert!(!str_contains("{\"code\":1,\"x\":0}", "\"code\":0,"));
}

#[test]
fn lexicographic_order_is_byte_order() {
    assert!(str_lex_le("", "a"));
    assert!(str_lex_le("a", "a"));
    assert!(str_lex_le("a", "ab"));
    assert!(!str_lex_le("b", "ab"));
    assert!(str_lex_le("appkey=x", "ts=1"));
}

#[test]
fn string_equality_compares_contents() {
    assert!(str_eq("th", "th"));
    assert!(!str_eq("th", "tw"));
    assert!(!str_eq("th", "t"));
}
