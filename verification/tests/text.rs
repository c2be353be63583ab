use netgraph::text::{decimal_string, find_last, parse_u32, str_equal, str_less};

#[test]
fn strings_are_ordered_by_code_point() {
    assert!(str_less("addr", "filter"));
    assert!(str_less("filter", "rule"));
    assert!(!str_less("rule", "filter"));
    assert!(!str_less("rule", "rule"));
    assert!(str_less("", "a"));
    assert!(!str_less("a", ""));
    assert!(str_less("ab", "abc"));
    assert!(str_less("Z", "a"));
    assert!(str_less("z", "é"));
}

#[test]
fn strings_are_equal_when_all_characters_are() {
    assert!(str_equal("match", "match"));
    assert!(!str_equal("match", "non-match"));
    assert!(!str_equal("match", "matcH"));
    assert!(str_equal("", ""));
}

#[test]
fn last_colon_is_found() {
    assert_eq!(find_last("192.168.1.5:8080", ':'), Some(11));
    assert_eq!(find_last("[::1]:80", ':'), Some(5));
    assert_eq!(find_last("8080", ':'), None);
    assert_eq!(find_last("", ':'), None);
    assert_eq!(find_last(":", ':'), Some(0));
}

#[test]
fn numbers_are_parsed_like_unsigned_integers() {
    assert_eq!(parse_u32("8080"), Some(8080));
    assert_eq!(parse_u32("+80"), Some(80));
    assert_eq!(parse_u32("0"), Some(0));
    assert_eq!(parse_u32("007"), Some(7));
    assert_eq!(parse_u32("4294967295"), Some(4294967295));
    assert_eq!(parse_u32("4294967296"), None);
    assert_eq!(parse_u32("99999999999999999999999"), None);
    assert_eq!(parse_u32(""), None);
    assert_eq!(parse_u32("+"), None);
    assert_eq!(parse_u32("-1"), None);
    assert_eq!(parse_u32("80 "), None);
    assert_eq!(parse_u32("8o"), None);
    assert_eq!(parse_u32("++1"), None);
}

#[test]
fn numbers_are_written_in_decimal() {
    assert_eq!(decimal_string(0), "0");
    assert_eq!(decimal_string(7), "7");
    assert_eq!(decimal_string(10), "10");
    assert_eq!(decimal_string(8080), "8080");
    assert_eq!(decimal_string(u64::MAX), "18446744073709551615");
}
