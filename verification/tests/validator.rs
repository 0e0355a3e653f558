//! The IPv4 validator and the small text utilities.

use namecheap_ddns::ipv4::is_valid_ipv4;
use namecheap_ddns::text::{parse_u32, prefix_chars, starts_with_str, str_eq, trim, u32_to_string};

#[test]
fn accepts_ordinary_dotted_quads() {
    assert!(is_valid_ipv4("1.2.3.4"));
    assert!(is_valid_ipv4("0.0.0.0"));
    assert!(is_valid_ipv4("255.255.255.255"));
    assert!(is_valid_ipv4("192.168.0.1"));
    assert!(is_valid_ipv4("10.0.0.255"));
}

#[test]
fn rejects_out_of_range_octets() {
    assert!(!is_valid_ipv4("256.1.1.1"));
    assert!(!is_valid_ipv4("1.2.3.999"));
    assert!(!is_valid_ipv4("300.300.300.300"));
}

#[test]
fn rejects_wrong_shapes() {
    assert!(!is_valid_ipv4(""));
    assert!(!is_valid_ipv4("1.2.3"));
    assert!(!is_valid_ipv4("1.2.3.4.5"));
    assert!(!is_valid_ipv4("1..2.3"));
    assert!(!is_valid_ipv4("1.2.3."));
    assert!(!is_valid_ipv4(".1.2.3"));
    assert!(!is_valid_ipv4("a.b.c.d"));
    assert!(!is_valid_ipv4("example.com"));
    assert!(!is_valid_ipv4("what is my ip"));
}

#[test]
fn rejects_ipv6_and_noise() {
    assert!(!is_valid_ipv4("::1"));
    assert!(!is_valid_ipv4("2001:db8::1"));
    assert!(!is_valid_ipv4(" 1.2.3.4"));
    assert!(!is_valid_ipv4("1.2.3.4 "));
    assert!(!is_valid_ipv4("1.2.3.4\n"));
    assert!(!is_valid_ipv4("+1.2.3.4"));
    assert!(!is_valid_ipv4("-1.2.3.4"));
}

#[test]
fn rejects_leading_zeros() {
    assert!(!is_valid_ipv4("01.2.3.4"));
    assert!(!is_valid_ipv4("1.02.3.4"));
    assert!(!is_valid_ipv4("1.2.3.010"));
    assert!(is_valid_ipv4("0.2.3.4"));
}

#[test]
fn trim_strips_ascii_whitespace() {
    assert_eq!(trim("  1.2.3.4\r\n"), "1.2.3.4");
    assert_eq!(trim("\t x \t"), "x");
    assert_eq!(trim("   "), "");
    assert_eq!(trim(""), "");
    assert_eq!(trim("a b"), "a b");
}

#[test]
fn prefix_chars_bounds_a_preview() {
    assert_eq!(prefix_chars("hello", 80), "hello");
    assert_eq!(prefix_chars("hello", 3), "hel");
    assert_eq!(prefix_chars("", 80), "");
    let long = "x".repeat(200);
    assert_eq!(prefix_chars(&long, 80).len(), 80);
}

#[test]
fn parse_u32_matches_std() {
    assert_eq!(parse_u32("0"), Some(0));
    assert_eq!(parse_u32("007"), Some(7));
    assert_eq!(parse_u32("+42"), Some(42));
    assert_eq!(parse_u32("4294967295"), Some(u32::MAX));
    assert_eq!(parse_u32("4294967296"), None);
    assert_eq!(parse_u32(""), None);
    assert_eq!(parse_u32("+"), None);
    assert_eq!(parse_u32("-1"), None);
    assert_eq!(parse_u32("12a"), None);
    assert_eq!(parse_u32(" 1"), None);
}

#[test]
fn u32_to_string_writes_decimal() {
    assert_eq!(u32_to_string(0), "0");
    assert_eq!(u32_to_string(7), "7");
    assert_eq!(u32_to_string(105), "105");
    assert_eq!(u32_to_string(4294967295), "4294967295");
}

#[test]
fn string_helpers_compare_by_characters() {
    assert!(str_eq("abc", "abc"));
    assert!(!str_eq("abc", "abd"));
    assert!(!str_eq("abc", "ab"));
    assert!(starts_with_str("ErrCount", "Err"));
    assert!(starts_with_str("Err1", "Err"));
    assert!(!starts_with_str("Description", "Err"));
    assert!(!starts_with_str("Er", "Err"));
}
