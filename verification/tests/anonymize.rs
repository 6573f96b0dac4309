use confession_core::anonymize::{anonymous_tag, decimal_string, hex_string};

#[test]
fn tag_is_deterministic() {
    assert_eq!(anonymous_tag(42), anonymous_tag(42));
}

#[test]
fn tags_differ_between_submitters() {
    assert_ne!(anonymous_tag(42), anonymous_tag(43));
    assert_ne!(anonymous_tag(0), anonymous_tag(1));
}

#[test]
fn tag_is_a_64_char_hex_digest_not_the_id() {
    let tag = anonymous_tag(42);
    assert_eq!(tag.len(), 64);
    assert!(tag.chars().all(|c| c.is_ascii_hexdigit()));
    assert_ne!(tag, "42");
    assert!(!tag.contains("42") || tag != decimal_string(42));
}

#[test]
fn decimal_string_exact_values() {
    assert_eq!(decimal_string(0), "0");
    assert_eq!(decimal_string(7), "7");
    assert_eq!(decimal_string(10), "10");
    assert_eq!(decimal_string(1234567890), "1234567890");
    assert_eq!(decimal_string(u64::MAX), "18446744073709551615");
}

#[test]
fn hex_string_exact_values() {
    assert_eq!(hex_string(&vec![]), "");
    assert_eq!(hex_string(&vec![0xbe, 0xef]), "beef");
    assert_eq!(hex_string(&vec![0x00, 0xff, 0x0a]), "00ff0a");
}
