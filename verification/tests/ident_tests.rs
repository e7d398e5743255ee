use rubrail::{format_ident, parse_ident};

#[test]
fn first_identifier_text() {
    assert_eq!(format_ident(0), b"com.trevorbentley.0".to_vec());
}

#[test]
fn identifier_text_of_multi_digit_number() {
    assert_eq!(format_ident(42), b"com.trevorbentley.42".to_vec());
    assert_eq!(format_ident(100), b"com.trevorbentley.100".to_vec());
}

#[test]
fn identifier_text_of_largest_number() {
    assert_eq!(
        format_ident(u64::MAX),
        b"com.trevorbentley.18446744073709551615".to_vec()
    );
}

#[test]
fn parse_reads_back_format() {
    for n in [0u64, 1, 9, 10, 42, 1000, 123456789, u64::MAX] {
        assert_eq!(parse_ident(&format_ident(n)), Some(n));
    }
}

#[test]
fn parse_rejects_other_prefix() {
    assert_eq!(parse_ident(b"com.trevorbentlex.1"), None);
    assert_eq!(parse_ident(b"org.trevorbentley.1"), None);
}

#[test]
fn parse_rejects_bare_prefix_and_short_text() {
    assert_eq!(parse_ident(b"com.trevorbentley."), None);
    assert_eq!(parse_ident(b"com"), None);
    assert_eq!(parse_ident(b""), None);
}

#[test]
fn parse_rejects_leading_zero() {
    assert_eq!(parse_ident(b"com.trevorbentley.07"), None);
    assert_eq!(parse_ident(b"com.trevorbentley.00"), None);
    assert_eq!(parse_ident(b"com.trevorbentley.0"), Some(0));
}

#[test]
fn parse_rejects_non_digits() {
    assert_eq!(parse_ident(b"com.trevorbentley.1a"), None);
    assert_eq!(parse_ident(b"com.trevorbentley.-1"), None);
    assert_eq!(parse_ident(b"com.trevorbentley.1 "), None);
}

#[test]
fn parse_rejects_numbers_past_u64() {
    assert_eq!(parse_ident(b"com.trevorbentley.18446744073709551616"), None);
    assert_eq!(parse_ident(b"com.trevorbentley.99999999999999999999"), None);
}
