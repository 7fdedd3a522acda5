use mcscrape::status::{parse_u32_field, split_bytes, FIELD_SEP};

fn split_str(s: &str) -> Vec<Vec<u8>> {
    split_bytes(s.as_bytes(), FIELD_SEP)
}

#[test]
fn split_keeps_fields_in_order() {
    let fields = split_str("MCPE;Server;123;1.19;5;20");
    assert_eq!(fields.len(), 6);
    assert_eq!(fields[0], b"MCPE");
    assert_eq!(fields[4], b"5");
    assert_eq!(fields[5], b"20");
}

#[test]
fn split_of_empty_text_is_one_empty_field() {
    assert_eq!(split_str(""), vec![Vec::<u8>::new()]);
}

#[test]
fn split_keeps_empty_fields() {
    let fields = split_str(";a;;b;");
    assert_eq!(fields.len(), 5);
    assert_eq!(fields[0], b"");
    assert_eq!(fields[1], b"a");
    assert_eq!(fields[2], b"");
    assert_eq!(fields[3], b"b");
    assert_eq!(fields[4], b"");
}

#[test]
fn split_without_separator_is_one_field() {
    assert_eq!(split_str("abc"), vec![b"abc".to_vec()]);
}

#[test]
fn parse_plain_digits() {
    assert_eq!(parse_u32_field(b"0"), Some(0));
    assert_eq!(parse_u32_field(b"20"), Some(20));
    assert_eq!(parse_u32_field(b"007"), Some(7));
    assert_eq!(parse_u32_field(b"4294967295"), Some(u32::MAX));
}

#[test]
fn parse_accepts_leading_plus() {
    assert_eq!(parse_u32_field(b"+5"), Some(5));
}

#[test]
fn parse_rejects_junk() {
    assert_eq!(parse_u32_field(b""), None);
    assert_eq!(parse_u32_field(b"+"), None);
    assert_eq!(parse_u32_field(b"-5"), None);
    assert_eq!(parse_u32_field(b"5x"), None);
    assert_eq!(parse_u32_field(b" 5"), None);
    assert_eq!(parse_u32_field(b"4294967296"), None);
    assert_eq!(parse_u32_field(b"99999999999999999999"), None);
}
