use pipelines_rs::Record;

#[test]
fn test_new_record_is_blank() {
    let record = Record::new();
    assert!(record.is_blank());
    assert_eq!(record.as_str().len(), 80);
}

#[test]
fn test_from_str_short() {
    let record = Record::from_str("HELLO");
    assert!(record.as_str().starts_with("HELLO"));
    assert_eq!(record.as_str().len(), 80);
    let s = record.as_str();
    assert_eq!(&s[5..], &" ".repeat(75));
}

#[test]
fn test_from_str_exact() {
    let input = "A".repeat(80);
    let record = Record::from_str(&input);
    assert_eq!(record.as_str(), input);
}

#[test]
fn test_from_str_truncated() {
    let input = "B".repeat(100);
    let record = Record::from_str(&input);
    assert_eq!(record.as_str(), "B".repeat(80));
}

#[test]
fn test_field_extraction() {
    let record = Record::from_str("SMITH   JOHN      ENGINEERING00075000");
    assert_eq!(record.field(0, 8), "SMITH   ");
    assert_eq!(record.field(8, 10), "JOHN      ");
    assert_eq!(record.field(18, 11), "ENGINEERING");
    assert_eq!(record.field(29, 8), "00075000");
}

#[test]
fn test_field_eq() {
    let record = Record::from_str("SMITH   JOHN      SALES     ");
    assert!(record.field_eq(0, 8, "SMITH"));
    assert!(record.field_eq(8, 10, "JOHN"));
    assert!(record.field_eq(18, 10, "SALES"));
    assert!(!record.field_eq(18, 10, "ENGINEERING"));
}

#[test]
fn test_set_field() {
    let mut record = Record::new();
    record.set_field(0, 8, "SMITH");
    record.set_field(8, 10, "JOHN");
    record.set_field(18, 10, "SALES");
    record.set_field(28, 8, "00050000");

    assert_eq!(record.field(0, 8).trim(), "SMITH");
    assert_eq!(record.field(8, 10).trim(), "JOHN");
    assert_eq!(record.field(18, 10).trim(), "SALES");
    assert_eq!(record.field(28, 8), "00050000");
}

#[test]
fn test_set_field_truncates() {
    let mut record = Record::new();
    record.set_field(0, 5, "LONGERNAME");
    assert_eq!(record.field(0, 5), "LONGE");
}

#[test]
fn test_non_ascii_replaced() {
    let record = Record::from_str("Hello\u{00E9}World"); // e with acute
    assert!(record.as_str().contains('?'));
}

#[test]
fn test_field_out_of_bounds() {
    let record = Record::from_str("TEST");
    // Should not panic, just return truncated/empty
    assert_eq!(record.field(90, 10), "");
    assert_eq!(record.field(75, 10), "     "); // partial
}

#[test]
fn test_field_contains() {
    let record = Record::from_str("SMITH   JOHN      ENGINEERING");
    assert!(record.field_contains(18, 11, "ENGINE"));
    assert!(!record.field_contains(18, 11, "SALES"));
}

#[test]
fn test_field_starts_with() {
    let record = Record::from_str("SMITH   JOHN      ENGINEERING");
    assert!(record.field_starts_with(18, 11, "ENG"));
    assert!(!record.field_starts_with(18, 11, "SALES"));
}

#[test]
fn test_display() {
    let record = Record::from_str("TEST");
    let displayed = record.as_str();
    assert_eq!(displayed.len(), 80);
    assert!(displayed.starts_with("TEST"));
}

#[test]
fn test_debug() {
    let record = Record::from_str("TEST   ");
    let debug = record.debug_string();
    assert!(debug.contains("TEST"));
    // The debug rendering trims trailing spaces
    assert!(!debug.ends_with("   \")"));
}

#[test]
fn test_record_eq_and_clone() {
    let a = Record::from_str("SAME CONTENT");
    let b = a.clone();
    assert!(a == b);
    let c = Record::from_str("OTHER CONTENT");
    assert!(a != c);
}

#[test]
fn test_default_is_blank() {
    let record = Record::default();
    assert!(record.is_blank());
}

#[test]
fn test_from_bytes_sanitizes() {
    let record = Record::from_bytes(&[0x41u8, 0xFFu8, 0x42u8]);
    assert!(record.as_str().starts_with("A?B"));
    assert_eq!(record.as_bytes().len(), 80);
    assert_eq!(record.as_bytes()[0], 0x41);
    assert_eq!(record.as_bytes()[1], b'?');
}

#[test]
fn test_field_eq_exact() {
    let record = Record::from_str("SMITH   ");
    assert!(record.field_eq_exact(0, 8, "SMITH   "));
    assert!(!record.field_eq_exact(0, 8, "SMITH"));
}
