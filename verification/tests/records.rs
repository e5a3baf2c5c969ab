use winston::{LogInfo, MetaValue};
use winston::text::{contains_bytes, eq_ignore_ascii_case, str_contains};

#[test]
fn test_record_construction() {
    let r = LogInfo::new("info", "hello");
    assert_eq!(r.level, "info");
    assert_eq!(r.message, "hello");
    assert!(r.meta.is_empty());
}

#[test]
fn test_record_degenerate() {
    assert!(LogInfo::new("info", "").is_degenerate());
    assert!(!LogInfo::new("info", "x").is_degenerate());
    let with_meta = LogInfo::new("info", "").with_meta("k", MetaValue::Null);
    assert!(!with_meta.is_degenerate());
}

#[test]
fn test_record_meta_replaces_key() {
    let r = LogInfo::new("info", "x")
        .with_meta("k", MetaValue::Int(1))
        .with_meta("other", MetaValue::Bool(true))
        .with_meta("k", MetaValue::Int(2));
    assert_eq!(r.meta.len(), 2);
    assert_eq!(r.get_meta("k"), Some(&MetaValue::Int(2)));
    assert_eq!(r.get_meta("other"), Some(&MetaValue::Bool(true)));
    assert_eq!(r.get_meta("missing"), None);
    assert!(r.has_meta("k"));
    assert!(!r.has_meta("missing"));
}

#[test]
fn test_record_clone_preserves_everything() {
    let r = LogInfo::new("warn", "msg").with_meta("k", MetaValue::Str("v".into()));
    let c = r.clone();
    assert_eq!(r, c);
}

#[test]
fn test_text_contains() {
    assert!(str_contains("hello world", "lo wo"));
    assert!(str_contains("hello", ""));
    assert!(!str_contains("hello", "world"));
    assert!(!str_contains("", "x"));
    assert!(contains_bytes(b"abcabd", b"abd"));
    assert!(!contains_bytes(b"abcabc", b"abd"));
}

#[test]
fn test_text_case_insensitive_eq() {
    assert!(eq_ignore_ascii_case("Level", "lEVEL"));
    assert!(eq_ignore_ascii_case("", ""));
    assert!(!eq_ignore_ascii_case("level", "leveL2"));
    assert!(!eq_ignore_ascii_case("abc", "abd"));
}
