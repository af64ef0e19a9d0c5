use overfocus::text::{has_prefix, push_decimal, same_text};

fn written(n: i64) -> String {
    let mut out = String::from("n=");
    push_decimal(&mut out, n);
    out
}

#[test]
fn prefixes() {
    assert!(has_prefix("__i3_scratch", "__i3"));
    assert!(has_prefix("__i3", "__i3"));
    assert!(has_prefix("anything", ""));
    assert!(has_prefix("", ""));
    assert!(!has_prefix("__i", "__i3"));
    assert!(!has_prefix("_i3_", "__i3"));
    assert!(!has_prefix("", "a"));
    assert!(has_prefix("\u{e9}t\u{e9}", "\u{e9}t"));
    assert!(!has_prefix("\u{e9}t\u{e9}", "et"));
}

#[test]
fn equal_texts() {
    assert!(same_text("content", "content"));
    assert!(same_text("", ""));
    assert!(!same_text("content", "contents"));
    assert!(!same_text("contents", "content"));
    assert!(!same_text("content", "Content"));
    assert!(!same_text("", "a"));
}

#[test]
fn decimal_numbers() {
    assert_eq!(written(0), "n=0");
    assert_eq!(written(9), "n=9");
    assert_eq!(written(10), "n=10");
    assert_eq!(written(1234567890), "n=1234567890");
    assert_eq!(written(-1), "n=-1");
    assert_eq!(written(-120), "n=-120");
    assert_eq!(written(i64::MAX), "n=9223372036854775807");
    assert_eq!(written(i64::MIN), "n=-9223372036854775808");
}
