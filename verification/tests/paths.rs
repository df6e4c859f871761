use sempkg::paths::{archive_entry_action, components_of, join_path, EntryAction};
use sempkg::pieces::{
    copy_opt, join_texts, replace_text, take_bytes, write_decimal, write_integer,
};
use sempkg::text::{contains_text, ends_with_text, starts_with_text, to_ascii_lower, trim_text};

#[test]
fn paths_are_joined() {
    assert_eq!(join_path("/a", "b"), "/a/b");
    assert_eq!(join_path("/a/", "b"), "/a/b");
    assert_eq!(join_path("/a", "/b"), "/b");
    assert_eq!(components_of("a/./b//c"), vec!["a", "b", "c"]);
}

#[test]
fn entries_that_lead_outside_are_refused() {
    assert!(matches!(
        archive_entry_action("/etc/passwd", false),
        EntryAction::RefuseAbsolute
    ));
    assert!(matches!(
        archive_entry_action("top/../../x", false),
        EntryAction::RefuseTraversal
    ));
    assert!(matches!(archive_entry_action("top/link", true), EntryAction::Skip));
    assert!(matches!(archive_entry_action("top", false), EntryAction::Skip));
    match archive_entry_action("top/src/main.rs", false) {
        EntryAction::Unpack(p) => assert_eq!(p, "src/main.rs"),
        _ => panic!("an ordinary entry is unpacked"),
    }
}

#[test]
fn texts_are_taken_apart() {
    assert_eq!(trim_text("\u{a0} a b \n"), "a b");
    assert!(contains_text("abcabd", "abd"));
    assert!(!contains_text("abcab", "abd"));
    assert!(starts_with_text("github:o", "github:"));
    assert!(ends_with_text("a.sembundle", ".sembundle"));
    assert_eq!(to_ascii_lower('Q'), 'q');
    assert_eq!(to_ascii_lower('\u{c4}'), '\u{c4}');
    assert_eq!(replace_text("it's 'so'", "'", "''"), "it''s ''so''");
    assert_eq!(take_bytes("\u{e4}bc", 3), "\u{e4}b");
}

#[test]
fn numbers_are_written() {
    assert_eq!(write_decimal(0), "0");
    assert_eq!(write_decimal(u64::MAX), "18446744073709551615");
    assert_eq!(write_integer(-40), "-40");
    assert_eq!(write_integer(i64::MIN), "-9223372036854775808");
    assert_eq!(
        join_texts(&vec!["a".to_string(), "b".to_string()], ", "),
        "a, b"
    );
    assert_eq!(copy_opt(&Some("x".to_string())), Some("x".to_string()));
}
