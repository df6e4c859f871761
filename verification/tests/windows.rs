use sempkg::windows::{kwic_windows, KWIC_STRIDE_CHARS, KWIC_WINDOW_CHARS};

#[test]
fn a_short_text_is_one_window() {
    assert_eq!(kwic_windows("a\nb"), vec!["a\nb"]);
    let edge = "x".repeat(KWIC_WINDOW_CHARS);
    assert_eq!(kwic_windows(&edge), vec![edge]);
}

#[test]
fn windows_overlap_and_end_with_lines() {
    let line = format!("{}\n", "y".repeat(99));
    let text = line.repeat(40);
    let windows = kwic_windows(&text);
    assert!(windows.len() > 2);
    assert!(windows[0].len() >= KWIC_WINDOW_CHARS);
    for w in &windows {
        assert!(w.ends_with('\n'));
    }
    let second = text.find(windows[1].as_str()).unwrap();
    assert_eq!(second, 0, "equal lines");
    assert!(text.starts_with(windows[0].as_str()));
    assert!(text.ends_with(windows[windows.len() - 1].as_str()));
    assert_eq!(KWIC_STRIDE_CHARS * 2, KWIC_WINDOW_CHARS);
}

#[test]
fn windows_count_characters() {
    let text = format!("{}\n{}", "\u{e4}".repeat(800), "z".repeat(200));
    assert!(text.len() > KWIC_WINDOW_CHARS);
    assert_eq!(kwic_windows(&text), vec![text]);
}
