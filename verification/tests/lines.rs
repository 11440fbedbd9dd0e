use minigrep::split_lines;

#[test]
fn lines_end_at_line_feeds() {
    assert_eq!(split_lines("Rust:\nsafe, fast, productive.\nPick three."), vec![
        "Rust:",
        "safe, fast, productive.",
        "Pick three."
    ]);
    assert_eq!(split_lines("one line"), vec!["one line"]);
}

#[test]
fn the_empty_text_has_no_line() {
    assert_eq!(split_lines(""), Vec::<&str>::new());
}

#[test]
fn the_last_line_needs_no_line_feed() {
    assert_eq!(split_lines("a\nb\n"), vec!["a", "b"]);
    assert_eq!(split_lines("a\nb"), vec!["a", "b"]);
}

#[test]
fn empty_lines_are_lines() {
    assert_eq!(split_lines("\n"), vec![""]);
    assert_eq!(split_lines("\n\n"), vec!["", ""]);
    assert_eq!(split_lines("a\n\nb"), vec!["a", "", "b"]);
    assert_eq!(split_lines("a\n\n"), vec!["a", ""]);
}

#[test]
fn one_carriage_return_before_a_line_feed_is_dropped() {
    assert_eq!(split_lines("a\r\nb\r\n"), vec!["a", "b"]);
    assert_eq!(split_lines("\r\n"), vec![""]);
    assert_eq!(split_lines("a\r\r\n"), vec!["a\r"]);
    assert_eq!(split_lines("a\r\nb\nc\r\nd"), vec!["a", "b", "c", "d"]);
}

#[test]
fn other_carriage_returns_are_kept() {
    assert_eq!(split_lines("a\rb"), vec!["a\rb"]);
    assert_eq!(split_lines("a\r"), vec!["a\r"]);
    assert_eq!(split_lines("\r"), vec!["\r"]);
    assert_eq!(split_lines("a\n\r"), vec!["a", "\r"]);
    assert_eq!(split_lines("\ra\n"), vec!["\ra"]);
}

#[test]
fn lines_are_slices_of_the_text() {
    let text = String::from("ab\r\ncd\n");
    let lines = split_lines(&text);
    assert_eq!(lines.len(), 2);
    assert!(std::ptr::eq(lines[0], &text[0..2]));
    assert!(std::ptr::eq(lines[1], &text[4..6]));
}
