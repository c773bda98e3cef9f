use epycell::chars::{chars_of, split_lines, string_of, trim_chars};
use epycell::text::{apply_cr, edit_box_rows, markdown_rows, offset_from_position, source_rows, strip_ansi};

#[test]
fn apply_cr_appends_plain_text() {
    let mut buf = String::from("hello ");
    apply_cr(&mut buf, "world");
    assert_eq!(buf, "hello world");
}

#[test]
fn apply_cr_overwrites_current_line() {
    let mut buf = String::from("done\n 10%");
    apply_cr(&mut buf, "\r 20%");
    assert_eq!(buf, "done\n 20%");
}

#[test]
fn apply_cr_without_newline_clears_buffer() {
    let mut buf = String::from("progress 1");
    apply_cr(&mut buf, "\rprogress 2");
    assert_eq!(buf, "progress 2");
}

#[test]
fn apply_cr_empty_chunk_changes_nothing() {
    let mut buf = String::from("a\nbc");
    apply_cr(&mut buf, "");
    assert_eq!(buf, "a\nbc");
}

#[test]
fn apply_cr_text_after_return_overwrites_line() {
    let mut buf = String::new();
    apply_cr(&mut buf, "a\rb");
    assert_eq!(buf, "b");
    let mut buf = String::new();
    apply_cr(&mut buf, "50%\r75%");
    assert_eq!(buf, "75%");
    let mut buf = String::from("log\n");
    apply_cr(&mut buf, "10%\r20%\r30%\ndone");
    assert_eq!(buf, "log\n30%\ndone");
}

#[test]
fn apply_cr_trailing_return_keeps_line_until_next_chunk() {
    let mut buf = String::new();
    apply_cr(&mut buf, "50%\r");
    assert_eq!(buf, "");
    let mut buf2 = String::from("x\n");
    apply_cr(&mut buf2, "50%\r");
    assert_eq!(buf2, "x\n");
}

#[test]
fn strip_ansi_removes_color_codes() {
    assert_eq!(strip_ansi("\x1b[31mred\x1b[0m text"), "red text");
}

#[test]
fn strip_ansi_keeps_plain_text() {
    assert_eq!(strip_ansi("plain — text"), "plain — text");
}

#[test]
fn strip_ansi_unterminated_sequence_drops_rest() {
    assert_eq!(strip_ansi("ok\x1b[1;2"), "ok");
}

#[test]
fn offset_from_position_counts_previous_lines() {
    assert_eq!(offset_from_position("ab\ncd", 1, 1), 4);
    assert_eq!(offset_from_position("ab\ncd", 0, 0), 0);
}

#[test]
fn offset_from_position_caps_character_at_line_end() {
    assert_eq!(offset_from_position("ab\ncd", 0, 10), 2);
}

#[test]
fn offset_from_position_past_last_line() {
    assert_eq!(offset_from_position("ab\ncd", 5, 0), 6);
    assert_eq!(offset_from_position("", 0, 3), 0);
}

#[test]
fn offset_from_position_counts_bytes() {
    // 'é' takes two bytes.
    assert_eq!(offset_from_position("é\nx", 1, 0), 3);
    assert_eq!(offset_from_position("éa", 0, 1), 1);
}

#[test]
fn offset_from_position_crlf_lines() {
    assert_eq!(offset_from_position("ab\r\ncd", 1, 0), 3);
}

#[test]
fn source_rows_counts_newlines() {
    assert_eq!(source_rows(""), 1);
    assert_eq!(source_rows("a\nb"), 2);
    assert_eq!(source_rows("a\nb\n"), 3);
}

#[test]
fn markdown_rows_uses_rendered_height() {
    let src = "# Title\n\nSome *text*\n\n- one\n- two";
    let h = tui_markdown::from_str(src).height();
    let expected = std::cmp::max(1, (h % 65536) as u16);
    assert_eq!(markdown_rows(src), expected);
    assert!(markdown_rows(src) > 1);
}

#[test]
fn markdown_rows_empty_is_one() {
    assert_eq!(markdown_rows(""), 1);
}

#[test]
fn edit_box_rows_clamps() {
    assert_eq!(edit_box_rows(40, 3), 8);
    assert_eq!(edit_box_rows(40, 0), 6);
    assert_eq!(edit_box_rows(12, 20), 8);
    assert_eq!(edit_box_rows(10, 0), 6);
}

#[test]
fn chars_helpers() {
    let v = chars_of("a b\nc");
    assert_eq!(v, vec!['a', ' ', 'b', '\n', 'c']);
    assert_eq!(string_of(&v), "a b\nc");
    let lines = split_lines(&chars_of("x\r\ny\n"));
    assert_eq!(lines, vec![vec!['x'], vec!['y']]);
    assert_eq!(trim_chars(&chars_of("  hi \t")), vec!['h', 'i']);
}
