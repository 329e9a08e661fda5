use mimo_tui::input::InputBuffer;

#[test]
fn supports_basic_editing() {
    let mut buffer = InputBuffer::new();
    buffer.insert_str("hello");
    buffer.move_left();
    buffer.insert_char('X');
    buffer.delete();
    buffer.backspace();
    assert_eq!(buffer.as_str(), "hell");
    assert_eq!(buffer.char_len(), 4);
}

#[test]
fn computes_line_navigation() {
    let mut buffer = InputBuffer::from("one\ntwo\nthree");
    buffer.set_text("one\ntwo\nthree");
    for _ in 0..8 {
        buffer.move_left();
    }
    assert_eq!(buffer.cursor_line_col(), (1, 1));
    buffer.move_to_line_start();
    assert_eq!(buffer.cursor_line_col(), (1, 0));
    buffer.move_to_line_end();
    assert_eq!(buffer.cursor_line_col(), (1, 3));
}

#[test]
fn replaces_char_ranges() {
    let mut buffer = InputBuffer::from("alpha beta");
    buffer.replace_char_range(6, 10, "gamma");
    assert_eq!(buffer.as_str(), "alpha gamma");
}

#[test]
fn counts_trailing_empty_line() {
    let buffer = InputBuffer::from("one\n");
    assert_eq!(buffer.line_count(), 2);
    assert_eq!(buffer.cursor_line_col(), (1, 0));
}

#[test]
fn backspace_undoes_insert_char_on_multibyte_text() {
    let mut buffer = InputBuffer::from("héllo");
    buffer.move_left();
    buffer.move_left();
    buffer.insert_char('ü');
    assert_eq!(buffer.as_str(), "hélülo");
    buffer.backspace();
    assert_eq!(buffer.as_str(), "héllo");
    assert_eq!(buffer.char_len(), 5);
}

#[test]
fn token_bounds_trim_and_clear() {
    let mut buffer = InputBuffer::from("  see @src/li");
    assert_eq!(buffer.current_token_bounds(), (6, 13));
    assert_eq!(buffer.trim(), "see @src/li");
    buffer.replace_char_range(20, 30, "b");
    assert_eq!(buffer.as_str(), "  see @src/lib");
    buffer.clear();
    assert!(buffer.is_empty());
    buffer.move_right();
    assert_eq!(buffer.cursor_line_col(), (0, 0));
}
