use split_watch::input::TextInput;

#[test]
fn new_puts_cursor_at_end() {
    let t = TextInput::new("héllo".to_string());
    assert_eq!(t.cursor, "héllo".len());
    assert_eq!(t.cursor_col(), 5);
}

#[test]
fn insert_and_backspace_round_trip() {
    let mut t = TextInput::new("ab".to_string());
    t.move_left();
    t.insert('é');
    assert_eq!(t.value, "aéb");
    assert_eq!(t.cursor_col(), 2);
    t.backspace();
    assert_eq!(t.value, "ab");
    assert_eq!(t.cursor_col(), 1);
    t.move_left();
    t.backspace();
    assert_eq!(t.value, "ab");
    t.move_right();
    t.move_right();
    t.move_right();
    assert_eq!(t.cursor_col(), 2);
}

#[test]
fn lines_and_vertical_moves() {
    let mut t = TextInput::new("one\nlonger\nx".to_string());
    assert_eq!(t.line_count(), 3);
    assert_eq!(t.line_at(1), "longer");
    assert_eq!(t.line_at(5), "");
    assert_eq!(t.cursor_line_col(), (2, 1));
    t.move_up();
    assert_eq!(t.cursor_line_col(), (1, 1));
    t.move_right();
    t.move_right();
    t.move_right();
    t.move_right();
    t.move_up();
    assert_eq!(t.cursor_line_col(), (0, 3));
    t.move_up();
    assert_eq!(t.cursor_line_col(), (0, 3));
    t.move_down();
    t.move_down();
    assert_eq!(t.cursor_line_col(), (2, 1));
    t.move_down();
    assert_eq!(t.cursor_line_col(), (2, 1));
    t.insert_newline();
    assert_eq!(t.line_count(), 4);
}
