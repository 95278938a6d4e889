use split_watch::fields::{
    input_cursor_x, input_cursor_x_for_line, text_area_cursor_position, text_area_fails, truncate,
    visible_slice, visible_slice_panics, visible_text_area,
};
use split_watch::geometry::Rect;
use split_watch::input::TextInput;

#[test]
fn truncates_with_ellipsis() {
    assert_eq!(truncate("", 5), "");
    assert_eq!(truncate("abc", 0), "");
    assert_eq!(truncate("abc", 3), "abc");
    assert_eq!(truncate("abcdef", 4), "abc…");
}

#[test]
fn slices_around_the_cursor() {
    assert_eq!(visible_slice("abc", 1, 5), "abc");
    assert_eq!(visible_slice("abcdefgh", 0, 4), "abc…");
    assert_eq!(visible_slice("abcdefgh", 8, 4), "…fgh");
    assert_eq!(visible_slice("abcdefgh", 5, 4), "…de…");
    assert_eq!(visible_slice("abc", 1, 0), "");
    assert!(visible_slice_panics("éééééé", 6, 3));
    assert!(!visible_slice_panics("abcdef", 6, 3));
}

#[test]
fn cursor_columns() {
    let t = TextInput::new("abcdefgh".to_string());
    assert_eq!(input_cursor_x(&t, 4), 3);
    assert_eq!(input_cursor_x(&t, 20), 8);
    assert_eq!(input_cursor_x(&t, 0), 0);
    assert_eq!(input_cursor_x_for_line("abc", 3, 3), 2);
    assert_eq!(input_cursor_x_for_line("abcdef", 2, 3), 2);
}

#[test]
fn text_area_shows_lines_around_cursor() {
    let t = TextInput::new("l1\nl2\nl3\nline4".to_string());
    assert!(!text_area_fails(&t, 3, 2));
    assert_eq!(visible_text_area(&t, 3, 2), "l3\n…e4");
    assert_eq!(visible_text_area(&t, 10, 6), "l1\nl2\nl3\nline4\n\n");
    assert_eq!(visible_text_area(&t, 0, 2), "");
    let area = Rect { x: 2, y: 3, width: 8, height: 4 };
    assert_eq!(text_area_cursor_position(area, &t), (2 + 1 + 3, 3 + 1 + 1));
}
