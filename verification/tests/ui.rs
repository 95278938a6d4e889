use split_watch::geometry::Direction;
use split_watch::ui::{inset_rect, split_fill, split_lengths, split_percent};
use split_watch::actions::{ActionId, ModalActions};
use split_watch::geometry::Rect;
use split_watch::ui::{
    centered_rect, command_modal_rect, cursor_if_visible, delete_modal_rect, help_modal_rect,
    pane_rects, terminal_too_small, vars_modal_layout, vars_scroll_text, visible_var_start,
};

fn r(x: u16, y: u16, width: u16, height: u16) -> Rect {
    Rect { x, y, width, height }
}

#[test]
fn centres_and_clips() {
    assert_eq!(centered_rect(10, 4, r(0, 0, 20, 10)), r(5, 3, 10, 4));
    assert_eq!(centered_rect(30, 20, r(2, 2, 20, 10)), r(2, 2, 20, 10));
    assert_eq!(command_modal_rect(r(0, 0, 200, 50)), r(55, 15, 90, 20));
    assert_eq!(command_modal_rect(r(0, 0, 50, 30)), r(0, 5, 50, 20));
    assert_eq!(delete_modal_rect(r(0, 0, 100, 40)), r(23, 16, 54, 7));
    assert_eq!(help_modal_rect(r(0, 0, 100, 40)), r(12, 12, 76, 16));
}

#[test]
fn small_terminals_and_cursor() {
    assert!(terminal_too_small(r(0, 0, 23, 40)));
    assert!(terminal_too_small(r(0, 0, 80, 5)));
    assert!(!terminal_too_small(r(0, 0, 24, 6)));
    assert_eq!(cursor_if_visible(r(1, 1, 3, 3), 3, 3), Some((3, 3)));
    assert_eq!(cursor_if_visible(r(1, 1, 3, 3), 4, 3), None);
    assert_eq!(cursor_if_visible(r(1, 1, 0, 3), 1, 1), None);
}

#[test]
fn pane_cells_cover_each_pane_once() {
    let area = r(0, 0, 100, 40);
    let three = pane_rects(area, 3);
    assert_eq!(three.len(), 3);
    assert_eq!(three[0].1, r(0, 0, 50, 40));
    assert_eq!(three[1].1, r(50, 0, 50, 20));
    assert_eq!(three[2].1, r(50, 20, 50, 20));
    let five = pane_rects(area, 5);
    assert_eq!(five.iter().map(|p| p.0).collect::<Vec<_>>(), vec![0, 1, 2, 3, 4]);
    assert_eq!(five[3].1.y, 20);
    assert!(pane_rects(area, 0).is_empty());
}

#[test]
fn dialog_actions_hit_test() {
    let modal = r(0, 0, 40, 10);
    let a = ModalActions::confirm();
    let g = a.group_rect(modal).unwrap();
    assert_eq!(g, r(19, 9, 18, 1));
    assert_eq!(a.hit_test(modal, g.x + 1, 9), Some(ActionId::Cancel));
    assert_eq!(a.hit_test(modal, g.x + 7, 9), None);
    assert_eq!(a.hit_test(modal, g.x + 10, 9), Some(ActionId::Confirm));
    assert_eq!(a.hit_test(modal, g.x + 10, 8), None);
    assert_eq!(ModalActions::delete().hit_test(r(0, 0, 10, 3), 5, 2), None);
}

#[test]
fn vars_dialog_scrolls() {
    assert_eq!(visible_var_start(3, 2, 5), 0);
    assert_eq!(visible_var_start(10, 7, 3), 5);
    assert_eq!(vars_scroll_text(10, 5, 3), Some("6-8 / 10".to_string()));
    assert_eq!(vars_scroll_text(3, 0, 3), None);
    let (rects, area) = vars_modal_layout(r(0, 0, 100, 20), 10, 9);
    assert_eq!(rects.len(), 3);
    assert_eq!(rects[0].0, 7);
    assert_eq!(area.height, 15);
    assert_eq!(rects[1].1.y, area.y + 2 + 4 + 1);
}

#[test]
fn three_panes_round_halves_up() {
    let three = pane_rects(r(2, 1, 101, 41), 3);
    assert_eq!(three[0].1, r(2, 1, 51, 41));
    assert_eq!(three[1].1, r(53, 1, 50, 21));
    assert_eq!(three[2].1, r(53, 22, 50, 20));
}

#[test]
fn grid_cells_tile_their_rows() {
    for count in [1usize, 2, 4, 5, 6, 7, 10] {
        let area = r(3, 2, 97, 31);
        let cells = pane_rects(area, count);
        assert_eq!(cells.len(), count);
        for (k, (idx, cell)) in cells.iter().enumerate() {
            assert_eq!(*idx, k);
            assert!(cell.x >= area.x && cell.x + cell.width <= area.x + area.width);
            assert!(cell.y >= area.y && cell.y + cell.height <= area.y + area.height);
        }
        assert_eq!(pane_rects(area, count), cells);
    }
}

#[test]
fn dialog_parts_stack_from_the_top() {
    let inner = inset_rect(r(10, 5, 70, 9), 2, 2);
    assert_eq!(inner, r(12, 7, 66, 5));
    let parts = split_lengths(Direction::Vertical, &vec![1, 3, 1], inner);
    assert_eq!(parts, vec![r(12, 7, 66, 1), r(12, 8, 66, 3), r(12, 11, 66, 1)]);
    let bar = split_fill(Direction::Horizontal, 0, 30, r(0, 39, 100, 1));
    assert_eq!(bar, vec![r(0, 39, 70, 1), r(70, 39, 30, 1)]);
    let screen = split_fill(Direction::Vertical, 1, 1, r(0, 0, 80, 24));
    assert_eq!(screen, vec![r(0, 0, 80, 23), r(0, 23, 80, 1)]);
    let cols = split_percent(Direction::Horizontal, 60, r(4, 4, 65, 3));
    assert_eq!(cols, vec![r(4, 4, 39, 3), r(43, 4, 26, 3)]);
    assert_eq!(inset_rect(r(0, 0, 3, 1), 2, 2), r(2, 2, 0, 0));
}
