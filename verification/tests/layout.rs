use split_watch::geometry::Rect;
use split_watch::layout::{
    adjust_split_ratio_for_pane, can_split_rect, contains_pane, default_layout_tree,
    grid_for_count, layout_meets_min_pane_size, pane_rects, remove_pane, shift_pane_indices,
    split_pane, validate_layout_tree, Grid, LayoutNode, PresetLayout, SplitAxis, MIN_PANE_HEIGHT,
    MIN_PANE_WIDTH,
};

fn leaf(pane: usize) -> LayoutNode {
    LayoutNode::Leaf { pane }
}

fn split_of(axis: SplitAxis, ratio_percent: u16, first: LayoutNode, second: LayoutNode) -> LayoutNode {
    LayoutNode::Split { axis, ratio_percent, first: Box::new(first), second: Box::new(second) }
}

#[test]
fn uses_expected_fixed_layouts() {
    assert_eq!(grid_for_count(1), Grid { rows: 1, cols: 1 });
    assert_eq!(grid_for_count(2), Grid { rows: 1, cols: 2 });
    assert_eq!(grid_for_count(3), Grid { rows: 2, cols: 2 });
    assert_eq!(grid_for_count(4), Grid { rows: 2, cols: 2 });
    assert_eq!(grid_for_count(5), Grid { rows: 2, cols: 3 });
    assert_eq!(grid_for_count(6), Grid { rows: 2, cols: 3 });
}

#[test]
fn uses_roughly_square_layout_for_larger_counts() {
    assert_eq!(grid_for_count(7), Grid { rows: 3, cols: 3 });
    assert_eq!(grid_for_count(10), Grid { rows: 3, cols: 4 });
}

#[test]
fn builds_three_pane_main_right_stack() {
    let layout = default_layout_tree(3);
    match layout {
        LayoutNode::Split { axis: SplitAxis::Vertical, ratio_percent: 50, .. } => {}
        _ => panic!("expected vertical split root for 3-pane layout"),
    }
}

#[test]
fn collapses_tree_on_remove() {
    let layout = split_of(SplitAxis::Vertical, 50, leaf(0), leaf(1));
    let collapsed = remove_pane(layout, 1).unwrap();
    assert_eq!(collapsed, LayoutNode::Leaf { pane: 0 });
}

#[test]
fn computes_rects() {
    let rects = pane_rects(Rect::new(0, 0, 100, 40), &default_layout_tree(2));
    assert_eq!(rects.len(), 2);
}

#[test]
fn respects_split_ratio_in_rects() {
    let layout = split_of(SplitAxis::Vertical, 70, leaf(0), leaf(1));
    let rects = pane_rects(Rect::new(0, 0, 100, 20), &layout);
    assert_eq!(rects[0].1.width, 70);
    assert_eq!(rects[1].1.width, 30);
}

#[test]
fn adjusts_nearest_matching_split_for_focused_pane() {
    let mut layout = default_layout_tree(3);
    assert!(adjust_split_ratio_for_pane(&mut layout, 0, SplitAxis::Vertical, 5));
    match layout {
        LayoutNode::Split { ratio_percent, .. } => assert_eq!(ratio_percent, 55),
        _ => panic!("expected split root"),
    }
}

#[test]
fn blocks_split_when_rect_is_below_minimum() {
    assert!(!can_split_rect(
        Rect::new(0, 0, MIN_PANE_WIDTH * 2 - 1, MIN_PANE_HEIGHT),
        SplitAxis::Vertical
    ));
    assert!(!can_split_rect(
        Rect::new(0, 0, MIN_PANE_WIDTH, MIN_PANE_HEIGHT * 2 - 1),
        SplitAxis::Horizontal
    ));
}

#[test]
fn detects_layouts_that_violate_minimum_pane_size() {
    let layout = split_of(SplitAxis::Vertical, 80, leaf(0), leaf(1));
    assert!(!layout_meets_min_pane_size(
        Rect::new(0, 0, MIN_PANE_WIDTH * 2, MIN_PANE_HEIGHT),
        &layout
    ));
}

#[test]
fn default_trees_are_valid_for_each_count() {
    for n in 1..20 {
        assert!(validate_layout_tree(&default_layout_tree(n), n));
    }
    assert!(validate_layout_tree(&default_layout_tree(0), 1));
}

#[test]
fn validation_rejects_duplicates_and_gaps() {
    assert!(!validate_layout_tree(&split_of(SplitAxis::Vertical, 50, leaf(0), leaf(0)), 2));
    assert!(!validate_layout_tree(&split_of(SplitAxis::Vertical, 50, leaf(0), leaf(2)), 2));
    assert!(!validate_layout_tree(&leaf(0), 2));
    assert!(validate_layout_tree(&split_of(SplitAxis::Horizontal, 30, leaf(1), leaf(0)), 2));
}

#[test]
fn split_then_remove_restores_leaf() {
    let mut layout = leaf(0);
    assert!(split_pane(&mut layout, 0, SplitAxis::Horizontal, 1));
    assert_eq!(layout, split_of(SplitAxis::Horizontal, 50, leaf(0), leaf(1)));
    assert!(contains_pane(&layout, 1));
    assert!(!split_pane(&mut layout, 7, SplitAxis::Horizontal, 8));
    assert_eq!(remove_pane(layout, 1), Some(leaf(0)));
}

#[test]
fn adjust_clamps_and_reports_no_change() {
    let mut layout = split_of(SplitAxis::Vertical, 78, leaf(0), leaf(1));
    assert!(adjust_split_ratio_for_pane(&mut layout, 0, SplitAxis::Vertical, 5));
    assert_eq!(layout, split_of(SplitAxis::Vertical, 80, leaf(0), leaf(1)));
    assert!(!adjust_split_ratio_for_pane(&mut layout, 0, SplitAxis::Vertical, 5));
    assert!(adjust_split_ratio_for_pane(&mut layout, 1, SplitAxis::Vertical, 5));
    assert_eq!(layout, split_of(SplitAxis::Vertical, 75, leaf(0), leaf(1)));
    assert!(!adjust_split_ratio_for_pane(&mut layout, 0, SplitAxis::Horizontal, 5));
}

#[test]
fn shifts_indices_at_or_above() {
    let mut layout = split_of(SplitAxis::Vertical, 50, leaf(0), leaf(3));
    shift_pane_indices(&mut layout, 1, -1);
    assert_eq!(layout, split_of(SplitAxis::Vertical, 50, leaf(0), leaf(2)));
}

#[test]
fn named_layouts_resolve() {
    assert_eq!(PresetLayout::Named("grid".to_string()).into_tree(2), Some(default_layout_tree(2)));
    assert_eq!(
        PresetLayout::Named("main-right-stack".to_string()).into_tree(3),
        Some(default_layout_tree(3))
    );
    assert_eq!(PresetLayout::Named("spiral".to_string()).into_tree(3), None);
    assert_eq!(PresetLayout::from_tree(leaf(0)).into_tree(5), Some(leaf(0)));
}

#[test]
fn rects_come_in_pane_order() {
    let layout = split_of(SplitAxis::Vertical, 50, leaf(1), leaf(0));
    let rects = pane_rects(Rect::new(0, 0, 100, 20), &layout);
    assert_eq!(rects[0].0, 0);
    assert_eq!(rects[1].0, 1);
    assert_eq!(rects[0].1.x, 50);
}

#[test]
fn removing_a_split_off_pane_restores_the_layout() {
    for count in 1..=7 {
        let before = default_layout_tree(count);
        for target in 0..count {
            let mut layout = before.clone();
            assert!(split_pane(&mut layout, target, SplitAxis::Vertical, 40));
            assert_ne!(layout, before);
            assert_eq!(remove_pane(layout, 40), Some(before.clone()));
        }
    }
}

#[test]
fn resizing_keeps_every_pane() {
    for count in 1..=7 {
        for target in 0..count {
            for axis in [SplitAxis::Vertical, SplitAxis::Horizontal] {
                let mut layout = default_layout_tree(count);
                adjust_split_ratio_for_pane(&mut layout, target, axis, 25);
                assert!(validate_layout_tree(&layout, count));
                for pane in 0..count {
                    assert!(contains_pane(&layout, pane));
                }
            }
        }
    }
}

#[test]
fn resizing_moves_the_innermost_matching_split() {
    let mut layout = split_of(
        SplitAxis::Vertical,
        50,
        split_of(SplitAxis::Vertical, 50, leaf(0), leaf(1)),
        leaf(2),
    );
    assert!(adjust_split_ratio_for_pane(&mut layout, 1, SplitAxis::Vertical, 5));
    assert_eq!(
        layout,
        split_of(
            SplitAxis::Vertical,
            50,
            split_of(SplitAxis::Vertical, 45, leaf(0), leaf(1)),
            leaf(2),
        )
    );
    assert!(adjust_split_ratio_for_pane(&mut layout, 2, SplitAxis::Vertical, 5));
    assert_eq!(
        layout,
        split_of(
            SplitAxis::Vertical,
            45,
            split_of(SplitAxis::Vertical, 45, leaf(0), leaf(1)),
            leaf(2),
        )
    );
}

#[test]
fn splits_round_the_first_part_to_the_nearest_cell() {
    for width in [0u16, 1, 2, 3, 7, 33, 100, 101, 257] {
        for ratio in [20u16, 33, 50, 55, 67, 80] {
            let layout = split_of(SplitAxis::Vertical, ratio, leaf(0), leaf(1));
            let rects = pane_rects(Rect::new(3, 2, width, 9), &layout);
            let first = ((width as u32 * ratio as u32 + 50) / 100) as u16;
            assert_eq!(rects[0].1, Rect::new(3, 2, first, 9), "{width} {ratio}");
            assert_eq!(rects[1].1, Rect::new(3 + first, 2, width - first, 9), "{width} {ratio}");
            let layout = split_of(SplitAxis::Horizontal, ratio, leaf(0), leaf(1));
            let rects = pane_rects(Rect::new(1, 4, 9, width), &layout);
            assert_eq!(rects[0].1, Rect::new(1, 4, 9, first));
            assert_eq!(rects[1].1, Rect::new(1, 4 + first, 9, width - first));
        }
    }
}
