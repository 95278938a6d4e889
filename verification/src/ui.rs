//! Screen geometry of the dashboard: where panes and dialogs go, and which
//! cells the text cursor may be put in.
use vstd::prelude::*;
use crate::geometry::{
    engine_split, equal_ratios, extent, fill_split, fitting_lengths, percent_split, placed,
    rect_inner, rect_new, split_area, stacked, within, Constraint, Direction, Margin, Rect,
};
use crate::text::{concat, decimal, decimal_string};
use crate::keys::{grid_of, lemma_grid_of};
use crate::layout::grid_for_count;

verus! {

/// The narrowest terminal the dashboard draws in.
pub const MIN_TERMINAL_WIDTH: u16 = 24;

/// The lowest terminal the dashboard draws in.
pub const MIN_TERMINAL_HEIGHT: u16 = 6;

/// The rectangle's right and bottom edges lie within `u16`, as every
/// rectangle of the terminal does.
pub open spec fn fits(r: Rect) -> bool {
    r.x + r.width <= u16::MAX && r.y + r.height <= u16::MAX
}

/// A `width` by `height` rectangle centred in `area` (cut to fit it).
pub open spec fn centered(width: u16, height: u16, area: Rect) -> Rect {
    let w = if width < area.width {
        width
    } else {
        area.width
    };
    let h = if height < area.height {
        height
    } else {
        area.height
    };
    rect_new(
        (area.x + (area.width - w) / 2) as u16,
        (area.y + (area.height - h) / 2) as u16,
        w,
        h,
    )
}

/// A `width` by `height` rectangle centred in `area` (cut to fit it).
pub fn centered_rect(width: u16, height: u16, area: Rect) -> (r: Rect)
    requires
        fits(area),
    ensures
        r == centered(width, height, area),
        fits(r),
        area.x <= r.x,
        r.x + r.width <= area.x + area.width,
        area.y <= r.y,
        r.y + r.height <= area.y + area.height,
{
    let w = if width < area.width {
        width
    } else {
        area.width
    };
    let h = if height < area.height {
        height
    } else {
        area.height
    };
    let x = area.x + (area.width - w) / 2;
    let y = area.y + (area.height - h) / 2;
    Rect::new(x, y, w, h)
}

/// The terminal is too small to draw the dashboard in.
pub fn terminal_too_small(area: Rect) -> (b: bool)
    ensures
        b == (area.width < MIN_TERMINAL_WIDTH || area.height < MIN_TERMINAL_HEIGHT),
{
    area.width < MIN_TERMINAL_WIDTH || area.height < MIN_TERMINAL_HEIGHT
}

/// `(x, y)` when that cell lies inside `area`.
pub fn cursor_if_visible(area: Rect, x: u16, y: u16) -> (r: Option<(u16, u16)>)
    requires
        fits(area),
    ensures
        r == if area.width > 0 && area.height > 0 && area.x <= x < area.x + area.width && area.y
            <= y < area.y + area.height {
            Some((x, y))
        } else {
            None::<(u16, u16)>
        },
{
    if area.width == 0 || area.height == 0 {
        return None;
    }
    let max_x = area.x + (area.width - 1);
    let max_y = area.y + (area.height - 1);
    if x >= area.x && x <= max_x && y >= area.y && y <= max_y {
        Some((x, y))
    } else {
        None
    }
}

/// The command dialog's width: six cells narrower than the terminal,
/// between 60 and 90.
pub open spec fn command_modal_width(area: Rect) -> u16 {
    let w = if area.width > 6 {
        (area.width - 6) as u16
    } else {
        0u16
    };
    if w < 60 {
        60
    } else if w > 90 {
        90
    } else {
        w
    }
}

/// Where the command dialog goes.
pub fn command_modal_rect(area: Rect) -> (r: Rect)
    requires
        fits(area),
    ensures
        r == centered(command_modal_width(area), 20, area),
        fits(r),
{
    let w = area.width.saturating_sub(6);
    let width = if w < 60 {
        60
    } else if w > 90 {
        90
    } else {
        w
    };
    centered_rect(width, 20, area)
}

/// Where the clear-command question goes.
pub fn delete_modal_rect(area: Rect) -> (r: Rect)
    requires
        fits(area),
    ensures
        r == centered(54, 7, area),
        fits(r),
{
    centered_rect(54, 7, area)
}

/// Where the help goes.
pub fn help_modal_rect(area: Rect) -> (r: Rect)
    requires
        fits(area),
    ensures
        r == centered(76, 16, area),
        fits(r),
{
    centered_rect(76, 16, area)
}

/// `n` equal shares.
pub open spec fn equal_shares(n: usize) -> Seq<Constraint> {
    Seq::new(n as nat, |i: int| Constraint::Ratio(1, n as u32))
}

/// Two halves.
pub open spec fn halves() -> Seq<Constraint> {
    seq![Constraint::Percentage(50), Constraint::Percentage(50)]
}

/// The cells of three panes in `area`: the first takes the left half and
/// the others stack on the right.
pub open spec fn three_pane_rects(area: Rect) -> Seq<(usize, Rect)> {
    let cols = percent_split(Direction::Horizontal, 50, area);
    let right = percent_split(Direction::Vertical, 50, cols[1]);
    seq![(0usize, cols[0]), (1usize, right[0]), (2usize, right[1])]
}

/// The cells of the dashboard's panes in `area`: with three panes as
/// [`three_pane_rects`]; otherwise the panes fill the grid row by row, the
/// rows equal shares of `area` top to bottom and the cells equal shares of
/// their row left to right.
pub open spec fn dashboard_rects(area: Rect, count: usize) -> Seq<(usize, Rect)> {
    if count == 3 {
        three_pane_rects(area)
    } else {
        let g = grid_of(
            if count < 1 {
                1
            } else {
                count
            },
        );
        let rows = engine_split(Direction::Vertical, equal_shares(g.rows), area);
        Seq::new(
            count as nat,
            |k: int|
                (
                    k as usize,
                    engine_split(
                        Direction::Horizontal,
                        equal_shares(g.cols),
                        rows[k / (g.cols as int)],
                    )[k % (g.cols as int)],
                ),
        )
    }
}

fn shares(n: usize) -> (v: Vec<Constraint>)
    ensures
        v@ == equal_shares(n),
{
    let mut v: Vec<Constraint> = Vec::new();
    let mut i: usize = 0;
    while i < n
        invariant
            i <= n,
            v@ == Seq::new(i as nat, |j: int| Constraint::Ratio(1, n as u32)),
        decreases n - i,
    {
        v.push(Constraint::Ratio(1, n as u32));
        i += 1;
        assert(v@ =~= Seq::new(i as nat, |j: int| Constraint::Ratio(1, n as u32)));
    }
    v
}

/// `area` with `dx` cells taken off its left and right and `dy` off its top
/// and bottom (a side too short for that is left empty).
pub open spec fn inset(area: Rect, dx: u16, dy: u16) -> Rect {
    Rect {
        x: (area.x + dx) as u16,
        y: (area.y + dy) as u16,
        width: if area.width >= 2 * dx {
            (area.width - 2 * dx) as u16
        } else {
            0
        },
        height: if area.height >= 2 * dy {
            (area.height - 2 * dy) as u16
        } else {
            0
        },
    }
}

/// The inside of a dialog (see [`inset`]).
pub fn inset_rect(area: Rect, dx: u16, dy: u16) -> (r: Rect)
    requires
        area.x + dx <= u16::MAX,
        area.y + dy <= u16::MAX,
    ensures
        r == inset(area, dx, dy),
{
    let w: u32 = 2 * dx as u32;
    let h: u32 = 2 * dy as u32;
    Rect {
        x: area.x + dx,
        y: area.y + dy,
        width: if area.width as u32 >= w {
            (area.width as u32 - w) as u16
        } else {
            0
        },
        height: if area.height as u32 >= h {
            (area.height as u32 - h) as u16
        } else {
            0
        },
    }
}

/// Each of `ls` as a `Length` constraint.
pub open spec fn as_lengths(ls: Seq<u16>) -> Seq<Constraint> {
    Seq::new(ls.len(), |i: int| Constraint::Length(ls[i]))
}

/// `area` cut along `direction` into parts `lengths` long, one after the
/// other from its start when they fit (see [`stacked`]).
pub fn split_lengths(direction: Direction, lengths: &Vec<u16>, area: Rect) -> (r: Vec<Rect>)
    ensures
        r@.len() == lengths@.len(),
        forall|i: int| 0 <= i < r@.len() ==> placed(direction, #[trigger] r@[i], area),
        fitting_lengths(direction, as_lengths(lengths@), area) ==> r@ == stacked(
            direction,
            as_lengths(lengths@),
            area,
        ),
{
    let mut cs: Vec<Constraint> = Vec::new();
    let mut i: usize = 0;
    while i < lengths.len()
        invariant
            i <= lengths@.len(),
            cs@ == as_lengths(lengths@.take(i as int)),
        decreases lengths@.len() - i,
    {
        cs.push(Constraint::Length(lengths[i]));
        i += 1;
        assert(cs@ =~= as_lengths(lengths@.take(i as int)));
    }
    assert(lengths@.take(i as int) =~= lengths@);
    split_area(direction, &cs, area)
}

/// `area` cut along `direction` into a part of at least `min` cells that
/// takes what is left and a last part `len` cells long (see
/// [`fill_split`]).
pub fn split_fill(direction: Direction, min: u16, len: u16, area: Rect) -> (r: Vec<Rect>)
    ensures
        r@.len() == 2,
        forall|i: int| 0 <= i < r@.len() ==> placed(direction, #[trigger] r@[i], area),
        min + len <= extent(direction, area) ==> r@ == fill_split(direction, len as int, area),
{
    let mut cs: Vec<Constraint> = Vec::new();
    cs.push(Constraint::Min(min));
    cs.push(Constraint::Length(len));
    assert(cs@.len() == 2 && cs@[0] == Constraint::Min(min) && cs@[1] == Constraint::Length(len));
    split_area(direction, &cs, area)
}

/// `area` cut along `direction` in two, the first part `percent` of it (see
/// [`percent_split`]).
pub fn split_percent(direction: Direction, percent: u16, area: Rect) -> (r: Vec<Rect>)
    requires
        percent <= 100,
    ensures
        r@ == percent_split(direction, percent, area),
{
    let mut cs: Vec<Constraint> = Vec::new();
    cs.push(Constraint::Percentage(percent));
    cs.push(Constraint::Percentage(100 - percent));
    assert(cs@.len() == 2 && cs@[0] == Constraint::Percentage(percent));
    split_area(direction, &cs, area)
}

proof fn lemma_equal_shares(n: usize)
    requires
        n >= 1,
    ensures
        equal_ratios(equal_shares(n)),
{
}

/// Where each of `count` panes goes in `area` (see [`dashboard_rects`]);
/// every cell lies within `area`.
pub fn pane_rects(area: Rect, count: usize) -> (r: Vec<(usize, Rect)>)
    ensures
        r@ == dashboard_rects(area, count),
        forall|k: int| 0 <= k < r@.len() ==> within((#[trigger] r@[k]).1, area),
{
    if count == 3 {
        let mut hv: Vec<Constraint> = Vec::new();
        hv.push(Constraint::Percentage(50));
        hv.push(Constraint::Percentage(50));
        assert(hv@ =~= halves());
        let cols = split_area(Direction::Horizontal, &hv, area);
        let right = split_area(Direction::Vertical, &hv, cols[1]);
        let mut r: Vec<(usize, Rect)> = Vec::new();
        r.push((0, cols[0]));
        r.push((1, right[0]));
        r.push((2, right[1]));
        assert(placed(Direction::Horizontal, cols@[0], area));
        assert(placed(Direction::Horizontal, cols@[1], area));
        assert(placed(Direction::Vertical, right@[0], cols@[1]));
        assert(placed(Direction::Vertical, right@[1], cols@[1]));
        assert(r@ =~= dashboard_rects(area, count));
        return r;
    }
    let n = if count < 1 {
        1
    } else {
        count
    };
    let g = grid_for_count(n);
    proof {
        lemma_grid_of(n, g);
        lemma_grid_covers(n, g);
        lemma_equal_shares(g.rows);
        lemma_equal_shares(g.cols);
    }
    let rows = split_area(Direction::Vertical, &shares(g.rows), area);
    let col_shares = shares(g.cols);
    let mut r: Vec<(usize, Rect)> = Vec::new();
    let mut row: usize = 0;
    let row_limit: usize = if count == 0 {
        0
    } else {
        (count - 1) / g.cols + 1
    };
    proof {
        assert forall|q: int| 0 <= q implies (q < row_limit) == (#[trigger] (q * g.cols) < count) by {
            if count > 0 {
                assert((q < (count - 1) / (g.cols as int) + 1) == (q * g.cols < count))
                    by (nonlinear_arith)
                    requires
                        g.cols >= 1,
                        count >= 1,
                        q >= 0,
                ;
            } else {
                assert(q * g.cols >= 0) by (nonlinear_arith)
                    requires
                        g.cols >= 1,
                        q >= 0,
                ;
            }
        }
    }
    while row < g.rows && row < row_limit
        invariant
            forall|q: int| 0 <= q ==> (q < row_limit) == (#[trigger] (q * g.cols) < count),
            row <= g.rows,
            g == grid_of(n),
            n == (if count < 1 {
                1
            } else {
                count
            }),
            g.cols >= 1,
            g.rows >= 1,
            g.rows * g.cols >= count,
            rows@ == engine_split(Direction::Vertical, equal_shares(g.rows), area),
            rows@.len() == g.rows,
            forall|i: int| 0 <= i < rows@.len() ==> placed(Direction::Vertical, #[trigger] rows@[i], area),
            col_shares@ == equal_shares(g.cols),
            count != 3,
            r@.len() == if row * g.cols <= count {
                row * g.cols
            } else {
                count as int
            },
            forall|k: int| 0 <= k < r@.len() ==> #[trigger] r@[k] == dashboard_rects(area, count)[k],
            forall|k: int| 0 <= k < r@.len() ==> within((#[trigger] r@[k]).1, area),
        decreases g.rows - row,
    {
        let cells = split_area(Direction::Horizontal, &col_shares, rows[row]);
        let mut col: usize = 0;
        let ghost base = (row * g.cols) as int;
        assert(base < count) by {
            assert((row as int) < row_limit);
        }
        let base_idx: usize = row * g.cols;
        assert(placed(Direction::Vertical, rows@[row as int], area));
        while col < g.cols && col < count - base_idx
            invariant
                col <= g.cols,
                row < g.rows,
                g == grid_of(n),
                n == (if count < 1 {
                    1
                } else {
                    count
                }),
                g.cols >= 1,
                base == row * g.cols,
                base == base_idx,
                base < count,
                rows@ == engine_split(Direction::Vertical, equal_shares(g.rows), area),
                rows@.len() == g.rows,
                placed(Direction::Vertical, rows@[row as int], area),
                cells@ == engine_split(Direction::Horizontal, equal_shares(g.cols), rows@[row as int]),
                cells@.len() == g.cols,
                forall|c: int| 0 <= c < cells@.len() ==> placed(
                    Direction::Horizontal,
                    #[trigger] cells@[c],
                    rows@[row as int],
                ),
                count != 3,
                r@.len() == base + col,
                r@.len() <= count,
                forall|k: int| 0 <= k < r@.len() ==> #[trigger] r@[k] == dashboard_rects(area, count)[k],
                forall|k: int| 0 <= k < r@.len() ==> within((#[trigger] r@[k]).1, area),
            decreases g.cols - col,
        {
            let idx = base_idx + col;
            proof {
                let k = idx as int;
                assert(k / (g.cols as int) == row as int) by (nonlinear_arith)
                    requires
                        k == row * g.cols + col,
                        0 <= col < g.cols,
                ;
                assert(k % (g.cols as int) == col as int) by (nonlinear_arith)
                    requires
                        k == row * g.cols + col,
                        0 <= col < g.cols,
                ;
            }
            assert(placed(Direction::Horizontal, cells@[col as int], rows@[row as int]));
            r.push((idx, cells[col]));
            proof {
                assert((idx as int) < count);
                let gg = grid_of(
                    if count < 1 {
                        1
                    } else {
                        count
                    },
                );
                assert(gg == g);
                let rws = engine_split(Direction::Vertical, equal_shares(gg.rows), area);
                assert(rws == rows@);
                let cell = engine_split(
                    Direction::Horizontal,
                    equal_shares(gg.cols),
                    rws[(idx as int) / (gg.cols as int)],
                )[(idx as int) % (gg.cols as int)];
                assert(cell == cells@[col as int]);
                assert(dashboard_rects(area, count)[idx as int] == (idx, cell));
            }
            assert(r@[r@.len() - 1] == dashboard_rects(area, count)[idx as int]);
            col += 1;
        }
        assert((row + 1) * g.cols == base + g.cols) by (nonlinear_arith)
            requires
                base == row * g.cols,
        ;
        row += 1;
    }
    proof {
        if row == g.rows {
            assert(row * g.cols >= count);
        }
        assert(r@.len() == count);
    }
    assert(r@ =~= dashboard_rects(area, count));
    r
}

pub(crate) proof fn lemma_grid_covers(count: usize, g: crate::layout::Grid)
    requires
        crate::layout::grid_spec(count, g),
        count >= 1,
    ensures
        g.rows * g.cols >= count,
{
    if count > 6 {
        assert(g.rows * g.cols >= count) by (nonlinear_arith)
            requires
                g.cols >= 1,
                g.rows == (count + g.cols - 1) / (g.cols as int),
        ;
    }
}

/// The first of `total` variable fields shown when `visible` fit and field
/// `focus` has the focus.
pub open spec fn var_start(total: int, focus: int, visible: int) -> int {
    if total <= visible {
        0
    } else if focus >= visible {
        focus - visible + 1
    } else {
        0
    }
}

/// The first variable field shown (see [`var_start`]).
pub fn visible_var_start(total: usize, focus: usize, visible: usize) -> (r: usize)
    requires
        visible > 0 || focus < usize::MAX,
    ensures
        r == var_start(total as int, focus as int, visible as int),
{
    if total <= visible {
        0
    } else if focus >= visible {
        focus - visible + 1
    } else {
        0
    }
}

/// How many variable fields the dialog shows: all of them (at least one
/// row) up to what fits in the terminal, four rows each.
pub open spec fn vars_visible(frame: Rect, count: int) -> int {
    let h = if frame.height >= 4 {
        frame.height - 4
    } else {
        0
    };
    let mh = if h > 12 {
        h
    } else {
        12
    };
    let mv = (mh - 3) / 4;
    let mv = if mv > 1 {
        mv
    } else {
        1
    };
    let c = if count > 1 {
        count
    } else {
        1
    };
    if c < mv {
        c
    } else {
        mv
    }
}

/// The variables dialog: the cells of the fields shown, by field index, and
/// the dialog's rectangle.
pub open spec fn vars_layout(frame: Rect, count: int, focus: int) -> (Seq<(usize, Rect)>, Rect) {
    let v = vars_visible(frame, count);
    let area = centered(76, (3 + v * 4) as u16, frame);
    let inner = rect_inner(area, Margin { horizontal: 3, vertical: 2 });
    let st = var_start(count, focus, v);
    let n = if st < count {
        if count - st < v {
            count - st
        } else {
            v
        }
    } else {
        0
    };
    (
        Seq::new(
            n as nat,
            |o: int| ((st + o) as usize, rect_new(inner.x, (inner.y + o * 4 + 1) as u16, inner.width, 3)),
        ),
        area,
    )
}

/// Lays out the variables dialog (see [`vars_layout`]).
pub fn vars_modal_layout(frame_area: Rect, field_count: usize, focus: usize) -> (r: (
    Vec<(usize, Rect)>,
    Rect,
))
    requires
        fits(frame_area),
        frame_area.y + 16 <= u16::MAX,
    ensures
        (r.0@, r.1) == vars_layout(frame_area, field_count as int, focus as int),
{
    let h = frame_area.height.saturating_sub(4);
    let max_height: u16 = if h > 12 {
        h
    } else {
        12
    };
    let mv = (max_height - 3) / 4;
    let max_visible: usize = if mv > 1 {
        mv as usize
    } else {
        1
    };
    let c = if field_count > 1 {
        field_count
    } else {
        1
    };
    let visible = if c < max_visible {
        c
    } else {
        max_visible
    };
    let modal_height: u16 = 3 + (visible as u16) * 4;
    let area = centered_rect(76, modal_height, frame_area);
    let inner = area.inner(Margin { horizontal: 3, vertical: 2 });
    let start = visible_var_start(field_count, focus, visible);
    let ghost n: int = if start < field_count {
        if field_count - start < visible {
            field_count - start
        } else {
            visible as int
        }
    } else {
        0
    };
    let mut rects: Vec<(usize, Rect)> = Vec::new();
    let mut offset: usize = 0;
    proof {
        assert(modal_height <= max_height);
        if area.width < 6 || area.height < 4 {
            assert(inner.y == 0);
        } else {
            assert(inner.y == area.y + 2);
            if modal_height > frame_area.height {
                assert(max_height == 12);
                assert(area.y == frame_area.y);
            }
        }
        assert(inner.y + 4 * (visible - 1) + 1 <= u16::MAX);
    }
    while offset < visible && offset < field_count && start < field_count - offset
        invariant
            offset <= visible,
            visible <= 16383,
            visible >= 1,
            inner.y + 4 * (visible - 1) + 1 <= u16::MAX,
            modal_height == 3 + visible * 4,
            area == centered(76, modal_height, frame_area),
            inner == rect_inner(area, Margin { horizontal: 3, vertical: 2 }),
            fits(frame_area),
            frame_area.y + 16 <= u16::MAX,
            n == (if start < field_count {
                if field_count - start < visible {
                    field_count - start
                } else {
                    visible as int
                }
            } else {
                0
            }),
            offset <= n,
            rects@.len() == offset,
            forall|o: int|
                0 <= o < offset ==> #[trigger] rects@[o] == ((start + o) as usize, rect_new(
                    inner.x,
                    (inner.y + o * 4 + 1) as u16,
                    inner.width,
                    3,
                )),
        decreases visible - offset,
    {
        let idx = start + offset;
        let label_y = inner.y + (offset as u16) * 4;
        rects.push((idx, Rect::new(inner.x, label_y + 1, inner.width, 3)));
        offset += 1;
    }
    proof {
        assert(offset == n);
        assert(rects@ =~= vars_layout(frame_area, field_count as int, focus as int).0);
    }
    (rects, area)
}

/// The position shown when not every variable field fits: `first-last /
/// total`.
pub open spec fn scroll_text(total: int, start: int, visible: int) -> Option<Seq<char>> {
    if total > visible {
        Some(
            decimal((start + 1) as nat) + "-"@ + decimal((start + visible) as nat) + " / "@
                + decimal(total as nat),
        )
    } else {
        None
    }
}

/// The position shown when not every variable field fits (see
/// [`scroll_text`]).
pub fn vars_scroll_text(total: usize, start: usize, visible: usize) -> (r: Option<String>)
    requires
        start + visible + 1 <= usize::MAX,
    ensures
        match (r, scroll_text(total as int, start as int, visible as int)) {
            (Some(a), Some(b)) => a@ == b,
            (None, None) => true,
            _ => false,
        },
{
    if total > visible {
        let a = decimal_string((start + 1) as u64);
        let b = decimal_string((start + visible) as u64);
        let t = decimal_string(total as u64);
        let s1 = concat(a.as_str(), "-");
        let s2 = concat(s1.as_str(), b.as_str());
        let s3 = concat(s2.as_str(), " / ");
        Some(concat(s3.as_str(), t.as_str()))
    } else {
        None
    }
}

} // verus!
