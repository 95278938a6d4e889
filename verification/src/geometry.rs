//! Screen rectangles, and the terminal layout engine that divides them.
use vstd::prelude::*;
use ratatui::layout::{Constraint as EngineConstraint, Direction as EngineDirection, Layout, Rect as EngineRect};

verus! {

/// A rectangle of terminal cells.
#[derive(Debug, Clone, Copy, PartialEq, Eq, Structural)]
pub struct Rect {
    pub x: u16,
    pub y: u16,
    pub width: u16,
    pub height: u16,
}

/// Margins taken off each side of a rectangle.
#[derive(Debug, Clone, Copy, PartialEq, Eq, Structural)]
pub struct Margin {
    pub horizontal: u16,
    pub vertical: u16,
}

/// `a - b`, or 0 when `b > a`.
pub open spec fn sat_sub(a: int, b: int) -> int {
    if a > b {
        a - b
    } else {
        0
    }
}

/// `a + b`, capped at `u16::MAX`.
pub open spec fn sat_add16(a: int, b: int) -> int {
    if a + b > u16::MAX {
        u16::MAX as int
    } else {
        a + b
    }
}

/// The rectangle `Rect::new(x, y, width, height)` gives: the size is cut so
/// that the right and bottom edges stay within `u16`.
pub open spec fn rect_new(x: u16, y: u16, width: u16, height: u16) -> Rect {
    Rect {
        x,
        y,
        width: if width > u16::MAX - x {
            (u16::MAX - x) as u16
        } else {
            width
        },
        height: if height > u16::MAX - y {
            (u16::MAX - y) as u16
        } else {
            height
        },
    }
}

/// The rectangle inside `r` with `m` taken off each side, or the empty
/// rectangle at the origin when the margins do not fit.
pub open spec fn rect_inner(r: Rect, m: Margin) -> Rect {
    let dh = if 2 * m.horizontal > u16::MAX {
        u16::MAX as int
    } else {
        2 * m.horizontal
    };
    let dv = if 2 * m.vertical > u16::MAX {
        u16::MAX as int
    } else {
        2 * m.vertical
    };
    if r.width < dh || r.height < dv {
        Rect { x: 0, y: 0, width: 0, height: 0 }
    } else {
        Rect {
            x: sat_add16(r.x as int, m.horizontal as int) as u16,
            y: sat_add16(r.y as int, m.vertical as int) as u16,
            width: (r.width - dh) as u16,
            height: (r.height - dv) as u16,
        }
    }
}

impl Rect {
    /// A rectangle at `(x, y)`; the size is cut so the edges stay within `u16`.
    pub fn new(x: u16, y: u16, width: u16, height: u16) -> (r: Rect)
        ensures
            r == rect_new(x, y, width, height),
    {
        let max_width = u16::MAX - x;
        let max_height = u16::MAX - y;
        Rect {
            x,
            y,
            width: if width > max_width {
                max_width
            } else {
                width
            },
            height: if height > max_height {
                max_height
            } else {
                height
            },
        }
    }

    /// The rectangle inside with `margin` taken off each side.
    pub fn inner(self, margin: Margin) -> (r: Rect)
        ensures
            r == rect_inner(self, margin),
    {
        let dh: u16 = if margin.horizontal > u16::MAX / 2 {
            u16::MAX
        } else {
            margin.horizontal * 2
        };
        let dv: u16 = if margin.vertical > u16::MAX / 2 {
            u16::MAX
        } else {
            margin.vertical * 2
        };
        if self.width < dh || self.height < dv {
            Rect { x: 0, y: 0, width: 0, height: 0 }
        } else {
            Rect {
                x: self.x.saturating_add(margin.horizontal),
                y: self.y.saturating_add(margin.vertical),
                width: self.width - dh,
                height: self.height - dv,
            }
        }
    }
}

/// The direction in which the layout engine lays out the parts of an area.
#[derive(Debug, Clone, Copy, PartialEq, Eq, Structural)]
pub enum Direction {
    Horizontal,
    Vertical,
}

/// How much of an area a part asks for.
#[derive(Debug, Clone, Copy, PartialEq, Eq, Structural)]
pub enum Constraint {
    Percentage(u16),
    Ratio(u32, u32),
    Length(u16),
    Min(u16),
}

/// Two percentages that add up to 100.
pub open spec fn complementary(cs: Seq<Constraint>) -> bool {
    &&& cs.len() == 2
    &&& cs[0] matches Constraint::Percentage(a)
    &&& cs[1] matches Constraint::Percentage(b)
    &&& a + b == 100
}

/// The percentage the first of a list of constraints asks for.
pub open spec fn first_percent(cs: Seq<Constraint>) -> u16 {
    match cs[0] {
        Constraint::Percentage(a) => a,
        _ => 0,
    }
}

/// One or more equal shares: `Ratio(1, n)`, `n` times.
pub open spec fn equal_ratios(cs: Seq<Constraint>) -> bool {
    &&& cs.len() >= 1
    &&& forall|i: int| 0 <= i < cs.len() ==> #[trigger] cs[i] == Constraint::Ratio(1, cs.len() as u32)
}

/// The length of `area` along `direction`, as far as the terminal's
/// coordinates reach.
pub open spec fn extent(direction: Direction, area: Rect) -> int {
    match direction {
        Direction::Horizontal => if area.x + area.width > u16::MAX {
            u16::MAX - area.x
        } else {
            area.width as int
        },
        Direction::Vertical => if area.y + area.height > u16::MAX {
            u16::MAX - area.y
        } else {
            area.height as int
        },
    }
}

/// The piece of `area` that starts `from` cells into it along `direction`
/// and is `len` cells long, keeping the area's other extent.
pub open spec fn piece(direction: Direction, area: Rect, from: int, len: int) -> Rect {
    match direction {
        Direction::Horizontal => Rect {
            x: (area.x + from) as u16,
            y: area.y,
            width: len as u16,
            height: area.height,
        },
        Direction::Vertical => Rect {
            x: area.x,
            y: (area.y + from) as u16,
            width: area.width,
            height: len as u16,
        },
    }
}

/// The length the `i`-th of `cs` asks for, when it is a `Length`.
pub open spec fn length_at(cs: Seq<Constraint>, i: int) -> int {
    match cs[i] {
        Constraint::Length(l) => l as int,
        _ => 0,
    }
}

/// The lengths the first `n` of `cs` ask for, added up.
pub open spec fn length_sum(cs: Seq<Constraint>, n: int) -> int
    decreases n,
{
    if n <= 0 {
        0
    } else {
        length_sum(cs, n - 1) + length_at(cs, n - 1)
    }
}

/// Every one of `cs` is a `Length`, and together they fit in `area` along
/// `direction`.
pub open spec fn fitting_lengths(direction: Direction, cs: Seq<Constraint>, area: Rect) -> bool {
    &&& forall|i: int| 0 <= i < cs.len() ==> (#[trigger] cs[i]) is Length
    &&& length_sum(cs, cs.len() as int) <= extent(direction, area)
}

/// `area` cut along `direction` into parts of the lengths `cs` ask for, one
/// after the other from its start.
pub open spec fn stacked(direction: Direction, cs: Seq<Constraint>, area: Rect) -> Seq<Rect> {
    Seq::new(cs.len(), |i: int| piece(direction, area, length_sum(cs, i), length_at(cs, i)))
}

/// `Min(m)` then `Length(l)`, where `m + l` fits in `area` along
/// `direction`.
pub open spec fn fitting_fill(direction: Direction, cs: Seq<Constraint>, area: Rect) -> bool {
    &&& cs.len() == 2
    &&& cs[0] matches Constraint::Min(m)
    &&& cs[1] matches Constraint::Length(l)
    &&& m + l <= extent(direction, area)
}

/// `area` cut along `direction` so that its last `len` cells form the second
/// part and the first part takes the rest.
pub open spec fn fill_split(direction: Direction, len: int, area: Rect) -> Seq<Rect> {
    let e = extent(direction, area);
    seq![piece(direction, area, 0, e - len), piece(direction, area, e - len, len)]
}

/// `area` cut along `direction` in two, the first part taking `percent` of
/// its length rounded to the nearest cell (halves up), the second the rest.
pub open spec fn percent_split(direction: Direction, percent: u16, area: Rect) -> Seq<Rect> {
    let e = extent(direction, area);
    let first = (e * percent + 50) / 100;
    seq![piece(direction, area, 0, first), piece(direction, area, first, e - first)]
}

/// `part` is one of the pieces of `area` cut along `direction`: it keeps the
/// area's extent across that direction and lies within it along it.
pub open spec fn placed(direction: Direction, part: Rect, area: Rect) -> bool {
    match direction {
        Direction::Horizontal => {
            &&& part.y == area.y
            &&& part.height == area.height
            &&& area.x <= part.x
            &&& part.x + part.width <= area.x + area.width
        },
        Direction::Vertical => {
            &&& part.x == area.x
            &&& part.width == area.width
            &&& area.y <= part.y
            &&& part.y + part.height <= area.y + area.height
        },
    }
}

/// `inner` lies within `outer`.
pub open spec fn within(inner: Rect, outer: Rect) -> bool {
    &&& outer.x <= inner.x
    &&& inner.x + inner.width <= outer.x + outer.width
    &&& outer.y <= inner.y
    &&& inner.y + inner.height <= outer.y + outer.height
}

/// The parts into which the terminal layout engine (`ratatui::layout::Layout`)
/// divides `area` along `direction` for [`equal_ratios`].
pub uninterp spec fn engine_split(direction: Direction, constraints: Seq<Constraint>, area: Rect) -> Seq<
    Rect,
>;

/// Divides `area` along `direction` as `constraints` ask, with
/// `ratatui::layout::Layout::split`. One part comes back for each
/// constraint, each placed in `area` along `direction` (the solver keeps
/// every boundary between the area's edges, and the parts keep the area's
/// other extent).
/// - For a [`complementary`] pair the constraints are met exactly: the solver
///   puts the boundary at `percent` of the length, in hundredths of a cell
///   (a whole number of them), and rounding to cells gives [`percent_split`].
/// - For [`equal_ratios`] the constraints are also met by one exact division,
///   which the solver finds whatever the order of its work; where its
///   rounded boundaries fall is not spelled out here, only named
///   `engine_split`, a function of the arguments.
/// - For lengths that fit ([`fitting_lengths`]), and for `Min` then `Length`
///   that fit ([`fitting_fill`]), every constraint can be met: the lengths
///   come one after the other from the area's start, and the `Min` part,
///   growing before the space left at the end does, takes all that the
///   `Length` does not ([`stacked`], [`fill_split`]).
/// - Of other lists nothing more is claimed.
#[verifier::external_body]
pub(crate) fn split_area(direction: Direction, constraints: &Vec<Constraint>, area: Rect) -> (r: Vec<Rect>)
    ensures
        r.len() == constraints.len(),
        forall|i: int| 0 <= i < r@.len() ==> placed(direction, #[trigger] r@[i], area),
        complementary(constraints@) ==> r@ == percent_split(direction, first_percent(constraints@), area),
        equal_ratios(constraints@) ==> r@ == engine_split(direction, constraints@, area),
        fitting_lengths(direction, constraints@, area) ==> r@ == stacked(direction, constraints@, area),
        fitting_fill(direction, constraints@, area) ==> r@ == fill_split(
            direction,
            length_at(constraints@, 1),
            area,
        ),
{
    let d = if direction == Direction::Horizontal {
        EngineDirection::Horizontal
    } else {
        EngineDirection::Vertical
    };
    let cs = constraints.iter().map(|c| match *c {
        Constraint::Percentage(p) => EngineConstraint::Percentage(p),
        Constraint::Ratio(a, b) => EngineConstraint::Ratio(a, b),
        Constraint::Length(l) => EngineConstraint::Length(l),
        Constraint::Min(m) => EngineConstraint::Min(m),
    });
    let a = EngineRect { x: area.x, y: area.y, width: area.width, height: area.height };
    let parts = Layout::default().direction(d).constraints(cs).split(a);
    parts.iter().map(|p| Rect { x: p.x, y: p.y, width: p.width, height: p.height }).collect()
}

} // verus!
