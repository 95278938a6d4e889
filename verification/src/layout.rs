//! The split tree that arranges panes, and the operations that reshape it.
use vstd::prelude::*;
use crate::text::same_text;
use crate::geometry::{percent_split, split_area, Constraint, Direction, Rect};

verus! {

pub const DEFAULT_SPLIT_RATIO: u16 = 50;
pub const MIN_SPLIT_RATIO: u16 = 20;
pub const MAX_SPLIT_RATIO: u16 = 80;
pub const MIN_PANE_WIDTH: u16 = 24;
pub const MIN_PANE_HEIGHT: u16 = 6;

/// Which way a split divides its area: `Vertical` puts the children side by
/// side, `Horizontal` stacks them.
#[derive(Debug, Clone, Copy, PartialEq, Eq, Structural)]
pub enum SplitAxis {
    Vertical,
    Horizontal,
}

/// A layout: either one pane, or an area split in two between subtrees, the
/// first child taking `ratio_percent` of it.
#[derive(Debug, PartialEq, Eq)]
pub enum LayoutNode {
    Leaf { pane: usize },
    Split { axis: SplitAxis, ratio_percent: u16, first: Box<LayoutNode>, second: Box<LayoutNode> },
}

/// A copy of the layout `t`, node for node.
fn copy_tree(t: &LayoutNode) -> (r: LayoutNode)
    ensures
        r == *t,
    decreases t,
{
    match t {
        LayoutNode::Leaf { pane } => LayoutNode::Leaf { pane: *pane },
        LayoutNode::Split { axis, ratio_percent, first, second } => LayoutNode::Split {
            axis: *axis,
            ratio_percent: *ratio_percent,
            first: Box::new(copy_tree(first)),
            second: Box::new(copy_tree(second)),
        },
    }
}

impl Clone for LayoutNode {
    fn clone(&self) -> (r: Self)
        ensures
            r == *self,
    {
        copy_tree(self)
    }
}

/// The panes of a layout, left (first) to right (second).
pub open spec fn leaves(node: LayoutNode) -> Seq<usize>
    decreases node,
{
    match node {
        LayoutNode::Leaf { pane } => seq![pane],
        LayoutNode::Split { first, second, .. } => leaves(*first) + leaves(*second),
    }
}

/// A split node with the default ratio.
pub open spec fn split_node(axis: SplitAxis, first: LayoutNode, second: LayoutNode) -> LayoutNode {
    LayoutNode::Split {
        axis,
        ratio_percent: DEFAULT_SPLIT_RATIO,
        first: Box::new(first),
        second: Box::new(second),
    }
}

fn split(axis: SplitAxis, first: LayoutNode, second: LayoutNode) -> (r: LayoutNode)
    ensures
        r == split_node(axis, first, second),
{
    LayoutNode::Split {
        axis,
        ratio_percent: DEFAULT_SPLIT_RATIO,
        first: Box::new(first),
        second: Box::new(second),
    }
}

/// Whether `target` is one of the panes of `layout`.
pub fn contains_pane(layout: &LayoutNode, target: usize) -> (b: bool)
    ensures
        b == leaves(*layout).contains(target),
    decreases layout,
{
    match layout {
        LayoutNode::Leaf { pane } => {
            assert(leaves(*layout)[0] == *pane);
            *pane == target
        },
        LayoutNode::Split { first, second, .. } => {
            let a = contains_pane(first, target);
            let b = contains_pane(second, target);
            proof {
                lemma_contains_concat(leaves(**first), leaves(**second), target);
            }
            a || b
        },
    }
}

pub proof fn lemma_contains_concat(a: Seq<usize>, b: Seq<usize>, x: usize)
    ensures
        (a + b).contains(x) == (a.contains(x) || b.contains(x)),
{
    if a.contains(x) {
        let i = choose|i: int| 0 <= i < a.len() && a[i] == x;
        assert((a + b)[i] == x);
    }
    if b.contains(x) {
        let i = choose|i: int| 0 <= i < b.len() && b[i] == x;
        assert((a + b)[a.len() + i] == x);
    }
    if (a + b).contains(x) {
        let i = choose|i: int| 0 <= i < (a + b).len() && (a + b)[i] == x;
        if i < a.len() {
            assert(a[i] == x);
        } else {
            assert(b[i - a.len()] == x);
        }
    }
}

/// `layout` with the first leaf showing `target` (first child before second)
/// replaced by a default split of `target` and `new_pane`; `None` when no leaf
/// shows `target`.
pub open spec fn split_spec(layout: LayoutNode, target: usize, axis: SplitAxis, new_pane: usize) -> Option<
    LayoutNode,
>
    decreases layout,
{
    match layout {
        LayoutNode::Leaf { pane } => if pane == target {
            Some(
                split_node(
                    axis,
                    LayoutNode::Leaf { pane: target },
                    LayoutNode::Leaf { pane: new_pane },
                ),
            )
        } else {
            None
        },
        LayoutNode::Split { axis: a, ratio_percent, first, second } => match split_spec(
            *first,
            target,
            axis,
            new_pane,
        ) {
            Some(f) => Some(
                LayoutNode::Split { axis: a, ratio_percent, first: Box::new(f), second },
            ),
            None => match split_spec(*second, target, axis, new_pane) {
                Some(s) => Some(
                    LayoutNode::Split { axis: a, ratio_percent, first, second: Box::new(s) },
                ),
                None => None,
            },
        },
    }
}

/// Splits the leaf showing `target`, adding `new_pane` after it; returns
/// whether a leaf was found (otherwise `layout` is unchanged).
pub fn split_pane(layout: &mut LayoutNode, target: usize, axis: SplitAxis, new_pane: usize) -> (r:
    bool)
    ensures
        r == split_spec(*old(layout), target, axis, new_pane) is Some,
        r ==> *final(layout) == split_spec(*old(layout), target, axis, new_pane)->0,
        !r ==> *final(layout) == *old(layout),
    decreases *old(layout),
{
    match layout {
        LayoutNode::Leaf { pane } => {
            if *pane == target {
                *layout = split(
                    axis,
                    LayoutNode::Leaf { pane: target },
                    LayoutNode::Leaf { pane: new_pane },
                );
                true
            } else {
                false
            }
        },
        LayoutNode::Split { first, second, .. } => {
            if split_pane(first, target, axis, new_pane) {
                true
            } else {
                split_pane(second, target, axis, new_pane)
            }
        },
    }
}

/// Some split of `axis` on the way from the root of `layout` to a leaf
/// showing `target` holds `target` in one of its children.
pub open spec fn holds_axis(layout: LayoutNode, target: usize, axis: SplitAxis) -> bool
    decreases layout,
{
    match layout {
        LayoutNode::Leaf { .. } => false,
        LayoutNode::Split { axis: a, first, second, .. } => {
            let fh = leaves(*first).contains(target);
            let sh = leaves(*second).contains(target);
            ||| fh && holds_axis(*first, target, axis)
            ||| sh && holds_axis(*second, target, axis)
            ||| a == axis && (fh || sh)
        },
    }
}

/// Whether some split of `axis` holds `target` (see [`holds_axis`]).
fn holds_split(layout: &LayoutNode, target: usize, axis: SplitAxis) -> (b: bool)
    ensures
        b == holds_axis(*layout, target, axis),
    decreases layout,
{
    match layout {
        LayoutNode::Leaf { .. } => false,
        LayoutNode::Split { axis: a, first, second, .. } => {
            let fh = contains_pane(first, target);
            let sh = contains_pane(second, target);
            (fh && holds_split(first, target, axis)) || (sh && holds_split(second, target, axis)) || (
            *a == axis && (fh || sh))
        },
    }
}

/// `layout` after `adjust_split_ratio_for_pane`, with whether a ratio changed;
/// `None` where the signed arithmetic of the adjustment would overflow.
/// The split of the given axis nearest to `target` (the innermost one on the
/// way from the root to `target`, looking in the first child before the
/// second) moves its ratio by `delta` toward `target`'s side, clamped to
/// 20..=80; every other split stays as it is.
pub open spec fn adjust_spec(layout: LayoutNode, target: usize, axis: SplitAxis, delta: i16) -> Option<
    (LayoutNode, bool),
>
    decreases layout,
{
    match layout {
        LayoutNode::Leaf { .. } => Some((layout, false)),
        LayoutNode::Split { axis: a, ratio_percent, first, second } => {
            let fh = leaves(*first).contains(target);
            let sh = leaves(*second).contains(target);
            if fh && holds_axis(*first, target, axis) {
                match adjust_spec(*first, target, axis, delta) {
                    None => None,
                    Some((f, c)) => Some(
                        (LayoutNode::Split { axis: a, ratio_percent, first: Box::new(f), second }, c),
                    ),
                }
            } else if sh && holds_axis(*second, target, axis) {
                match adjust_spec(*second, target, axis, delta) {
                    None => None,
                    Some((sc, c)) => Some(
                        (LayoutNode::Split { axis: a, ratio_percent, first, second: Box::new(sc) }, c),
                    ),
                }
            } else if a == axis && (fh || sh) {
                if !fh && delta == i16::MIN {
                    None
                } else {
                    let sd: int = if fh {
                        delta as int
                    } else {
                        -(delta as int)
                    };
                    let sum = (ratio_percent as i16) as int + sd;
                    if sum < i16::MIN || sum > i16::MAX {
                        None
                    } else {
                        let next: int = if sum < MIN_SPLIT_RATIO {
                            MIN_SPLIT_RATIO as int
                        } else if sum > MAX_SPLIT_RATIO {
                            MAX_SPLIT_RATIO as int
                        } else {
                            sum
                        };
                        Some(
                            (
                                LayoutNode::Split {
                                    axis: a,
                                    ratio_percent: next as u16,
                                    first,
                                    second,
                                },
                                next != ratio_percent,
                            ),
                        )
                    }
                }
            } else {
                Some((layout, false))
            }
        },
    }
}

/// Moves the ratio of the split of `axis` nearest to `target` by `delta`
/// percent (growing `target`'s side), clamped to 20..=80; returns whether a
/// ratio changed.
pub fn adjust_split_ratio_for_pane(
    layout: &mut LayoutNode,
    target: usize,
    axis: SplitAxis,
    delta: i16,
) -> (r: bool)
    requires
        adjust_spec(*old(layout), target, axis, delta) is Some,
    ensures
        (*final(layout), r) == adjust_spec(*old(layout), target, axis, delta)->0,
    decreases *old(layout),
{
    match layout {
        LayoutNode::Leaf { .. } => false,
        LayoutNode::Split { axis: split_axis, ratio_percent, first, second } => {
            let first_has = contains_pane(first, target);
            let second_has = contains_pane(second, target);
            if first_has && holds_split(first, target, axis) {
                return adjust_split_ratio_for_pane(first, target, axis, delta);
            }
            if second_has && holds_split(second, target, axis) {
                return adjust_split_ratio_for_pane(second, target, axis, delta);
            }
            if *split_axis == axis && (first_has || second_has) {
                let signed_delta = if first_has {
                    delta
                } else {
                    -delta
                };
                let sum = *ratio_percent as i16 + signed_delta;
                let next = if sum < MIN_SPLIT_RATIO as i16 {
                    MIN_SPLIT_RATIO as i16
                } else if sum > MAX_SPLIT_RATIO as i16 {
                    MAX_SPLIT_RATIO as i16
                } else {
                    sum
                } as u16;
                let changed = next != *ratio_percent;
                *ratio_percent = next;
                return changed;
            }
            false
        },
    }
}

/// `layout` with every pane index at or above `from` moved by `delta`.
pub open spec fn shift_spec(layout: LayoutNode, from: usize, delta: isize) -> LayoutNode
    decreases layout,
{
    match layout {
        LayoutNode::Leaf { pane } => LayoutNode::Leaf {
            pane: if pane >= from {
                ((pane as isize) + delta) as usize
            } else {
                pane
            },
        },
        LayoutNode::Split { axis, ratio_percent, first, second } => LayoutNode::Split {
            axis,
            ratio_percent,
            first: Box::new(shift_spec(*first, from, delta)),
            second: Box::new(shift_spec(*second, from, delta)),
        },
    }
}

/// The shift of every pane at or above `from` stays within `isize`.
pub open spec fn shift_fits(layout: LayoutNode, from: usize, delta: isize) -> bool {
    forall|i: int|
        0 <= i < leaves(layout).len() && leaves(layout)[i] >= from ==> isize::MIN <= (
        #[trigger] leaves(layout)[i] as isize) + delta <= isize::MAX
}

/// Moves every pane index at or above `from` by `delta`.
pub fn shift_pane_indices(layout: &mut LayoutNode, from: usize, delta: isize)
    requires
        shift_fits(*old(layout), from, delta),
    ensures
        *final(layout) == shift_spec(*old(layout), from, delta),
    decreases *old(layout),
{
    match layout {
        LayoutNode::Leaf { pane } => {
            assert(leaves(*old(layout))[0] == *pane);
            if *pane >= from {
                *pane = ((*pane as isize) + delta) as usize;
            }
        },
        LayoutNode::Split { first, second, .. } => {
            let ghost f = leaves(**first);
            let ghost sec = leaves(**second);
            assert forall|i: int| 0 <= i < f.len() && f[i] >= from implies isize::MIN <= (
            #[trigger] f[i] as isize) + delta <= isize::MAX by {
                assert(leaves(*old(layout))[i] == f[i]);
            }
            assert forall|i: int| 0 <= i < sec.len() && sec[i] >= from implies isize::MIN <= (
            #[trigger] sec[i] as isize) + delta <= isize::MAX by {
                assert(leaves(*old(layout))[f.len() + i] == sec[i]);
            }
            shift_pane_indices(first, from, delta);
            shift_pane_indices(second, from, delta);
        },
    }
}

/// `layout` without the leaves showing `target`: a split that loses one child
/// is replaced by the other; `None` when nothing is left.
pub open spec fn remove_spec(layout: LayoutNode, target: usize) -> Option<LayoutNode>
    decreases layout,
{
    match layout {
        LayoutNode::Leaf { pane } => if pane == target {
            None
        } else {
            Some(layout)
        },
        LayoutNode::Split { axis, ratio_percent, first, second } => {
            match (remove_spec(*first, target), remove_spec(*second, target)) {
                (Some(f), Some(s)) => Some(
                    LayoutNode::Split { axis, ratio_percent, first: Box::new(f), second: Box::new(s) },
                ),
                (Some(n), None) => Some(n),
                (None, Some(n)) => Some(n),
                (None, None) => None,
            }
        },
    }
}

/// Removes every leaf showing `target`, collapsing splits left with one child.
pub fn remove_pane(layout: LayoutNode, target: usize) -> (r: Option<LayoutNode>)
    ensures
        r == remove_spec(layout, target),
    decreases layout,
{
    match layout {
        LayoutNode::Leaf { pane } => {
            if pane == target {
                None
            } else {
                Some(LayoutNode::Leaf { pane })
            }
        },
        LayoutNode::Split { axis, ratio_percent, first, second } => {
            let first = remove_pane(*first, target);
            let second = remove_pane(*second, target);
            match (first, second) {
                (Some(first), Some(second)) => Some(
                    LayoutNode::Split {
                        axis,
                        ratio_percent,
                        first: Box::new(first),
                        second: Box::new(second),
                    },
                ),
                (Some(node), None) => Some(node),
                (None, Some(node)) => Some(node),
                (None, None) => None,
            }
        },
    }
}

/// Appends the panes of `layout`, left to right, to `panes`.
fn collect_panes(layout: &LayoutNode, panes: &mut Vec<usize>)
    ensures
        final(panes)@ == old(panes)@ + leaves(*layout),
    decreases layout,
{
    match layout {
        LayoutNode::Leaf { pane } => {
            panes.push(*pane);
        },
        LayoutNode::Split { first, second, .. } => {
            collect_panes(first, panes);
            collect_panes(second, panes);
            assert(final(panes)@ =~= old(panes)@ + (leaves(**first) + leaves(**second)));
        },
    }
}

/// The panes `0..count`, each exactly once.
pub open spec fn is_valid_tree(layout: LayoutNode, count: usize) -> bool {
    &&& leaves(layout).len() == count
    &&& leaves(layout).to_set() == Set::new(|p: usize| p < count)
}

/// Whether `layout` shows each of the panes `0..pane_count` exactly once.
pub fn validate_layout_tree(layout: &LayoutNode, pane_count: usize) -> (b: bool)
    ensures
        b == is_valid_tree(*layout, pane_count),
{
    let mut panes: Vec<usize> = Vec::new();
    collect_panes(layout, &mut panes);
    assert(panes@ =~= leaves(*layout));
    if panes.len() != pane_count {
        return false;
    }
    let mut seen: Vec<bool> = Vec::new();
    while seen.len() < pane_count
        invariant
            seen.len() <= pane_count,
            forall|q: int| 0 <= q < seen.len() ==> !(#[trigger] seen@[q]),
        decreases pane_count - seen.len(),
    {
        seen.push(false);
    }
    let mut i: usize = 0;
    while i < panes.len()
        invariant
            i <= panes.len(),
            seen.len() == pane_count,
            panes@ == leaves(*layout),
            forall|k: int| 0 <= k < i ==> (#[trigger] panes@[k]) < pane_count,
            forall|q: int|
                0 <= q < pane_count ==> (#[trigger] seen@[q] <==> panes@.take(i as int).contains(
                    q as usize,
                )),
        decreases panes.len() - i,
    {
        let p = panes[i];
        if p >= pane_count {
            assert(!Set::new(|p: usize| p < pane_count).contains(p));
            assert(leaves(*layout).to_set().contains(p));
            return false;
        }
        let ghost old_seen = seen@;
        seen.set(p, true);
        assert forall|q: int| 0 <= q < pane_count implies (#[trigger] seen@[q]
            <==> panes@.take(i + 1).contains(q as usize)) by {
            assert(old_seen[q] <==> panes@.take(i as int).contains(q as usize));
            assert(panes@.take(i + 1) =~= panes@.take(i as int) + seq![p]);
            lemma_contains_concat(panes@.take(i as int), seq![p], q as usize);
            assert(seq![p][0] == p);
            if q == p as int {
                assert(seq![p].contains(q as usize));
                assert(seen@[q]);
            } else {
                assert(!seq![p].contains(q as usize));
                assert(seen@[q] == old_seen[q]);
            }
        }
        i += 1;
    }
    assert(panes@.take(i as int) =~= panes@);
    let mut j: usize = 0;
    while j < pane_count
        invariant
            j <= pane_count,
            seen.len() == pane_count,
            panes@ == leaves(*layout),
            forall|q: int|
                0 <= q < pane_count ==> (#[trigger] seen@[q] <==> panes@.contains(q as usize)),
            forall|q: int| 0 <= q < j ==> #[trigger] seen@[q],
        decreases pane_count - j,
    {
        if !seen[j] {
            assert(!leaves(*layout).to_set().contains(j));
            assert(Set::new(|p: usize| p < pane_count).contains(j));
            return false;
        }
        j += 1;
    }
    assert(leaves(*layout).to_set() =~= Set::new(|p: usize| p < pane_count)) by {
        assert forall|p: usize| leaves(*layout).to_set().contains(p) implies p < pane_count by {
            let k = choose|k: int| 0 <= k < panes.len() && panes@[k] == p;
        }
        assert forall|p: usize| p < pane_count implies leaves(*layout).to_set().contains(p) by {
            assert(seen@[p as int]);
        }
    }
    true
}

/// Panes `start..start + count` (at least one) split in halves, recursively,
/// the first half taking the smaller share when `count` is odd.
pub open spec fn balanced_spec(start: int, count: int) -> LayoutNode
    decreases count,
{
    if count <= 1 {
        LayoutNode::Leaf { pane: start as usize }
    } else {
        let left = count / 2;
        split_node(
            SplitAxis::Horizontal,
            balanced_spec(start, left),
            balanced_spec(start + left, count - left),
        )
    }
}

/// The layout a fresh dashboard of `count` panes starts with.
pub open spec fn default_spec(count: usize) -> LayoutNode {
    let n = if count < 1 {
        1
    } else {
        count
    };
    if n == 1 {
        LayoutNode::Leaf { pane: 0 }
    } else if n == 2 {
        split_node(SplitAxis::Vertical, LayoutNode::Leaf { pane: 0 }, LayoutNode::Leaf { pane: 1 })
    } else if n == 3 {
        split_node(
            SplitAxis::Vertical,
            LayoutNode::Leaf { pane: 0 },
            split_node(
                SplitAxis::Horizontal,
                LayoutNode::Leaf { pane: 1 },
                LayoutNode::Leaf { pane: 2 },
            ),
        )
    } else {
        balanced_spec(0, n as int)
    }
}

fn balanced_tree(start: usize, count: usize) -> (r: LayoutNode)
    requires
        start + count <= usize::MAX,
    ensures
        r == balanced_spec(start as int, count as int),
    decreases count,
{
    if count <= 1 {
        return LayoutNode::Leaf { pane: start };
    }
    let left_count = count / 2;
    let right_count = count - left_count;
    split(
        SplitAxis::Horizontal,
        balanced_tree(start, left_count),
        balanced_tree(start + left_count, right_count),
    )
}

/// The layout for `count` panes: one pane, two side by side, a main pane
/// beside a stack of two, or a balanced tree of horizontal splits.
pub fn default_layout_tree(count: usize) -> (r: LayoutNode)
    ensures
        r == default_spec(count),
{
    let n = if count < 1 {
        1
    } else {
        count
    };
    if n == 1 {
        LayoutNode::Leaf { pane: 0 }
    } else if n == 2 {
        split(SplitAxis::Vertical, LayoutNode::Leaf { pane: 0 }, LayoutNode::Leaf { pane: 1 })
    } else if n == 3 {
        split(
            SplitAxis::Vertical,
            LayoutNode::Leaf { pane: 0 },
            split(SplitAxis::Horizontal, LayoutNode::Leaf { pane: 1 }, LayoutNode::Leaf { pane: 2 }),
        )
    } else {
        balanced_tree(0, n)
    }
}

/// Rows and columns of a grid of panes.
#[derive(Debug, Clone, Copy, PartialEq, Eq, Structural)]
pub struct Grid {
    pub rows: usize,
    pub cols: usize,
}

/// The grid for `count` panes: fixed shapes up to six, then `cols` is the
/// ceiling of the square root of `count` and `rows` the ceiling of
/// `count / cols`.
pub open spec fn grid_spec(count: usize, g: Grid) -> bool {
    if count <= 1 {
        g == Grid { rows: 1, cols: 1 }
    } else if count == 2 {
        g == Grid { rows: 1, cols: 2 }
    } else if count <= 4 {
        g == Grid { rows: 2, cols: 2 }
    } else if count <= 6 {
        g == Grid { rows: 2, cols: 3 }
    } else {
        &&& g.cols * g.cols >= count
        &&& (g.cols - 1) * (g.cols - 1) < count
        &&& g.rows == (count + g.cols - 1) / (g.cols as int)
    }
}

/// The smallest `c` with `c * c >= n`.
fn ceil_sqrt(n: usize) -> (c: usize)
    requires
        n >= 2,
    ensures
        c * c >= n,
        (c - 1) * (c - 1) < n,
        2 <= c <= n,
{
    let mut lo: u128 = 1;
    let mut hi: u128 = n as u128;
    assert(hi * hi >= n) by (nonlinear_arith)
        requires
            hi == n,
            n >= 2,
    ;
    while lo + 1 < hi
        invariant
            1 <= lo < hi <= n,
            lo * lo < n,
            hi * hi >= n,
        decreases hi - lo,
    {
        let mid = lo + (hi - lo) / 2;
        assert(mid * mid <= (n as u128) * (n as u128)) by (nonlinear_arith)
            requires
                mid <= n,
        ;
        assert((n as u128) * (n as u128) <= 0xffff_ffff_ffff_ffff_ffff_ffff_ffff_ffff) by (
        nonlinear_arith)
            requires
                n <= 0xffff_ffff_ffff_ffff,
        ;
        if mid * mid >= n as u128 {
            hi = mid;
        } else {
            lo = mid;
        }
    }
    assert(lo == hi - 1);
    hi as usize
}

/// The grid used to place `count` panes.
pub fn grid_for_count(count: usize) -> (g: Grid)
    ensures
        grid_spec(count, g),
{
    if count <= 1 {
        Grid { rows: 1, cols: 1 }
    } else if count == 2 {
        Grid { rows: 1, cols: 2 }
    } else if count <= 4 {
        Grid { rows: 2, cols: 2 }
    } else if count <= 6 {
        Grid { rows: 2, cols: 3 }
    } else {
        let cols = ceil_sqrt(count);
        let q = count / cols;
        assert(q < count) by (nonlinear_arith)
            requires
                cols >= 2,
                q == count / cols,
                count >= 7,
        ;
        let rows = if count % cols > 0 {
            q + 1
        } else {
            q
        };
        assert(rows == (count + cols - 1) / (cols as int)) by (nonlinear_arith)
            requires
                cols >= 1,
                q == count / cols,
                rows == if count % cols > 0 {
                    q + 1
                } else {
                    q as int
                },
        ;
        Grid { rows, cols }
    }
}

/// A layout as a preset names it: a built-in layout by name, or a tree.
#[derive(Debug, Clone, PartialEq, Eq)]
pub enum PresetLayout {
    Named(String),
    Tree(LayoutNode),
}

impl PresetLayout {
    /// The tree a preset layout stands for: `grid` and `main-right-stack` both
    /// give the default layout for `pane_count` panes; another name gives `None`.
    pub fn into_tree(self, pane_count: usize) -> (r: Option<LayoutNode>)
        ensures
            match self {
                PresetLayout::Named(name) => if name@ == "grid"@ || name@ == "main-right-stack"@ {
                    r == Some(default_spec(pane_count))
                } else {
                    r is None
                },
                PresetLayout::Tree(tree) => r == Some(tree),
            },
    {
        match self {
            PresetLayout::Named(name) => {
                if same_text(name.as_str(), "grid") || same_text(name.as_str(), "main-right-stack") {
                    Some(default_layout_tree(pane_count))
                } else {
                    None
                }
            },
            PresetLayout::Tree(tree) => Some(tree),
        }
    }

    /// A preset layout holding `tree`.
    pub fn from_tree(tree: LayoutNode) -> (r: Self)
        ensures
            r == PresetLayout::Tree(tree),
    {
        PresetLayout::Tree(tree)
    }
}

/// The ratio a split actually uses: `ratio_percent` clamped to 20..=80.
pub open spec fn effective_ratio(ratio_percent: u16) -> u16 {
    if ratio_percent < MIN_SPLIT_RATIO {
        MIN_SPLIT_RATIO
    } else if ratio_percent > MAX_SPLIT_RATIO {
        MAX_SPLIT_RATIO
    } else {
        ratio_percent
    }
}

/// The engine direction for a split axis (a vertical split lays its
/// children out horizontally).
pub open spec fn axis_direction(axis: SplitAxis) -> Direction {
    match axis {
        SplitAxis::Vertical => Direction::Horizontal,
        SplitAxis::Horizontal => Direction::Vertical,
    }
}

/// The two parts of `area` for a split with the given axis and ratio.
pub open spec fn split_parts(axis: SplitAxis, ratio_percent: u16, area: Rect) -> Seq<Rect> {
    percent_split(axis_direction(axis), effective_ratio(ratio_percent), area)
}

/// Each pane of `layout` with its rectangle, left to right, when `layout`
/// fills `area`.
pub open spec fn rects_spec(area: Rect, layout: LayoutNode) -> Seq<(usize, Rect)>
    decreases layout,
{
    match layout {
        LayoutNode::Leaf { pane } => seq![(pane, area)],
        LayoutNode::Split { axis, ratio_percent, first, second } => {
            let parts = split_parts(axis, ratio_percent, area);
            rects_spec(parts[0], *first) + rects_spec(parts[1], *second)
        },
    }
}

fn collect_rects(area: Rect, layout: &LayoutNode, rects: &mut Vec<(usize, Rect)>)
    ensures
        final(rects)@ == old(rects)@ + rects_spec(area, *layout),
    decreases layout,
{
    match layout {
        LayoutNode::Leaf { pane } => {
            rects.push((*pane, area));
        },
        LayoutNode::Split { axis, ratio_percent, first, second } => {
            let direction = match axis {
                SplitAxis::Vertical => Direction::Horizontal,
                SplitAxis::Horizontal => Direction::Vertical,
            };
            let first_percent = if *ratio_percent < MIN_SPLIT_RATIO {
                MIN_SPLIT_RATIO
            } else if *ratio_percent > MAX_SPLIT_RATIO {
                MAX_SPLIT_RATIO
            } else {
                *ratio_percent
            };
            let second_percent = 100 - first_percent;
            let constraints = vec![
                Constraint::Percentage(first_percent),
                Constraint::Percentage(second_percent),
            ];
            assert(constraints@ =~= seq![
                Constraint::Percentage(first_percent),
                Constraint::Percentage(second_percent),
            ]);
            let chunks = split_area(direction, &constraints, area);
            collect_rects(chunks[0], first, rects);
            collect_rects(chunks[1], second, rects);
            assert(final(rects)@ =~= old(rects)@ + (rects_spec(chunks@[0], **first) + rects_spec(
                chunks@[1],
                **second,
            )));
        },
    }
}

/// Entries about pane `k`.
pub open spec fn pane_is(k: usize) -> spec_fn((usize, Rect)) -> bool {
    |e: (usize, Rect)| e.0 == k
}

/// Entries in increasing pane order.
pub open spec fn sorted_by_pane(s: Seq<(usize, Rect)>) -> bool {
    forall|i: int, j: int| 0 <= i < j < s.len() ==> (#[trigger] s[i]).0 <= (#[trigger] s[j]).0
}

/// `out` is `inp` sorted by pane, entries of one pane keeping their order.
pub open spec fn stably_sorted(out: Seq<(usize, Rect)>, inp: Seq<(usize, Rect)>) -> bool {
    &&& sorted_by_pane(out)
    &&& forall|k: usize| #[trigger] out.filter(pane_is(k)) == inp.filter(pane_is(k))
}

fn sort_by_pane(inp: &Vec<(usize, Rect)>) -> (out: Vec<(usize, Rect)>)
    ensures
        stably_sorted(out@, inp@),
{
    let mut out: Vec<(usize, Rect)> = Vec::new();
    let mut i: usize = 0;
    assert forall|k: usize| #[trigger] out@.filter(pane_is(k)) == inp@.take(0).filter(pane_is(k)) by {
        reveal(Seq::filter);
        assert(inp@.take(0) =~= Seq::<(usize, Rect)>::empty());
        assert(out@ =~= Seq::<(usize, Rect)>::empty());
    }
    while i < inp.len()
        invariant
            i <= inp.len(),
            stably_sorted(out@, inp@.take(i as int)),
        decreases inp.len() - i,
    {
        let e = inp[i];
        let mut p: usize = 0;
        while p < out.len() && out[p].0 <= e.0
            invariant
                p <= out.len(),
                forall|j: int| 0 <= j < p ==> (#[trigger] out@[j]).0 <= e.0,
            decreases out.len() - p,
        {
            p += 1;
        }
        let ghost old_out = out@;
        assert forall|j: int| p <= j < old_out.len() implies (#[trigger] old_out[j]).0 > e.0 by {
            if j > p {
                assert(old_out[p as int].0 <= old_out[j].0);
            }
        }
        out.insert(p, e);
        proof {
            let a = old_out.take(p as int);
            let b = old_out.skip(p as int);
            assert(old_out =~= a + b);
            assert(out@ =~= a + (seq![e] + b));
            assert(inp@.take(i + 1) =~= inp@.take(i as int).push(e));
            assert forall|k: usize| #[trigger] out@.filter(pane_is(k)) == inp@.take(i + 1).filter(
                pane_is(k),
            ) by {
                Seq::filter_distributes_over_add(a, b, pane_is(k));
                Seq::filter_distributes_over_add(a, seq![e] + b, pane_is(k));
                Seq::filter_distributes_over_add(seq![e], b, pane_is(k));
                inp@.take(i as int).lemma_filter_push(e, pane_is(k));
                reveal_with_fuel(Seq::filter, 2);
                assert(seq![e].drop_last() =~= Seq::<(usize, Rect)>::empty());
                if k == e.0 {
                    assert forall|j: int| 0 <= j < b.len() implies !pane_is(k)(b[j]) by {
                        assert(b[j] == old_out[p + j]);
                    }
                    assert(b.all(|x: (usize, Rect)| !pane_is(k)(x)));
                    b.lemma_all_neg_filter_empty(pane_is(k));
                    assert(b.filter(pane_is(k)) =~= Seq::<(usize, Rect)>::empty());
                    assert(a.filter(pane_is(k)) + (seq![e] + Seq::empty()) =~= a.filter(
                        pane_is(k),
                    ).push(e));
                    assert(a.filter(pane_is(k)) + Seq::empty() =~= a.filter(pane_is(k)));
                } else {
                    assert(seq![e].filter(pane_is(k)) =~= Seq::<(usize, Rect)>::empty());
                    assert(Seq::<(usize, Rect)>::empty() + b.filter(pane_is(k)) =~= b.filter(
                        pane_is(k),
                    ));
                }
            }
            assert forall|x: int, y: int| 0 <= x < y < out@.len() implies (#[trigger] out@[x]).0
                <= (#[trigger] out@[y]).0 by {
                if y < p {
                } else if y == p {
                    assert(out@[x] == old_out[x]);
                } else if x == p {
                    assert(out@[y] == old_out[y - 1]);
                } else if x < p {
                    assert(out@[y] == old_out[y - 1]);
                    assert(out@[x] == old_out[x]);
                } else {
                    assert(out@[y] == old_out[y - 1]);
                    assert(out@[x] == old_out[x - 1]);
                }
            }
        }
        i += 1;
    }
    assert(inp@.take(inp.len() as int) =~= inp@);
    out
}

/// Each pane of `layout` with the rectangle it gets when `layout` fills
/// `area`, in increasing pane order.
pub fn pane_rects(area: Rect, layout: &LayoutNode) -> (r: Vec<(usize, Rect)>)
    ensures
        stably_sorted(r@, rects_spec(area, *layout)),
{
    let mut rects: Vec<(usize, Rect)> = Vec::new();
    collect_rects(area, layout, &mut rects);
    assert(rects@ =~= rects_spec(area, *layout));
    sort_by_pane(&rects)
}

/// Whether `rect` is large enough to be split along `axis` into two panes of
/// at least the minimum size.
pub fn can_split_rect(rect: Rect, axis: SplitAxis) -> (b: bool)
    ensures
        b == (rect.width >= MIN_PANE_WIDTH && rect.height >= MIN_PANE_HEIGHT && match axis {
            SplitAxis::Vertical => rect.width >= 2 * MIN_PANE_WIDTH,
            SplitAxis::Horizontal => rect.height >= 2 * MIN_PANE_HEIGHT,
        }),
{
    rect.width >= MIN_PANE_WIDTH && rect.height >= MIN_PANE_HEIGHT && match axis {
        SplitAxis::Vertical => rect.width >= MIN_PANE_WIDTH * 2,
        SplitAxis::Horizontal => rect.height >= MIN_PANE_HEIGHT * 2,
    }
}

/// Every pane gets at least the minimum size.
pub open spec fn meets_min_size(rects: Seq<(usize, Rect)>) -> bool {
    forall|i: int|
        0 <= i < rects.len() ==> (#[trigger] rects[i]).1.width >= MIN_PANE_WIDTH && rects[i].1.height
            >= MIN_PANE_HEIGHT
}

/// Whether every pane of `layout`, filling `area`, gets at least the minimum size.
pub fn layout_meets_min_pane_size(area: Rect, layout: &LayoutNode) -> (b: bool)
    ensures
        b == meets_min_size(rects_spec(area, *layout)),
{
    let mut rects: Vec<(usize, Rect)> = Vec::new();
    collect_rects(area, layout, &mut rects);
    assert(rects@ =~= rects_spec(area, *layout));
    let mut i: usize = 0;
    while i < rects.len()
        invariant
            i <= rects.len(),
            rects@ == rects_spec(area, *layout),
            forall|j: int|
                0 <= j < i ==> (#[trigger] rects@[j]).1.width >= MIN_PANE_WIDTH && rects@[j].1.height
                    >= MIN_PANE_HEIGHT,
        decreases rects.len() - i,
    {
        let r = rects[i].1;
        if !(r.width >= MIN_PANE_WIDTH && r.height >= MIN_PANE_HEIGHT) {
            return false;
        }
        i += 1;
    }
    true
}

} // verus!
