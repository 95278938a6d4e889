//! The layout of a dashboard's panes as the user reshapes it: splitting a
//! pane in two, closing a pane, resizing a pane.
use vstd::prelude::*;
use crate::layout::{
    adjust_spec, balanced_spec, default_spec, leaves, lemma_contains_concat, split_spec, LayoutNode,
    SplitAxis,
};
use crate::laws::{law_adjust_keeps_panes, law_split_inserts_new_pane, lemma_balanced_leaves};

verus! {

/// `t` shows each of the panes `0..count` exactly once, and nothing else.
pub open spec fn shows_each_once(t: LayoutNode, count: int) -> bool {
    &&& leaves(t).no_duplicates()
    &&& forall|p: usize| #[trigger] leaves(t).contains(p) <==> p < count
}

/// Every split of `t` gives its first child at most 100 percent.
pub open spec fn ratios_ok(t: LayoutNode) -> bool
    decreases t,
{
    match t {
        LayoutNode::Leaf { .. } => true,
        LayoutNode::Split { ratio_percent, first, second, .. } => ratio_percent <= 100 && ratios_ok(
            *first,
        ) && ratios_ok(*second),
    }
}

/// The index of pane `p` once pane `gone` is closed.
pub open spec fn lowered(p: usize, gone: usize) -> usize {
    if p > gone {
        (p - 1) as usize
    } else {
        p
    }
}

/// `layout` with pane `gone` closed: its leaves go, a split left with one
/// child is replaced by that child, and the panes after `gone` move down by
/// one; `None` when nothing is left.
pub open spec fn close_spec(layout: LayoutNode, gone: usize) -> Option<LayoutNode>
    decreases layout,
{
    match layout {
        LayoutNode::Leaf { pane } => if pane == gone {
            None
        } else {
            Some(LayoutNode::Leaf { pane: lowered(pane, gone) })
        },
        LayoutNode::Split { axis, ratio_percent, first, second } => {
            match (close_spec(*first, gone), close_spec(*second, gone)) {
                (Some(f), Some(s)) => Some(
                    LayoutNode::Split { axis, ratio_percent, first: Box::new(f), second: Box::new(s) },
                ),
                (Some(n), None) => Some(n),
                (None, Some(n)) => Some(n),
                (None, None) => None,
            }
        },
    }
}

/// Closes pane `gone` in `layout` (see [`close_spec`]).
pub fn close_pane(layout: LayoutNode, gone: usize) -> (r: Option<LayoutNode>)
    ensures
        r == close_spec(layout, gone),
    decreases layout,
{
    match layout {
        LayoutNode::Leaf { pane } => {
            if pane == gone {
                None
            } else if pane > gone {
                Some(LayoutNode::Leaf { pane: pane - 1 })
            } else {
                Some(LayoutNode::Leaf { pane })
            }
        },
        LayoutNode::Split { axis, ratio_percent, first, second } => {
            match (close_pane(*first, gone), close_pane(*second, gone)) {
                (Some(f), Some(s)) => Some(
                    LayoutNode::Split { axis, ratio_percent, first: Box::new(f), second: Box::new(s) },
                ),
                (Some(n), None) => Some(n),
                (None, Some(n)) => Some(n),
                (None, None) => None,
            }
        },
    }
}

proof fn lemma_leaf_contains(pane: usize, q: usize)
    ensures
        leaves(LayoutNode::Leaf { pane }).contains(q) <==> q == pane,
{
    let s = leaves(LayoutNode::Leaf { pane });
    assert(s =~= seq![pane]);
    if q == pane {
        assert(s[0] == q);
    }
}

proof fn lemma_concat_no_dup(a: Seq<usize>, b: Seq<usize>)
    requires
        (a + b).no_duplicates(),
    ensures
        a.no_duplicates(),
        b.no_duplicates(),
        forall|p: usize| a.contains(p) ==> !b.contains(p),
{
    assert forall|i: int, j: int| 0 <= i < a.len() && 0 <= j < a.len() && i != j implies a[i] != a[j] by {
        assert((a + b)[i] == a[i] && (a + b)[j] == a[j]);
    }
    assert forall|i: int, j: int| 0 <= i < b.len() && 0 <= j < b.len() && i != j implies b[i] != b[j] by {
        assert((a + b)[a.len() + i] == b[i] && (a + b)[a.len() + j] == b[j]);
    }
    assert forall|p: usize| a.contains(p) implies !b.contains(p) by {
        if b.contains(p) {
            let i = choose|i: int| 0 <= i < a.len() && a[i] == p;
            let j = choose|j: int| 0 <= j < b.len() && b[j] == p;
            assert((a + b)[i] == p && (a + b)[a.len() + j] == p);
        }
    }
}

/// What a closed layout shows, in terms of what it showed.
pub open spec fn closed_contents(t: LayoutNode, gone: usize, q: usize) -> bool {
    ||| q < gone && leaves(t).contains(q)
    ||| gone <= q && q < usize::MAX && leaves(t).contains((q + 1) as usize)
}

proof fn lemma_close(t: LayoutNode, g: usize)
    requires
        leaves(t).no_duplicates(),
    ensures
        match close_spec(t, g) {
            Some(r) => leaves(r).no_duplicates() && forall|q: usize|
                #[trigger] leaves(r).contains(q) <==> closed_contents(t, g, q),
            None => forall|p: usize| #[trigger] leaves(t).contains(p) ==> p == g,
        },
    decreases t,
{
    match t {
        LayoutNode::Leaf { pane } => {
            assert forall|p: usize| #[trigger] leaves(t).contains(p) <==> p == pane by {
                lemma_leaf_contains(pane, p);
            }
            if pane != g {
                let l = lowered(pane, g);
                assert(leaves(LayoutNode::Leaf { pane: l }) =~= seq![l]);
                assert forall|q: usize| #[trigger]
                    leaves(LayoutNode::Leaf { pane: l }).contains(q) <==> closed_contents(t, g, q) by {
                    lemma_leaf_contains(l, q);
                    if q < usize::MAX {
                        lemma_leaf_contains(pane, (q + 1) as usize);
                    }
                }
            }
        },
        LayoutNode::Split { axis, ratio_percent, first, second } => {
            let a = leaves(*first);
            let b = leaves(*second);
            lemma_concat_no_dup(a, b);
            lemma_close(*first, g);
            lemma_close(*second, g);
            assert forall|p: usize| #[trigger] leaves(t).contains(p) <==> (a.contains(p) || b.contains(p)) by {
                lemma_contains_concat(a, b, p);
            }
            match (close_spec(*first, g), close_spec(*second, g)) {
                (Some(f), Some(s)) => {
                    let lf = leaves(f);
                    let ls = leaves(s);
                    assert forall|q: usize| #[trigger] (lf + ls).contains(q) <==> closed_contents(t, g, q) by {
                        lemma_contains_concat(lf, ls, q);
                        assert(lf.contains(q) == closed_contents(*first, g, q));
                        assert(ls.contains(q) == closed_contents(*second, g, q));
                        if q < usize::MAX {
                            assert(leaves(t).contains((q + 1) as usize) <==> (a.contains(
                                (q + 1) as usize,
                            ) || b.contains((q + 1) as usize)));
                        }
                        assert(leaves(t).contains(q) <==> (a.contains(q) || b.contains(q)));
                    }
                    assert forall|i: int, j: int| 0 <= i < lf.len() && 0 <= j < ls.len() implies lf[i]
                        != ls[j] by {
                        if lf[i] == ls[j] {
                            let q = lf[i];
                            assert(lf.contains(q));
                            assert(ls.contains(q));
                            assert(closed_contents(*first, g, q));
                            assert(closed_contents(*second, g, q));
                            if q < g {
                                assert(a.contains(q));
                            } else {
                                assert(a.contains((q + 1) as usize));
                            }
                        }
                    }
                    vstd::seq_lib::lemma_no_dup_in_concat(lf, ls);
                    assert(leaves(close_spec(t, g)->0) == lf + ls);
                },
                (Some(n), None) => {
                    assert forall|q: usize| #[trigger] leaves(n).contains(q) <==> closed_contents(t, g, q) by {
                        assert(leaves(n).contains(q) == closed_contents(*first, g, q));
                        if q < usize::MAX {
                            assert(leaves(t).contains((q + 1) as usize) <==> (a.contains(
                                (q + 1) as usize,
                            ) || b.contains((q + 1) as usize)));
                        }
                        assert(leaves(t).contains(q) <==> (a.contains(q) || b.contains(q)));
                    }
                },
                (None, Some(n)) => {
                    assert forall|q: usize| #[trigger] leaves(n).contains(q) <==> closed_contents(t, g, q) by {
                        assert(leaves(n).contains(q) == closed_contents(*second, g, q));
                        if q < usize::MAX {
                            assert(leaves(t).contains((q + 1) as usize) <==> (a.contains(
                                (q + 1) as usize,
                            ) || b.contains((q + 1) as usize)));
                        }
                        assert(leaves(t).contains(q) <==> (a.contains(q) || b.contains(q)));
                    }
                },
                (None, None) => {},
            }
        },
    }
}

proof fn lemma_close_ratios(t: LayoutNode, g: usize)
    requires
        ratios_ok(t),
    ensures
        close_spec(t, g) matches Some(r) ==> ratios_ok(r),
    decreases t,
{
    if let LayoutNode::Split { first, second, .. } = t {
        lemma_close_ratios(*first, g);
        lemma_close_ratios(*second, g);
    }
}

/// Closing one of the panes of a layout that shows `count >= 2` panes once
/// each leaves a layout that shows the other `count - 1` once each.
pub proof fn lemma_close_shows(t: LayoutNode, count: int, g: usize)
    requires
        shows_each_once(t, count),
        ratios_ok(t),
        g < count,
        2 <= count <= usize::MAX,
    ensures
        close_spec(t, g) matches Some(r) && shows_each_once(r, count - 1) && ratios_ok(r),
{
    lemma_close(t, g);
    lemma_close_ratios(t, g);
    let other: usize = if g == 0 {
        1
    } else {
        0
    };
    assert(leaves(t).contains(other));
    let r = close_spec(t, g)->0;
    assert forall|q: usize| #[trigger] leaves(r).contains(q) <==> q < count - 1 by {
        assert(leaves(r).contains(q) == closed_contents(t, g, q));
        if q < usize::MAX {
            assert(leaves(t).contains((q + 1) as usize) <==> q + 1 < count);
        }
        assert(leaves(t).contains(q) <==> q < count);
    }
}

proof fn lemma_split_ratios(t: LayoutNode, target: usize, axis: SplitAxis, new_pane: usize)
    requires
        ratios_ok(t),
    ensures
        split_spec(t, target, axis, new_pane) matches Some(r) ==> ratios_ok(r),
    decreases t,
{
    reveal_with_fuel(ratios_ok, 2);
    if let LayoutNode::Split { first, second, .. } = t {
        lemma_split_ratios(*first, target, axis, new_pane);
        lemma_split_ratios(*second, target, axis, new_pane);
    }
}

/// Splitting pane `target` of a layout that shows `count` panes once each,
/// to show the new pane `count`, gives a layout that shows `count + 1` panes
/// once each.
pub proof fn lemma_split_shows(t: LayoutNode, count: usize, target: usize, axis: SplitAxis)
    requires
        shows_each_once(t, count as int),
        ratios_ok(t),
        target < count,
    ensures
        split_spec(t, target, axis, count) matches Some(r) && shows_each_once(r, count + 1)
            && ratios_ok(r),
{
    law_split_inserts_new_pane(t, target, axis, count);
    lemma_split_ratios(t, target, axis, count);
    assert(leaves(t).contains(target));
    let s = leaves(t);
    let i = choose|i: int|
        0 <= i < s.len() && s[i] == target && (forall|j: int| 0 <= j < i ==> s[j] != target) && (
        split_spec(t, target, axis, count) matches Some(r) && leaves(r) == s.insert(i + 1, count));
    let r = split_spec(t, target, axis, count)->0;
    let ins = s.insert(i + 1, count);
    assert(leaves(r) == ins);
    assert forall|k: int| 0 <= k < ins.len() implies (#[trigger] ins[k] == count) == (k == i + 1) by {
        if k != i + 1 {
            let m = if k < i + 1 {
                k
            } else {
                k - 1
            };
            assert(ins[k] == s[m]);
            assert(s.contains(s[m]));
        }
    }
    assert forall|a: int, b: int| 0 <= a < ins.len() && 0 <= b < ins.len() && a != b implies ins[a]
        != ins[b] by {
        if ins[a] == ins[b] && ins[a] != count {
            let ma = if a < i + 1 {
                a
            } else {
                a - 1
            };
            let mb = if b < i + 1 {
                b
            } else {
                b - 1
            };
            assert(ins[a] == s[ma] && ins[b] == s[mb]);
        }
    }
    assert forall|p: usize| #[trigger] ins.contains(p) <==> p < count + 1 by {
        if p == count {
            assert(ins[i + 1] == count);
        } else if p < count {
            assert(s.contains(p));
            let m = choose|m: int| 0 <= m < s.len() && s[m] == p;
            if m < i + 1 {
                assert(ins[m] == p);
            } else {
                assert(ins[m + 1] == p);
            }
        }
        if ins.contains(p) && p != count {
            let k = choose|k: int| 0 <= k < ins.len() && ins[k] == p;
            let m = if k < i + 1 {
                k
            } else {
                k - 1
            };
            assert(ins[k] == s[m]);
            assert(s.contains(p));
        }
    }
}

proof fn lemma_adjust_ratios(t: LayoutNode, target: usize, axis: SplitAxis, delta: i16)
    requires
        ratios_ok(t),
        -100 <= delta <= 100,
    ensures
        adjust_spec(t, target, axis, delta) matches Some((r, _)) && ratios_ok(r),
    decreases t,
{
    if let LayoutNode::Split { first, second, ratio_percent, .. } = t {
        lemma_adjust_ratios(*first, target, axis, delta);
        lemma_adjust_ratios(*second, target, axis, delta);
        assert((ratio_percent as i16) as int == ratio_percent as int);
    }
}

/// Resizing pane `target` of a layout that shows `count` panes once each,
/// by at most 100 percent, is defined, keeps that, and keeps every ratio at
/// most 100.
pub proof fn lemma_adjust_shows(t: LayoutNode, count: int, target: usize, axis: SplitAxis, delta: i16)
    requires
        shows_each_once(t, count),
        ratios_ok(t),
        -100 <= delta <= 100,
    ensures
        adjust_spec(t, target, axis, delta) matches Some((r, _)) && shows_each_once(r, count)
            && ratios_ok(r),
{
    lemma_adjust_ratios(t, target, axis, delta);
    law_adjust_keeps_panes(t, target, axis, delta);
}

proof fn lemma_balanced_ratios(start: int, count: int)
    ensures
        ratios_ok(balanced_spec(start, count)),
    decreases count,
{
    if count > 1 {
        lemma_balanced_ratios(start, count / 2);
        lemma_balanced_ratios(start + count / 2, count - count / 2);
    }
}

/// The layout a fresh dashboard of `count >= 1` panes starts with shows each
/// of them once, with every ratio at most 100.
pub proof fn lemma_default_shows(count: usize)
    requires
        count >= 1,
    ensures
        shows_each_once(default_spec(count), count as int),
        ratios_ok(default_spec(count)),
{
    let t = default_spec(count);
    let want = Seq::new(count as nat, |i: int| i as usize);
    reveal_with_fuel(leaves, 4);
    reveal_with_fuel(ratios_ok, 4);
    if count == 1 {
        assert(leaves(t) =~= want);
    } else if count == 2 {
        assert(leaves(t) =~= want);
    } else if count == 3 {
        assert(leaves(t) =~= want);
    } else {
        lemma_balanced_leaves(0, count as int);
        lemma_balanced_ratios(0, count as int);
        assert(leaves(t) =~= want);
    }
    assert forall|p: usize| #[trigger] want.contains(p) <==> p < count by {
        if p < count {
            assert(want[p as int] == p);
        }
    }
}

proof fn lemma_close_above(t: LayoutNode, g: usize)
    requires
        forall|p: usize| #[trigger] leaves(t).contains(p) ==> p < g,
    ensures
        close_spec(t, g) == Some(t),
    decreases t,
{
    match t {
        LayoutNode::Leaf { pane } => {
            lemma_leaf_contains(pane, pane);
        },
        LayoutNode::Split { first, second, .. } => {
            assert forall|p: usize| #[trigger] leaves(*first).contains(p) implies p < g by {
                lemma_contains_concat(leaves(*first), leaves(*second), p);
                assert(leaves(t) == leaves(*first) + leaves(*second));
                assert(leaves(t).contains(p));
            }
            assert forall|p: usize| #[trigger] leaves(*second).contains(p) implies p < g by {
                lemma_contains_concat(leaves(*first), leaves(*second), p);
                assert(leaves(t) == leaves(*first) + leaves(*second));
                assert(leaves(t).contains(p));
            }
            lemma_close_above(*first, g);
            lemma_close_above(*second, g);
        },
    }
}

/// Splitting a pane to show a new pane numbered above every pane shown, and
/// then closing that new pane, gives back the layout as it was.
pub proof fn law_close_undoes_split(t: LayoutNode, target: usize, axis: SplitAxis, new_pane: usize)
    requires
        forall|p: usize| #[trigger] leaves(t).contains(p) ==> p < new_pane,
    ensures
        split_spec(t, target, axis, new_pane) matches Some(r) ==> close_spec(r, new_pane) == Some(t),
    decreases t,
{
    match t {
        LayoutNode::Leaf { pane } => {
            lemma_leaf_contains(pane, pane);
            let kept = LayoutNode::Leaf { pane };
            let added = LayoutNode::Leaf { pane: new_pane };
            assert(close_spec(kept, new_pane) == Some(kept));
            assert(close_spec(added, new_pane) is None);
        },
        LayoutNode::Split { first, second, .. } => {
            assert forall|p: usize| #[trigger] leaves(*first).contains(p) implies p < new_pane by {
                lemma_contains_concat(leaves(*first), leaves(*second), p);
                assert(leaves(t) == leaves(*first) + leaves(*second));
                assert(leaves(t).contains(p));
            }
            assert forall|p: usize| #[trigger] leaves(*second).contains(p) implies p < new_pane by {
                lemma_contains_concat(leaves(*first), leaves(*second), p);
                assert(leaves(t) == leaves(*first) + leaves(*second));
                assert(leaves(t).contains(p));
            }
            law_close_undoes_split(*first, target, axis, new_pane);
            law_close_undoes_split(*second, target, axis, new_pane);
            lemma_close_above(*first, new_pane);
            lemma_close_above(*second, new_pane);
        },
    }
}

} // verus!
