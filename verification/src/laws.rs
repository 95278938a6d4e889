//! Properties of the library that span several operations or every input.
use vstd::prelude::*;
use crate::app::{app_from_preset, output_lines, lemma_output_lines_len, saved_view, App, PaneView, VarFieldView, MAX_OUTPUT_LINES};
use crate::preset::Preset;
use crate::theme::Theme;
use crate::keys::{current_layout, pane_closed, pane_split, Reply, adjusted_interval, backspaced, focus_target, focused_of, key_step, KeyCode, KeyEvent, grid_of, interval_choice, lemma_grid_of, moved_left, moved_right, room, typed};
use crate::ansi::{flushed, scan, start_state, ParseState, Style};
use crate::app::{AppView, Mode};
use crate::layout::{grid_for_count, grid_spec};
use crate::layout::{
    adjust_spec, balanced_spec, default_spec, is_valid_tree, leaves, remove_spec, split_node, split_spec,
    LayoutNode, SplitAxis,
};
use crate::names::{has_key, value_of};
use crate::runner::{marked, started, starts, ticked};
use crate::text::trim;
use crate::panes::{law_close_undoes_split, lemma_default_shows, shows_each_once};
use crate::vars::{lemma_ref_at, ref_at, ref_names, refs_from, render_from};

verus! {

// ----- layout trees -----

proof fn lemma_split_some_iff(t: LayoutNode, target: usize, axis: SplitAxis, new_pane: usize)
    ensures
        split_spec(t, target, axis, new_pane) is Some <==> leaves(t).contains(target),
    decreases t,
{
    match t {
        LayoutNode::Leaf { pane } => {
            assert(leaves(t) =~= seq![pane]);
            if leaves(t).contains(target) {
                let i = choose|i: int| 0 <= i < leaves(t).len() && leaves(t)[i] == target;
                assert(i == 0);
            }
            if pane == target {
                assert(leaves(t)[0] == target);
            }
        },
        LayoutNode::Split { first, second, .. } => {
            lemma_split_some_iff(*first, target, axis, new_pane);
            lemma_split_some_iff(*second, target, axis, new_pane);
            crate::layout::lemma_contains_concat(leaves(*first), leaves(*second), target);
        },
    }
}

proof fn lemma_split_leaves(t: LayoutNode, target: usize, axis: SplitAxis, new_pane: usize) -> (i: int)
    requires
        leaves(t).contains(target),
    ensures
        0 <= i < leaves(t).len(),
        leaves(t)[i] == target,
        forall|j: int| 0 <= j < i ==> leaves(t)[j] != target,
        split_spec(t, target, axis, new_pane) matches Some(r) && leaves(r) == leaves(t).insert(
            i + 1,
            new_pane,
        ),
    decreases t,
{
    match t {
        LayoutNode::Leaf { pane } => {
            let i = choose|i: int| 0 <= i < leaves(t).len() && leaves(t)[i] == target;
            assert(i == 0);
            let r = split_node(axis, LayoutNode::Leaf { pane: target }, LayoutNode::Leaf { pane: new_pane });
            assert(leaves(LayoutNode::Leaf { pane: target }) =~= seq![target]);
            assert(leaves(LayoutNode::Leaf { pane: new_pane }) =~= seq![new_pane]);
            assert(leaves(r) =~= leaves(t).insert(1, new_pane));
            0
        },
        LayoutNode::Split { axis: a, ratio_percent, first, second } => {
            let lf = leaves(*first);
            let ls = leaves(*second);
            crate::layout::lemma_contains_concat(lf, ls, target);
            lemma_split_some_iff(*first, target, axis, new_pane);
            if lf.contains(target) {
                let i = lemma_split_leaves(*first, target, axis, new_pane);
                let f = split_spec(*first, target, axis, new_pane)->0;
                assert(leaves(t) =~= lf + ls);
                assert(lf.insert(i + 1, new_pane) + ls =~= (lf + ls).insert(i + 1, new_pane));
                i
            } else {
                let i2 = lemma_split_leaves(*second, target, axis, new_pane);
                assert(leaves(t) =~= lf + ls);
                assert(forall|j: int| 0 <= j < lf.len() ==> lf[j] != target);
                assert(lf + ls.insert(i2 + 1, new_pane) =~= (lf + ls).insert(
                    lf.len() + i2 + 1,
                    new_pane,
                ));
                lf.len() + i2
            }
        },
    }
}

/// Splitting the pane `target`, when the layout shows it, puts `new_pane`
/// right after the first place `target` is shown and changes nothing else in
/// the order of the panes; when the layout does not show `target`, the split
/// is refused.
pub proof fn law_split_inserts_new_pane(t: LayoutNode, target: usize, axis: SplitAxis, new_pane: usize)
    ensures
        leaves(t).contains(target) ==> exists|i: int|
            0 <= i < leaves(t).len() && leaves(t)[i] == target && (forall|j: int|
                0 <= j < i ==> leaves(t)[j] != target) && (split_spec(
                t,
                target,
                axis,
                new_pane,
            ) matches Some(r) && leaves(r) == leaves(t).insert(i + 1, new_pane)),
        !leaves(t).contains(target) ==> split_spec(t, target, axis, new_pane) is None,
{
    lemma_split_some_iff(t, target, axis, new_pane);
    if leaves(t).contains(target) {
        let i = lemma_split_leaves(t, target, axis, new_pane);
    }
}

/// Removing pane `k` leaves every other pane in its order; the layout goes
/// away exactly when it showed nothing but `k`.
pub proof fn law_remove_keeps_other_panes(t: LayoutNode, k: usize)
    ensures
        match remove_spec(t, k) {
            Some(r) => leaves(r) == leaves(t).filter(|p: usize| p != k),
            None => leaves(t).filter(|p: usize| p != k).len() == 0,
        },
    decreases t,
{
    match t {
        LayoutNode::Leaf { pane } => {
            assert(leaves(t) =~= seq![pane]);
            reveal_with_fuel(Seq::filter, 2);
            assert(seq![pane].drop_last() =~= Seq::<usize>::empty());
        },
        LayoutNode::Split { first, second, .. } => {
            law_remove_keeps_other_panes(*first, k);
            law_remove_keeps_other_panes(*second, k);
            Seq::filter_distributes_over_add(leaves(*first), leaves(*second), |p: usize| p != k);
            match (remove_spec(*first, k), remove_spec(*second, k)) {
                (Some(f), Some(s)) => {},
                (Some(n), None) => {
                    assert(leaves(*first).filter(|p: usize| p != k) + leaves(*second).filter(
                        |p: usize| p != k,
                    ) =~= leaves(*first).filter(|p: usize| p != k));
                },
                (None, Some(n)) => {
                    assert(leaves(*first).filter(|p: usize| p != k) + leaves(*second).filter(
                        |p: usize| p != k,
                    ) =~= leaves(*second).filter(|p: usize| p != k));
                },
                (None, None) => {},
            }
        },
    }
}

proof fn lemma_remove_absent(t: LayoutNode, k: usize)
    requires
        !leaves(t).contains(k),
    ensures
        remove_spec(t, k) == Some(t),
    decreases t,
{
    match t {
        LayoutNode::Leaf { pane } => {
            assert(leaves(t)[0] == pane);
        },
        LayoutNode::Split { first, second, .. } => {
            crate::layout::lemma_contains_concat(leaves(*first), leaves(*second), k);
            lemma_remove_absent(*first, k);
            lemma_remove_absent(*second, k);
        },
    }
}

/// Splitting a pane to show a new pane, one the layout did not show yet, and
/// then removing that new pane gives back the layout as it was.
pub proof fn law_remove_undoes_split(t: LayoutNode, target: usize, axis: SplitAxis, new_pane: usize)
    requires
        !leaves(t).contains(new_pane),
    ensures
        split_spec(t, target, axis, new_pane) matches Some(r) ==> remove_spec(r, new_pane) == Some(t),
    decreases t,
{
    match t {
        LayoutNode::Leaf { pane } => {
            assert(leaves(t)[0] == pane);
            let kept = LayoutNode::Leaf { pane };
            let added = LayoutNode::Leaf { pane: new_pane };
            assert(remove_spec(kept, new_pane) == Some(kept));
            assert(remove_spec(added, new_pane) is None);
        },
        LayoutNode::Split { first, second, .. } => {
            crate::layout::lemma_contains_concat(leaves(*first), leaves(*second), new_pane);
            law_remove_undoes_split(*first, target, axis, new_pane);
            law_remove_undoes_split(*second, target, axis, new_pane);
            lemma_remove_absent(*first, new_pane);
            lemma_remove_absent(*second, new_pane);
        },
    }
}

/// Resizing a pane never changes which panes the layout shows, nor their
/// order.
pub proof fn law_adjust_keeps_panes(t: LayoutNode, target: usize, axis: SplitAxis, delta: i16)
    ensures
        adjust_spec(t, target, axis, delta) matches Some((r, _)) ==> leaves(r) == leaves(t),
    decreases t,
{
    match t {
        LayoutNode::Leaf { .. } => {},
        LayoutNode::Split { first, second, .. } => {
            law_adjust_keeps_panes(*first, target, axis, delta);
            law_adjust_keeps_panes(*second, target, axis, delta);
        },
    }
}

pub(crate) proof fn lemma_balanced_leaves(start: int, count: int)
    requires
        count >= 1,
        0 <= start,
        start + count <= usize::MAX + 1,
    ensures
        leaves(balanced_spec(start, count)) == Seq::new(count as nat, |i: int| (start + i) as usize),
    decreases count,
{
    if count > 1 {
        let left = count / 2;
        lemma_balanced_leaves(start, left);
        lemma_balanced_leaves(start + left, count - left);
        assert(leaves(balanced_spec(start, count)) =~= Seq::new(
            count as nat,
            |i: int| (start + i) as usize,
        ));
    } else {
        assert(leaves(balanced_spec(start, count)) =~= Seq::new(
            count as nat,
            |i: int| (start + i) as usize,
        ));
    }
}

/// A fresh dashboard's layout shows each of its panes exactly once.
pub proof fn law_default_tree_is_valid(count: usize)
    requires
        count >= 1,
    ensures
        is_valid_tree(default_spec(count), count),
{
    let t = default_spec(count);
    let want = Seq::new(count as nat, |i: int| i as usize);
    reveal_with_fuel(leaves, 4);
    if count == 1 {
        assert(leaves(t) =~= want);
    } else if count == 2 {
        assert(leaves(t) =~= want);
    } else if count == 3 {
        assert(leaves(t) =~= want);
    } else {
        lemma_balanced_leaves(0, count as int);
        assert(leaves(t) =~= want);
    }
    assert(want.to_set() =~= Set::new(|p: usize| p < count)) by {
        assert forall|p: usize| p < count implies want.to_set().contains(p) by {
            assert(want[p as int] == p);
        }
    }
}

// ----- variables -----

/// A variable may be used: it is declared and its value is not empty.
pub open spec fn usable(vars: Seq<(Seq<char>, Seq<char>)>, name: Seq<char>) -> bool {
    has_key(vars, name) && value_of(vars, name).len() > 0
}

/// Every reference in `rs` names a usable variable.
pub open spec fn refs_usable(
    s: Seq<char>,
    rs: Seq<(int, int, int, int)>,
    vars: Seq<(Seq<char>, Seq<char>)>,
) -> bool {
    forall|k: int| 0 <= k < rs.len() ==> usable(vars, s.subrange((#[trigger] rs[k]).2, rs[k].3))
}

proof fn lemma_render_ok_from(s: Seq<char>, i: int, vars: Seq<(Seq<char>, Seq<char>)>)
    requires
        0 <= i,
    ensures
        render_from(s, i, vars) is Ok <==> refs_usable(s, refs_from(s, i), vars),
    decreases s.len() - i,
{
    if i < s.len() {
        match ref_at(s, i) {
            Some((e, ns, ne)) => {
                lemma_ref_at(s, i);
                lemma_render_ok_from(s, e, vars);
                let rest = refs_from(s, e);
                let rs = refs_from(s, i);
                assert(rs =~= seq![(i, e, ns, ne)] + rest);
                assert(rs[0] == (i, e, ns, ne));
                if refs_usable(s, rs, vars) {
                    assert(usable(vars, s.subrange(rs[0].2, rs[0].3)));
                    assert forall|k: int| 0 <= k < rest.len() implies usable(
                        vars,
                        s.subrange((#[trigger] rest[k]).2, rest[k].3),
                    ) by {
                        assert(rs[k + 1] == rest[k]);
                    }
                    assert(refs_usable(s, rest, vars));
                }
                if render_from(s, i, vars) is Ok {
                    assert(usable(vars, s.subrange(ns, ne)));
                    assert forall|k: int| 0 <= k < rs.len() implies usable(
                        vars,
                        s.subrange((#[trigger] rs[k]).2, rs[k].3),
                    ) by {
                        if k > 0 {
                            assert(rs[k] == rest[k - 1]);
                        }
                    }
                }
            },
            None => {
                lemma_render_ok_from(s, i + 1, vars);
            },
        }
    }
}

/// Substituting variables into a text succeeds exactly when every name it
/// references is declared with a non-empty value.
pub proof fn law_substitute_ok_iff_usable(s: Seq<char>, vars: Seq<(Seq<char>, Seq<char>)>)
    ensures
        render_from(s, 0, vars) is Ok <==> forall|k: int|
            0 <= k < ref_names(s).len() ==> usable(vars, #[trigger] ref_names(s)[k]),
{
    lemma_render_ok_from(s, 0, vars);
    let rs = refs_from(s, 0);
    assert forall|k: int| 0 <= k < rs.len() implies ref_names(s)[k] == s.subrange(
        (#[trigger] rs[k]).2,
        rs[k].3,
    ) by {}
    if render_from(s, 0, vars) is Ok {
        assert forall|k: int| 0 <= k < ref_names(s).len() implies usable(
            vars,
            #[trigger] ref_names(s)[k],
        ) by {
            assert(ref_names(s)[k] == s.subrange(rs[k].2, rs[k].3));
        }
    } else {
        let k = choose|k: int| 0 <= k < rs.len() && !usable(vars, s.subrange((#[trigger] rs[k]).2, rs[k].3));
        assert(ref_names(s)[k] == s.subrange(rs[k].2, rs[k].3));
    }
}

proof fn lemma_no_refs_unchanged(s: Seq<char>, i: int, vars: Seq<(Seq<char>, Seq<char>)>)
    requires
        0 <= i <= s.len(),
        refs_from(s, i).len() == 0,
    ensures
        render_from(s, i, vars) == Ok::<Seq<char>, crate::vars::SubstFailure>(s.skip(i)),
    decreases s.len() - i,
{
    if i < s.len() {
        match ref_at(s, i) {
            Some((e, ns, ne)) => {
                lemma_ref_at(s, i);
            },
            None => {
                lemma_no_refs_unchanged(s, i + 1, vars);
                assert(seq![s[i]] + s.skip(i + 1) =~= s.skip(i));
            },
        }
    } else {
        assert(s.skip(i) =~= Seq::<char>::empty());
    }
}

/// A text that references no variable comes out of substitution unchanged.
pub proof fn law_text_without_refs_unchanged(s: Seq<char>, vars: Seq<(Seq<char>, Seq<char>)>)
    requires
        ref_names(s).len() == 0,
    ensures
        render_from(s, 0, vars) == Ok::<Seq<char>, crate::vars::SubstFailure>(s),
{
    lemma_no_refs_unchanged(s, 0, vars);
    assert(s.skip(0) =~= s);
}

// ----- text fields -----

/// Typing a character and then deleting it gives the field back.
pub proof fn law_type_then_backspace(t: (Seq<char>, int), ch: char)
    requires
        0 <= t.1 <= t.0.len(),
        room(t),
    ensures
        backspaced(typed(t, ch)) == t,
{
    assert(t.0.insert(t.1, ch).remove(t.1) =~= t.0);
}

/// Moving left and then right gives the cursor back, unless it was at the
/// start.
pub proof fn law_left_then_right(t: (Seq<char>, int))
    requires
        0 < t.1 <= t.0.len(),
    ensures
        moved_right(moved_left(t)) == t,
{
}

// ----- scheduling -----

/// A pane never starts a run while its previous run is still going, and a
/// pane that starts is running afterwards; a running pane stays running.
pub proof fn law_tick_never_overlaps(p: PaneView, now: u64, wall: u64, global_paused: bool)
    ensures
        starts(marked(p, now), now, global_paused) ==> !p.running,
        starts(marked(p, now), now, global_paused) ==> ticked(p, now, wall, global_paused).running,
        p.running ==> ticked(p, now, wall, global_paused).running && !starts(
            marked(p, now),
            now,
            global_paused,
        ),
{
}

/// On a tick, the panes that start a run are exactly those that are not
/// running, have a command, are not paused (alone or with all panes) unless
/// asked to run once, and are due or asked to run once; a running pane never
/// starts a second run.
pub proof fn law_tick_starts_only_idle_panes(ps: Seq<PaneView>, now: u64, global_paused: bool)
    requires
        forall|i: int| 0 <= i < ps.len() ==> (#[trigger] ps[i]).id == i,
    ensures
        forall|i: int|
            0 <= i < ps.len() ==> (started(ps, now, global_paused).contains(#[trigger] ps[i].id) <==> {
                &&& !ps[i].running
                &&& trim(ps[i].cmd).len() > 0
                &&& (!(global_paused || ps[i].paused) || ps[i].pending_run_once)
                &&& (ps[i].pending_run_once || now >= ps[i].next_run)
            }),
        forall|i: int| 0 <= i < ps.len() && (#[trigger] ps[i]).running ==> !started(
            ps,
            now,
            global_paused,
        ).contains(ps[i].id),
    decreases ps.len(),
{
    if ps.len() > 0 {
        let rest = ps.drop_last();
        law_tick_starts_only_idle_panes(rest, now, global_paused);
        let last = ps.last();
        assert forall|i: int| 0 <= i < ps.len() implies (started(ps, now, global_paused).contains(
            #[trigger] ps[i].id,
        ) <==> starts(marked(ps[i], now), now, global_paused)) by {
            let sr = started(rest, now, global_paused);
            if i < ps.len() - 1 {
                assert(rest[i] == ps[i]);
                assert(sr.contains(ps[i].id) <==> starts(marked(ps[i], now), now, global_paused));
                if starts(marked(last, now), now, global_paused) {
                    assert(started(ps, now, global_paused) == sr.push(last.id));
                    if sr.push(last.id).contains(ps[i].id) && !sr.contains(ps[i].id) {
                        let k = choose|k: int| 0 <= k < sr.len() + 1 && sr.push(last.id)[k] == ps[i].id;
                        assert(k == sr.len());
                        assert(last.id == ps.len() - 1);
                    }
                    if sr.contains(ps[i].id) {
                        let k = choose|k: int| 0 <= k < sr.len() && sr[k] == ps[i].id;
                        assert(sr.push(last.id)[k] == ps[i].id);
                    }
                }
            } else {
                lemma_started_below(rest, now, global_paused);
                if starts(marked(last, now), now, global_paused) {
                    assert(sr.push(last.id)[sr.len() as int] == last.id);
                } else {
                    if sr.contains(last.id) {
                        let k = choose|k: int| 0 <= k < sr.len() && sr[k] == last.id;
                    }
                }
            }
        }
    }
}

proof fn lemma_started_below(ps: Seq<PaneView>, now: u64, global_paused: bool)
    requires
        forall|i: int| 0 <= i < ps.len() ==> (#[trigger] ps[i]).id == i,
    ensures
        forall|k: int| 0 <= k < started(ps, now, global_paused).len() ==> (#[trigger] started(ps, now, global_paused)[k]) < ps.len(),
    decreases ps.len(),
{
    if ps.len() > 0 {
        let rest = ps.drop_last();
        assert forall|i: int| 0 <= i < rest.len() implies (#[trigger] rest[i]).id == i by {
            assert(rest[i] == ps[i]);
        }
        lemma_started_below(rest, now, global_paused);
        assert(ps.last().id == ps.len() - 1);
        let sr = started(rest, now, global_paused);
        assert forall|k: int| 0 <= k < started(ps, now, global_paused).len() implies (#[trigger] started(
            ps,
            now,
            global_paused,
        )[k]) < ps.len() by {
            if k < sr.len() {
                assert(sr[k] < rest.len());
            }
        }
    }
}

/// A pane keeps between one and `MAX_OUTPUT_LINES` lines of output.
pub proof fn law_output_is_capped(s: Seq<char>)
    ensures
        1 <= output_lines(s).len() <= MAX_OUTPUT_LINES,
{
    lemma_output_lines_len(s);
}

// ----- saving and resuming -----

/// A dashboard saved as a preset and opened again has the same panes (title,
/// command, interval, paused), in the same order, the same focus and the
/// same default interval.
pub proof fn law_saved_view_resumes(
    a: App,
    name: Option<Seq<char>>,
    p: Preset,
    theme: Theme,
    loaded: Option<Seq<char>>,
    fields: Seq<VarFieldView>,
    now: u64,
)
    requires
        a.wf(),
        saved_view(a, name, p),
    ensures
        ({
            let v = app_from_preset(p, theme, loaded, fields, now);
            &&& v.panes.len() == a@.panes.len()
            &&& forall|i: int|
                0 <= i < v.panes.len() ==> (#[trigger] v.panes[i]).title == a@.panes[i].title
                    && v.panes[i].cmd == a@.panes[i].cmd && v.panes[i].interval_ms
                    == a@.panes[i].interval_ms && v.panes[i].paused == a@.panes[i].paused
            &&& v.focused == a@.focused
            &&& v.default_interval_ms == a@.default_interval_ms
        }),
{
    let v = app_from_preset(p, theme, loaded, fields, now);
    assert forall|i: int| 0 <= i < v.panes.len() implies (#[trigger] v.panes[i]).title
        == a@.panes[i].title && v.panes[i].cmd == a@.panes[i].cmd && v.panes[i].interval_ms
        == a@.panes[i].interval_ms && v.panes[i].paused == a@.panes[i].paused by {
        assert(a@.panes[i] == a.panes@[i]@);
    }
}

// ----- intervals and focus -----

/// Pressing space (pause the focused pane), `p` (pause every pane) or `?`
/// (help) twice on the dashboard leaves it as it was.
pub proof fn law_toggle_keys_undo(v: AppView, c: char, ctrl: bool, first_ms: u64, second_ms: u64)
    requires
        v.mode == Mode::Normal,
        v.focused < v.panes.len(),
        c == ' ' || c == 'p' || c == '?',
    ensures
        ({
            let key = KeyEvent { code: KeyCode::Char(c), ctrl };
            key_step(key_step(v, key, first_ms).0, key, second_ms).0 == v
        }),
{
    let key = KeyEvent { code: KeyCode::Char(c), ctrl };
    let once = key_step(v, key, first_ms).0;
    if c == ' ' {
        assert(once.panes[v.focused as int] == PaneView {
            paused: !focused_of(v).paused,
            ..focused_of(v)
        });
        assert(key_step(once, key, second_ms).0.panes =~= v.panes);
    }
}

/// Splitting the focused pane (`v` or `b`) and closing the new pane at once
/// (`x`) gives back the same panes in the same arrangement, with the focus
/// on the last pane.
pub proof fn law_split_then_close(v: AppView, c: char, first_ms: u64, second_ms: u64)
    requires
        v.mode == Mode::Normal,
        v.focused < v.panes.len() < usize::MAX,
        v.layout matches Some(t) ==> shows_each_once(t, v.panes.len() as int),
        c == 'v' || c == 'b',
    ensures
        ({
            let split = key_step(v, KeyEvent { code: KeyCode::Char(c), ctrl: false }, first_ms).0;
            key_step(split, KeyEvent { code: KeyCode::Char('x'), ctrl: false }, second_ms) == (
            AppView {
                layout: Some(current_layout(v)),
                focused: (v.panes.len() - 1) as usize,
                ..v
            },
            Reply::ClosedPane(v.panes.len() as usize),
            )
        }),
{
    let n = v.panes.len();
    let axis = if c == 'v' {
        SplitAxis::Vertical
    } else {
        SplitAxis::Horizontal
    };
    let t = current_layout(v);
    if v.layout is None {
        lemma_default_shows(n as usize);
    }
    assert(leaves(t).contains(v.focused));
    law_split_inserts_new_pane(t, v.focused, axis, n as usize);
    law_close_undoes_split(t, v.focused, axis, n as usize);
    let split = key_step(v, KeyEvent { code: KeyCode::Char(c), ctrl: false }, first_ms).0;
    assert(split == pane_split(v, axis, first_ms));
    assert(split.panes.len() == n + 1);
    assert(split.focused == n);
    assert(pane_closed(split).panes =~= v.panes);
    assert(pane_closed(split).layout == Some(t));
    assert(pane_closed(split) == AppView {
        layout: Some(current_layout(v)),
        focused: (v.panes.len() - 1) as usize,
        ..v
    });
}

/// Opening the in-pane command line on a pane that has a command (Enter)
/// pauses it; leaving the line with Esc keeps the command, unpauses the pane
/// and has it run at once, and empties the line.
pub proof fn law_inline_esc_resumes(v: AppView, first_ms: u64, second_ms: u64)
    requires
        v.mode == Mode::Normal,
        v.focused < v.panes.len(),
        trim(v.panes[v.focused as int].cmd).len() > 0,
        !v.panes[v.focused as int].paused,
    ensures
        ({
            let opened = key_step(v, KeyEvent { code: KeyCode::Enter, ctrl: false }, first_ms);
            let closed = key_step(opened.0, KeyEvent { code: KeyCode::Esc, ctrl: false }, second_ms);
            let p = v.panes[v.focused as int];
            let q = closed.0.panes[v.focused as int];
            &&& opened.0.mode == Mode::InlineCommand
            &&& opened.0.panes[v.focused as int].paused
            &&& opened.0.command_input.0 == p.cmd
            &&& closed.1 == Reply::Nothing
            &&& closed.0.mode == Mode::Normal
            &&& closed.0.panes.len() == v.panes.len()
            &&& q.cmd == p.cmd
            &&& !q.paused
            &&& q.pending_run_once
            &&& q.next_run == second_ms
            &&& closed.0.command_input.0 == Seq::<char>::empty()
        }),
{
}

/// No interval change goes below 250 ms, and the command dialog accepts
/// only intervals of at least 250 ms (or the default).
pub proof fn law_interval_floor(interval: u64, delta: i64, v: AppView)
    ensures
        adjusted_interval(interval, delta) >= 250,
        interval_choice(v) matches Ok(i) ==> i >= 250 || i == v.default_interval_ms,
{
}

/// Moving the focus always lands on one of the panes.
pub proof fn law_focus_stays_on_a_pane(len: usize, f: usize, dr: int, dc: int)
    requires
        f < len,
    ensures
        focus_target(len, f, dr, dc) < len,
{
    if len != 3 {
        let g = choose|g: crate::layout::Grid| grid_spec(len, g);
        lemma_grid_exists(len);
        lemma_grid_of(len, grid_of(len));
        let gg = grid_of(len);
        assert(gg.rows * gg.cols >= len) by (nonlinear_arith)
            requires
                grid_spec(len, gg),
                gg.cols >= 1,
                len >= 1,
        {
            if len > 6 {
                assert(gg.rows * gg.cols >= len) by (nonlinear_arith)
                    requires
                        gg.cols >= 1,
                        gg.rows == (len + gg.cols - 1) / (gg.cols as int),
                ;
            }
        }
    }
}

proof fn lemma_ceil_sqrt_exists(n: nat) -> (c: nat)
    requires
        n >= 1,
    ensures
        c >= 1,
        c * c >= n,
        (c - 1) * (c - 1) < n,
        c <= n,
    decreases n,
{
    if n == 1 {
        assert((1 - 1) * (1 - 1) == 0int);
        1
    } else {
        let c = lemma_ceil_sqrt_exists((n - 1) as nat);
        if c * c >= n {
            c
        } else {
            assert(((c + 1) - 1) * ((c + 1) - 1) == c * c);
            assert((c + 1) * (c + 1) >= n) by (nonlinear_arith)
                requires
                    c * c >= n - 1,
                    c >= 1,
            ;
            assert(c + 1 <= n) by (nonlinear_arith)
                requires
                    c * c == n - 1,
                    c >= 1,
                    n >= 2,
            ;
            c + 1
        }
    }
}

pub(crate) proof fn lemma_grid_exists(count: usize)
    ensures
        exists|g: crate::layout::Grid| grid_spec(count, g),
{
    if count <= 1 {
        assert(grid_spec(count, crate::layout::Grid { rows: 1, cols: 1 }));
    } else if count == 2 {
        assert(grid_spec(count, crate::layout::Grid { rows: 1, cols: 2 }));
    } else if count <= 4 {
        assert(grid_spec(count, crate::layout::Grid { rows: 2, cols: 2 }));
    } else if count <= 6 {
        assert(grid_spec(count, crate::layout::Grid { rows: 2, cols: 3 }));
    } else {
        let c = lemma_ceil_sqrt_exists(count as nat);
        let rows = (count + c - 1) / (c as int);
        assert(0 <= rows <= count) by (nonlinear_arith)
            requires
                c >= 1,
                c <= count,
                rows == (count + c - 1) / (c as int),
        ;
        let g = crate::layout::Grid { rows: rows as usize, cols: c as usize };
        assert(grid_spec(count, g));
    }
}

// ----- styled output -----

/// The line breaks of `cs` from position `i` on.
pub open spec fn breaks_from(cs: Seq<char>, i: int) -> nat
    decreases cs.len() - i,
{
    if i < 0 || i >= cs.len() {
        0
    } else {
        breaks_from(cs, i + 1) + if cs[i] == '\n' {
            1nat
        } else {
            0nat
        }
    }
}

proof fn lemma_scan_lines(cs: Seq<char>, base: Style, i: int, st: ParseState)
    requires
        0 <= i <= cs.len(),
        forall|k: int| i <= k < cs.len() ==> cs[k] != '\x1b',
    ensures
        scan(cs, base, i, st).len() == st.lines.len() + breaks_from(cs, i) + 1,
    decreases cs.len() - i,
{
    if i < cs.len() {
        let c = cs[i];
        if c == '\r' {
            lemma_scan_lines(cs, base, i + 1, st);
        } else if c == '\t' {
            lemma_scan_lines(cs, base, i + 1, ParseState { buf: st.buf + seq![' ', ' ', ' ', ' '], ..st });
        } else if c == '\n' {
            let f = flushed(st);
            lemma_scan_lines(cs, base, i + 1, ParseState { spans: Seq::empty(), lines: f.lines.push(f.spans), ..f });
        } else {
            lemma_scan_lines(cs, base, i + 1, ParseState { buf: st.buf.push(c), ..st });
        }
    }
}

/// Output without escape sequences comes out as one styled line per line
/// break, plus one.
pub proof fn law_plain_output_lines(cs: Seq<char>, base: Style)
    requires
        forall|k: int| 0 <= k < cs.len() ==> cs[k] != '\x1b',
    ensures
        scan(cs, base, 0, start_state(base)).len() == breaks_from(cs, 0) + 1,
{
    lemma_scan_lines(cs, base, 0, start_state(base));
}

} // verus!
