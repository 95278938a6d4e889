//! What mouse clicks and the wheel do to the dashboard.
use vstd::prelude::*;
use crate::actions::{hit, ActionId, ModalActions};
use crate::app::{App, AppView, Mode, PaneView};
use crate::geometry::{rect_new, sat_add16, sat_sub, Rect};
use crate::keys::{cleared, command_modal_saved, focused_of, interval_adjusted, with_focused};
use crate::text::{chars_of, decimal, decimal_string};
use crate::ui::{
    centered, command_modal_rect, command_modal_width, delete_modal_rect, fits, help_modal_rect,
};

verus! {

/// What the mouse did.
#[derive(Debug, Clone, Copy, PartialEq, Eq, Structural)]
pub enum MouseKind {
    LeftDown,
    ScrollDown,
    ScrollUp,
    Other,
}

/// A mouse event at a terminal cell.
#[derive(Debug, Clone, Copy, PartialEq, Eq, Structural)]
pub struct MouseEvent {
    pub kind: MouseKind,
    pub column: u16,
    pub row: u16,
}

/// `(x, y)` lies in `r`.
pub open spec fn in_rect(r: Rect, x: u16, y: u16) -> bool {
    r.x <= x < r.x + r.width && r.y <= y < r.y + r.height
}

/// `10^k`.
pub open spec fn pow10(k: nat) -> nat
    decreases k,
{
    if k == 0 {
        1
    } else {
        10 * pow10((k - 1) as nat)
    }
}

proof fn lemma_decimal_len(n: nat, k: nat)
    requires
        k >= 1,
        n < pow10(k),
    ensures
        decimal(n).len() <= k,
    decreases k,
{
    if n >= 10 {
        if k == 1 {
            assert(pow10(1) == 10) by {
                reveal_with_fuel(pow10, 2);
            }
        } else {
            lemma_decimal_len(n / 10, (k - 1) as nat);
        }
    }
}

/// The width of the interval control `[-] {n}ms [+]`.
pub open spec fn control_len(interval: u64) -> int {
    decimal(interval as nat).len() + 10int
}

/// The interval step a click at `(x, y)` asks for: on the top border of a
/// pane at least 16 cells wide, the `[-]` of the interval control gives
/// -50 and its `[+]` gives +50 (each with the cell after it).
pub open spec fn interval_click(rect: Rect, x: u16, y: u16, interval: u64) -> Option<i64> {
    if y != rect.y || rect.width < 16 {
        None
    } else {
        let len = control_len(interval);
        let start = sat_add16(rect.x as int, sat_sub(rect.width as int, sat_add16(len, 2)));
        let plus_start = sat_add16(start, sat_sub(len, 3));
        if start <= x <= sat_add16(start, 2) {
            Some(-50i64)
        } else if plus_start <= x <= sat_add16(plus_start, 2) {
            Some(50i64)
        } else {
            None
        }
    }
}

/// The first pane cell, from `k` on, that holds `(x, y)`.
pub open spec fn pane_hit(rects: Seq<(usize, Rect)>, x: u16, y: u16, k: int) -> Option<int>
    decreases rects.len() - k,
{
    if k < 0 || k >= rects.len() {
        None
    } else if in_rect(rects[k].1, x, y) {
        Some(k)
    } else {
        pane_hit(rects, x, y, k + 1)
    }
}

/// A click on the dashboard: the pane clicked gets the focus, and a click on
/// its interval control moves its interval.
pub open spec fn pane_clicked(v: AppView, rects: Seq<(usize, Rect)>, x: u16, y: u16, now: u64) -> AppView {
    match pane_hit(rects, x, y, 0) {
        Some(k) => {
            let (idx, rect) = rects[k];
            let w = AppView { focused: idx, ..v };
            match interval_click(rect, x, y, v.panes[idx as int].interval_ms) {
                Some(d) => interval_adjusted(w, d, now),
                None => w,
            }
        },
        None => v,
    }
}

/// What a mouse event does: a left click closes the help on `Quit`, cancels
/// or confirms the command dialog, cancels or carries out clearing a
/// command, or (on the dashboard) focuses a pane; the wheel scrolls the
/// focused pane by three lines.
pub open spec fn mouse_step(
    v: AppView,
    ev: MouseEvent,
    frame: Rect,
    rects: Seq<(usize, Rect)>,
    now: u64,
) -> AppView {
    let (x, y) = (ev.column, ev.row);
    let p = focused_of(v);
    match ev.kind {
        MouseKind::LeftDown => if v.mode == Mode::Help {
            if hit(seq![(ActionId::Quit, "Quit"@)], centered(76, 16, frame), x, y) == Some(
                ActionId::Quit,
            ) {
                AppView { mode: Mode::Normal, ..v }
            } else {
                v
            }
        } else if v.mode == Mode::CommandModal {
            match hit(
                seq![(ActionId::Cancel, "Cancel"@), (ActionId::Confirm, "Confirm"@)],
                centered(command_modal_width(frame), 20, frame),
                x,
                y,
            ) {
                Some(ActionId::Cancel) => AppView { mode: Mode::Normal, ..v },
                Some(ActionId::Confirm) => command_modal_saved(v, now),
                _ => v,
            }
        } else if v.mode == Mode::DeleteConfirm {
            match hit(
                seq![(ActionId::Cancel, "Cancel"@), (ActionId::Delete, "Delete"@)],
                centered(54, 7, frame),
                x,
                y,
            ) {
                Some(ActionId::Cancel) => AppView { mode: Mode::Normal, ..v },
                Some(ActionId::Delete) => with_focused(
                    AppView { mode: Mode::Normal, ..v },
                    cleared(p, now),
                ),
                _ => v,
            }
        } else if v.mode != Mode::Normal {
            v
        } else {
            pane_clicked(v, rects, x, y, now)
        },
        MouseKind::ScrollDown => with_focused(
            v,
            PaneView { scroll: sat_add16(p.scroll as int, 3) as u16, ..p },
        ),
        MouseKind::ScrollUp => with_focused(v, PaneView { scroll: sat_sub(p.scroll as int, 3) as u16, ..p }),
        MouseKind::Other => v,
    }
}

/// The interval step a click asks for (see [`interval_click`]).
fn interval_click_delta(rect: Rect, x: u16, y: u16, interval_ms: u64) -> (r: Option<i64>)
    ensures
        r == interval_click(rect, x, y, interval_ms),
{
    if y != rect.y || rect.width < 16 {
        return None;
    }
    let digits = chars_of(decimal_string(interval_ms).as_str());
    proof {
        assert(pow10(20) == 100000000000000000000) by {
            reveal_with_fuel(pow10, 21);
        }
        lemma_decimal_len(interval_ms as nat, 20);
    }
    let len: u16 = (digits.len() + 10) as u16;
    let start = rect.x.saturating_add(rect.width.saturating_sub(len.saturating_add(2)));
    let plus_start = start.saturating_add(len.saturating_sub(3));
    if x >= start && x <= start.saturating_add(2) {
        Some(-50)
    } else if x >= plus_start && x <= plus_start.saturating_add(2) {
        Some(50)
    } else {
        None
    }
}

/// Where a pane's interval control `[-] {n}ms [+]` is drawn on its top
/// border: right-aligned two cells from the corner, when the pane is wide
/// enough.
pub open spec fn interval_control_at(rect: Rect, interval: u64) -> Option<Rect> {
    let len = control_len(interval);
    if rect.width <= len + 2 {
        None
    } else {
        Some(rect_new((rect.x + rect.width - (len + 2)) as u16, rect.y, len as u16, 1))
    }
}

/// Where a pane's interval control is drawn (see [`interval_control_at`]).
pub fn interval_control_rect(rect: Rect, interval_ms: u64) -> (r: Option<Rect>)
    requires
        fits(rect),
    ensures
        r == interval_control_at(rect, interval_ms),
{
    let digits = chars_of(decimal_string(interval_ms).as_str());
    proof {
        assert(pow10(20) == 100000000000000000000) by {
            reveal_with_fuel(pow10, 21);
        }
        lemma_decimal_len(interval_ms as nat, 20);
    }
    let len: u16 = (digits.len() + 10) as u16;
    if rect.width <= len + 2 {
        None
    } else {
        Some(Rect::new(rect.x + (rect.width - (len + 2)), rect.y, len, 1))
    }
}

impl App {
    /// Handles a mouse event (see [`mouse_step`]); `frame_area` is the
    /// terminal and `pane_rects` the panes' cells in it.
    pub fn handle_mouse(
        &mut self,
        event: MouseEvent,
        frame_area: Rect,
        pane_rects: &[(usize, Rect)],
        now_ms: u64,
    )
        requires
            old(self).wf(),
            fits(frame_area),
            forall|k: int| 0 <= k < pane_rects@.len() ==> (#[trigger] pane_rects@[k]).0 < old(self).panes@.len(),
        ensures
            final(self).wf(),
            final(self)@ == mouse_step(old(self)@, event, frame_area, pane_rects@, now_ms),
    {
        let (x, y) = (event.column, event.row);
        match event.kind {
            MouseKind::LeftDown => {
                if self.mode == Mode::Help {
                    let actions = ModalActions::quit();
                    let hitted = actions.hit_test(help_modal_rect(frame_area), x, y);
                    if hitted == Some(ActionId::Quit) {
                        self.mode = Mode::Normal;
                    }
                    return;
                }
                if self.mode == Mode::CommandModal {
                    let actions = ModalActions::confirm();
                    match actions.hit_test(command_modal_rect(frame_area), x, y) {
                        Some(ActionId::Cancel) => {
                            self.mode = Mode::Normal;
                        },
                        Some(ActionId::Confirm) => {
                            self.apply_command_modal_save(now_ms);
                        },
                        _ => {},
                    }
                    return;
                }
                if self.mode == Mode::DeleteConfirm {
                    let actions = ModalActions::delete();
                    match actions.hit_test(delete_modal_rect(frame_area), x, y) {
                        Some(ActionId::Cancel) => {
                            self.mode = Mode::Normal;
                        },
                        Some(ActionId::Delete) => {
                            self.clear_focused(now_ms);
                        },
                        _ => {},
                    }
                    return;
                }
                if self.mode != Mode::Normal {
                    return;
                }
                let n = pane_rects.len();
                let mut k: usize = 0;
                while k < n
                    invariant
                        k <= n,
                        n == pane_rects@.len(),
                        pane_hit(pane_rects@, x, y, 0) == pane_hit(pane_rects@, x, y, k as int),
                        self@ == old(self)@,
                        self.wf(),
                        forall|j: int|
                            0 <= j < pane_rects@.len() ==> (#[trigger] pane_rects@[j]).0
                                < self.panes@.len(),
                        old(self)@.mode == Mode::Normal,
                        event.kind == MouseKind::LeftDown,
                        x == event.column,
                        y == event.row,
                    decreases n - k,
                {
                    let (idx, rect) = pane_rects[k];
                    if x >= rect.x && (x as u32) < rect.x as u32 + rect.width as u32 && y >= rect.y
                        && (y as u32) < rect.y as u32 + rect.height as u32 {
                        assert(pane_rects@[k as int] == (idx, rect));
                        assert(pane_hit(pane_rects@, x, y, k as int) == Some(k as int));
                        self.focused = idx;
                        let interval_ms = self.panes[idx].interval_ms;
                        match interval_click_delta(rect, x, y, interval_ms) {
                            Some(delta) => self.adjust_interval_focused(delta, now_ms),
                            None => {},
                        }
                        return;
                    }
                    k += 1;
                }
            },
            MouseKind::ScrollDown => {
                let f = self.focused;
                self.panes[f].scroll = self.panes[f].scroll.saturating_add(3);
                assert(self@.panes =~= mouse_step(old(self)@, event, frame_area, pane_rects@, now_ms).panes);
            },
            MouseKind::ScrollUp => {
                let f = self.focused;
                self.panes[f].scroll = self.panes[f].scroll.saturating_sub(3);
                assert(self@.panes =~= mouse_step(old(self)@, event, frame_area, pane_rects@, now_ms).panes);
            },
            MouseKind::Other => {},
        }
    }
}

} // verus!
