//! The row of clickable actions on a dialog's bottom border, such as
//! `Cancel · Confirm`, and which action a click lands on.
use vstd::prelude::*;
use crate::geometry::{rect_new, Rect};
use crate::text::chars_of;
use crate::ui::fits;

verus! {

/// What a dialog action does.
#[derive(Debug, Clone, Copy, PartialEq, Eq, Structural)]
pub enum ActionId {
    Cancel,
    Confirm,
    Delete,
    Quit,
}

/// One action and its label.
#[derive(Debug, Clone)]
pub struct ModalAction {
    pub id: ActionId,
    pub label: String,
}

/// The actions of a dialog, left to right, separated by ` · `, with one
/// blank cell on each side and two cells before the dialog's right edge.
#[derive(Debug, Clone)]
pub struct ModalActions {
    pub items: Vec<ModalAction>,
}

/// Cells between the group and the dialog's right border.
pub const RIGHT_PADDING: u16 = 2;

impl View for ModalActions {
    type V = Seq<(ActionId, Seq<char>)>;

    open spec fn view(&self) -> Seq<(ActionId, Seq<char>)> {
        self.items@.map_values(|a: ModalAction| (a.id, a.label@))
    }
}

/// The cells taken by the labels before action `k` and their separators.
pub open spec fn label_offset(items: Seq<(ActionId, Seq<char>)>, k: int) -> int
    decreases k,
{
    if k <= 0 {
        0
    } else {
        label_offset(items, k - 1) + items[k - 1].1.len() + 3
    }
}

/// The width of the whole group: the labels, the separators and a blank cell
/// on each side.
pub open spec fn group_width(items: Seq<(ActionId, Seq<char>)>) -> int {
    label_offset(items, items.len() as int) - 3 + 2
}

/// The group fits in a row of the terminal.
pub open spec fn actions_wf(items: Seq<(ActionId, Seq<char>)>) -> bool {
    items.len() > 0 && group_width(items) <= 1000
}

/// Where the group goes on `modal`'s bottom border, right-aligned, if the
/// dialog is wide enough.
pub open spec fn group_rect_of(items: Seq<(ActionId, Seq<char>)>, modal: Rect) -> Option<Rect> {
    let w = group_width(items);
    let required = w + RIGHT_PADDING + 1;
    if items.len() == 0 || modal.width < 4 || modal.height < 1 || modal.width <= required {
        None
    } else {
        Some(
            rect_new(
                (modal.x + modal.width - required) as u16,
                (modal.y + modal.height - 1) as u16,
                w as u16,
                1,
            ),
        )
    }
}

/// The cell range of action `k` within group `g`.
pub open spec fn action_rect(items: Seq<(ActionId, Seq<char>)>, g: Rect, k: int) -> Rect {
    rect_new((g.x + 1 + label_offset(items, k)) as u16, g.y, items[k].1.len() as u16, 1)
}

/// `(x, y)` lies in `r`.
pub open spec fn inside(r: Rect, x: u16, y: u16) -> bool {
    r.x <= x < r.x + r.width && r.y <= y < r.y + r.height
}

/// The first action from `k` on whose cells hold `(x, y)`.
pub open spec fn hit_from(items: Seq<(ActionId, Seq<char>)>, g: Rect, x: u16, y: u16, k: int) -> Option<
    ActionId,
>
    decreases items.len() - k,
{
    if k < 0 || k >= items.len() {
        None
    } else if inside(action_rect(items, g, k), x, y) {
        Some(items[k].0)
    } else {
        hit_from(items, g, x, y, k + 1)
    }
}

/// The action a click at `(x, y)` on `modal` lands on.
pub open spec fn hit(items: Seq<(ActionId, Seq<char>)>, modal: Rect, x: u16, y: u16) -> Option<ActionId> {
    match group_rect_of(items, modal) {
        Some(g) => hit_from(items, g, x, y, 0),
        None => None,
    }
}

proof fn lemma_offset_grows(items: Seq<(ActionId, Seq<char>)>, j: int, k: int)
    requires
        0 <= j <= k <= items.len(),
    ensures
        label_offset(items, j) <= label_offset(items, k),
        j < k ==> label_offset(items, j) + items[j].1.len() + 3 <= label_offset(items, k),
    decreases k - j,
{
    if j < k {
        lemma_offset_grows(items, j, k - 1);
    }
}

impl ModalActions {
    /// `Cancel · Confirm`.
    pub fn confirm() -> (a: ModalActions)
        ensures
            a@ == seq![(ActionId::Cancel, "Cancel"@), (ActionId::Confirm, "Confirm"@)],
            actions_wf(a@),
    {
        let mut items: Vec<ModalAction> = Vec::new();
        items.push(ModalAction { id: ActionId::Cancel, label: "Cancel".to_string() });
        items.push(ModalAction { id: ActionId::Confirm, label: "Confirm".to_string() });
        let a = ModalActions { items };
        proof {
            reveal_strlit("Cancel");
            reveal_strlit("Confirm");
            assert(a@ =~= seq![(ActionId::Cancel, "Cancel"@), (ActionId::Confirm, "Confirm"@)]);
            assert(label_offset(a@, 0) == 0);
            assert(label_offset(a@, 1) == 9);
            assert(label_offset(a@, 2) == 19);
        }
        a
    }

    /// `Cancel · Delete`.
    pub fn delete() -> (a: ModalActions)
        ensures
            a@ == seq![(ActionId::Cancel, "Cancel"@), (ActionId::Delete, "Delete"@)],
            actions_wf(a@),
    {
        let mut items: Vec<ModalAction> = Vec::new();
        items.push(ModalAction { id: ActionId::Cancel, label: "Cancel".to_string() });
        items.push(ModalAction { id: ActionId::Delete, label: "Delete".to_string() });
        let a = ModalActions { items };
        proof {
            reveal_strlit("Cancel");
            reveal_strlit("Delete");
            assert(a@ =~= seq![(ActionId::Cancel, "Cancel"@), (ActionId::Delete, "Delete"@)]);
            assert(label_offset(a@, 0) == 0);
            assert(label_offset(a@, 1) == 9);
            assert(label_offset(a@, 2) == 18);
        }
        a
    }

    /// `Quit`.
    pub fn quit() -> (a: ModalActions)
        ensures
            a@ == seq![(ActionId::Quit, "Quit"@)],
            actions_wf(a@),
    {
        let mut items: Vec<ModalAction> = Vec::new();
        items.push(ModalAction { id: ActionId::Quit, label: "Quit".to_string() });
        let a = ModalActions { items };
        proof {
            reveal_strlit("Quit");
            assert(a@ =~= seq![(ActionId::Quit, "Quit"@)]);
            assert(label_offset(a@, 0) == 0);
            assert(label_offset(a@, 1) == 7);
        }
        a
    }

    fn label_len(&self, k: usize) -> (n: usize)
        requires
            k < self@.len(),
        ensures
            n == self@[k as int].1.len(),
    {
        assert(self@[k as int].1 == self.items@[k as int].label@);
        chars_of(self.items[k].label.as_str()).len()
    }

    /// Where the group goes on `modal` (see [`group_rect_of`]).
    pub fn group_rect(&self, modal: Rect) -> (r: Option<Rect>)
        requires
            actions_wf(self@),
            fits(modal),
        ensures
            r == group_rect_of(self@, modal),
    {
        let n = self.items.len();
        let mut w: u32 = 0;
        let mut k: usize = 0;
        while k < n
            invariant
                k <= n,
                n == self@.len(),
                actions_wf(self@),
                w == label_offset(self@, k as int),
            decreases n - k,
        {
            proof {
                lemma_offset_grows(self@, k as int, n as int);
            }
            let len = self.label_len(k);
            w = w + len as u32 + 3;
            k += 1;
        }
        proof {
            lemma_offset_grows(self@, 0, n as int);
        }
        let width = w - 3 + 2;
        let required = width + 2 + 1;
        if n == 0 || modal.width < 4 || modal.height < 1 || (modal.width as u32) <= required {
            return None;
        }
        let x = (modal.x as u32 + modal.width as u32 - required) as u16;
        let y = modal.y + (modal.height - 1);
        Some(Rect::new(x, y, width as u16, 1))
    }

    /// The action a click at `(x, y)` on `modal` lands on.
    pub fn hit_test(&self, modal: Rect, x: u16, y: u16) -> (r: Option<ActionId>)
        requires
            actions_wf(self@),
            fits(modal),
        ensures
            r == hit(self@, modal, x, y),
    {
        let g = match self.group_rect(modal) {
            Some(g) => g,
            None => return None,
        };
        let n = self.items.len();
        let mut off: u32 = 0;
        let mut k: usize = 0;
        while k < n
            invariant
                k <= n,
                n == self@.len(),
                actions_wf(self@),
                group_rect_of(self@, modal) == Some(g),
                off == label_offset(self@, k as int),
                hit(self@, modal, x, y) == hit_from(self@, g, x, y, k as int),
            decreases n - k,
        {
            proof {
                lemma_offset_grows(self@, k as int, n as int);
            }
            let len = self.label_len(k);
            let r = Rect::new((g.x as u32 + 1 + off) as u16, g.y, len as u16, 1);
            assert(r == action_rect(self@, g, k as int));
            if x >= r.x && (x as u32) < r.x as u32 + r.width as u32 && y >= r.y && (y as u32)
                < r.y as u32 + r.height as u32 {
                assert(self@[k as int].0 == self.items@[k as int].id);
                return Some(self.items[k].id);
            }
            off = off + len as u32 + 3;
            k += 1;
        }
        None
    }
}

} // verus!
