//! What keys do to the dashboard, mode by mode.
use vstd::prelude::*;
use crate::app::{
    PaneState, App, AppView, CommandModalFocus, KeyAction, Mode, PaneView, Toast, ToastLevel, ToastView,
    later, run_elapsed,
};
use crate::input::{
    TextInput, byte_len, count_newlines, lemma_char_len_bounds, line_col_of, line_col_position,
};
use crate::layout::{
    adjust_spec, adjust_split_ratio_for_pane, default_layout_tree, default_spec, grid_for_count,
    grid_spec, split_pane, split_spec, Grid, LayoutNode, SplitAxis,
};
use crate::panes::{ratios_ok, shows_each_once, close_pane, close_spec, lemma_adjust_shows, lemma_close_shows, lemma_default_shows, lemma_split_shows};
use crate::preset::PanePreset;
use crate::preset::{file_stem, opt_view, pane_title, pane_title_string, path_file_stem};
use crate::text::{
    byte_length, chars_of, concat, decimal, decimal_string, is_blank, parse_unsigned, trim,
    trim_str, unsigned_literal,
};

verus! {

/// A key, as the dashboard tells keys apart.
#[derive(Debug, Clone, Copy, PartialEq, Eq, Structural)]
pub enum KeyCode {
    Char(char),
    Enter,
    Esc,
    Backspace,
    Left,
    Right,
    Up,
    Down,
    Tab,
    BackTab,
    Other,
}

/// A key press, and whether Control was held.
#[derive(Debug, Clone, Copy, PartialEq, Eq, Structural)]
pub struct KeyEvent {
    pub code: KeyCode,
    pub ctrl: bool,
}

/// A key action as values.
pub enum Reply {
    Nothing,
    Quit,
    SaveResumeAndQuit,
    SavePreset(Seq<char>),
    ApplyVars,
    ClosedPane(usize),
}

impl View for KeyAction {
    type V = Reply;

    open spec fn view(&self) -> Reply {
        match self {
            KeyAction::Nothing => Reply::Nothing,
            KeyAction::Quit => Reply::Quit,
            KeyAction::SaveResumeAndQuit => Reply::SaveResumeAndQuit,
            KeyAction::SavePreset(s) => Reply::SavePreset(s@),
            KeyAction::ApplyVars => Reply::ApplyVars,
            KeyAction::ClosedPane(i) => Reply::ClosedPane(*i),
        }
    }
}

// ----- text fields -----

/// A field holding `s` with the cursor at its end.
pub open spec fn fresh(s: Seq<char>) -> (Seq<char>, int) {
    (s, s.len() as int)
}

/// The field can take one more character without its length overflowing.
pub open spec fn room(t: (Seq<char>, int)) -> bool {
    byte_len(t.0) + 4 <= usize::MAX
}

/// `ch` typed at the cursor.
pub open spec fn typed(t: (Seq<char>, int), ch: char) -> (Seq<char>, int) {
    if room(t) {
        (t.0.insert(t.1, ch), t.1 + 1)
    } else {
        t
    }
}

/// The character before the cursor deleted.
pub open spec fn backspaced(t: (Seq<char>, int)) -> (Seq<char>, int) {
    if t.1 > 0 {
        (t.0.remove(t.1 - 1), t.1 - 1)
    } else {
        t
    }
}

/// The cursor one character left.
pub open spec fn moved_left(t: (Seq<char>, int)) -> (Seq<char>, int) {
    (t.0, if t.1 > 0 {
        t.1 - 1
    } else {
        0
    })
}

/// The cursor one character right.
pub open spec fn moved_right(t: (Seq<char>, int)) -> (Seq<char>, int) {
    (t.0, if t.1 < t.0.len() {
        t.1 + 1
    } else {
        t.1
    })
}

/// The cursor on the line above.
pub open spec fn moved_up(t: (Seq<char>, int)) -> (Seq<char>, int) {
    let (line, col) = line_col_of(t.0, t.1);
    (t.0, if line == 0 {
        t.1
    } else {
        line_col_position(t.0, line - 1, col)
    })
}

/// The cursor on the line below.
pub open spec fn moved_down(t: (Seq<char>, int)) -> (Seq<char>, int) {
    let (line, col) = line_col_of(t.0, t.1);
    (t.0, if line + 1 >= count_newlines(t.0) + 1 {
        t.1
    } else {
        line_col_position(t.0, line + 1, col)
    })
}

/// What an editing key does to a field: Backspace deletes, Left and Right
/// move, a character typed without Control is inserted.
pub open spec fn edited(t: (Seq<char>, int), key: KeyEvent) -> (Seq<char>, int) {
    match key.code {
        KeyCode::Backspace => backspaced(t),
        KeyCode::Left => moved_left(t),
        KeyCode::Right => moved_right(t),
        KeyCode::Char(ch) => if !key.ctrl {
            typed(t, ch)
        } else {
            t
        },
        _ => t,
    }
}

fn type_char(input: &mut TextInput, ch: char)
    requires
        old(input).wf(),
    ensures
        final(input).wf(),
        final(input)@ == typed(old(input)@, ch),
{
    let n = byte_length(input.value.as_str());
    if n <= usize::MAX - 4 {
        proof {
            lemma_char_len_bounds(ch);
        }
        input.insert(ch);
    }
}

fn edit(input: &mut TextInput, key: KeyEvent)
    requires
        old(input).wf(),
    ensures
        final(input).wf(),
        final(input)@ == edited(old(input)@, key),
{
    match key.code {
        KeyCode::Backspace => input.backspace(),
        KeyCode::Left => input.move_left(),
        KeyCode::Right => input.move_right(),
        KeyCode::Char(ch) => {
            if !key.ctrl {
                type_char(input, ch);
            }
        },
        _ => {},
    }
}

// ----- the dashboard -----

/// The focused pane.
pub open spec fn focused_of(v: AppView) -> PaneView {
    v.panes[v.focused as int]
}

/// `v` with the focused pane replaced by `p`.
pub open spec fn with_focused(v: AppView, p: PaneView) -> AppView {
    AppView { panes: v.panes.update(v.focused as int, p), ..v }
}

/// `x` held between `lo` and `hi`.
pub open spec fn clamp(x: int, lo: int, hi: int) -> int {
    if x < lo {
        lo
    } else if x > hi {
        hi
    } else {
        x
    }
}

/// The grid `count` panes are placed on.
pub open spec fn grid_of(count: usize) -> Grid {
    choose|g: Grid| grid_spec(count, g)
}

/// Where the focus moves from pane `f` of `len` by `dr` rows and `dc`
/// columns: with three panes, between the main pane and the right stack;
/// otherwise across the grid, stopping at its edges and at the last pane.
pub open spec fn focus_target(len: usize, f: usize, dr: int, dc: int) -> usize {
    if len == 3 {
        if f == 0 && dc > 0 {
            1
        } else if f == 0 && dr > 0 {
            2
        } else if f == 1 && dc < 0 {
            0
        } else if f == 1 && dr > 0 {
            2
        } else if f == 2 && dc < 0 {
            0
        } else if f == 2 && dr < 0 {
            1
        } else {
            f
        }
    } else {
        let g = grid_of(len);
        let r = clamp((f / g.cols) + dr, 0, g.rows - 1);
        let c = clamp((f % g.cols) + dc, 0, g.cols - 1);
        let n = r * g.cols + c;
        (if n < len - 1 {
            n
        } else {
            len - 1
        }) as usize
    }
}

/// The elapsed time an interval has to beat to clear the long-running mark:
/// the current run's, else the last long run's, else 0.
pub open spec fn latch_bar(p: PaneView, now: u64) -> u64 {
    match run_elapsed(p, now) {
        Some(e) => e,
        None => match p.last_long_running_ms {
            Some(m) => m,
            None => 0,
        },
    }
}

/// `x` read as a signed 64-bit number, as `as i64` reads it.
pub open spec fn as_signed(x: u64) -> int {
    if x > i64::MAX {
        x - 0x1_0000_0000_0000_0000int
    } else {
        x as int
    }
}

/// `x` brought into the signed 64-bit range by wrapping around, as a
/// two's-complement addition does.
pub open spec fn wrap_signed(x: int) -> int {
    if x > i64::MAX {
        x - 0x1_0000_0000_0000_0000int
    } else if x < i64::MIN {
        x + 0x1_0000_0000_0000_0000int
    } else {
        x
    }
}

/// An interval moved by `delta`, never below 250 ms. The sum is taken in
/// signed 64-bit arithmetic with wrap-around, so an interval at or above
/// 2^63 ms counts as negative there.
pub open spec fn adjusted_interval(interval: u64, delta: i64) -> u64 {
    let s = wrap_signed(as_signed(interval) + delta);
    if s < 250 {
        250
    } else {
        s as u64
    }
}

/// The interval `interval` moved by `delta` (see [`adjusted_interval`]).
fn adjust_interval_value(interval: u64, delta: i64) -> (n: u64)
    ensures
        n == adjusted_interval(interval, delta),
{
    let current: i128 = interval as i128;
    let signed: i128 = if current > i64::MAX as i128 {
        current - 0x1_0000_0000_0000_0000i128
    } else {
        current
    };
    let raw: i128 = signed + delta as i128;
    let sum: i128 = if raw > i64::MAX as i128 {
        raw - 0x1_0000_0000_0000_0000i128
    } else if raw < i64::MIN as i128 {
        raw + 0x1_0000_0000_0000_0000i128
    } else {
        raw
    };
    if sum < 250 {
        250
    } else {
        sum as u64
    }
}

/// The focused pane's interval moved by `delta`; the long-running mark is
/// cleared when the new interval beats `latch_bar`; the next run is one new
/// interval away.
pub open spec fn interval_adjusted(v: AppView, delta: i64, now: u64) -> AppView {
    let p = focused_of(v);
    let next = adjusted_interval(p.interval_ms, delta);
    with_focused(
        v,
        PaneView {
            interval_ms: next,
            long_running_latched: if next > latch_bar(p, now) {
                false
            } else {
                p.long_running_latched
            },
            next_run: later(now, next),
            ..p
        },
    )
}

/// The command dialog opened on the focused pane, which is paused: the
/// fields hold its command, its title (or `Pane n` when blank) and its
/// interval.
pub open spec fn command_modal_opened(v: AppView) -> AppView {
    let p = focused_of(v);
    let title = if trim(p.title).len() == 0 {
        pane_title((v.focused + 1) as nat)
    } else {
        p.title
    };
    AppView {
        panes: v.panes.update(v.focused as int, PaneView { paused: true, ..p }),
        command_input: fresh(p.cmd),
        title_input: fresh(title),
        interval_input: fresh(decimal(p.interval_ms as nat)),
        command_modal_focus: CommandModalFocus::Command,
        mode: Mode::CommandModal,
        ..v
    }
}

/// The rename dialog opened with the focused pane's title.
pub open spec fn title_modal_opened(v: AppView) -> AppView {
    AppView { title_input: fresh(focused_of(v).title), mode: Mode::TitleModal, ..v }
}

/// The name the save dialog suggests: the loaded preset's file stem, else
/// `dashboard`.
pub open spec fn save_suggestion(loaded: Option<Seq<char>>) -> Seq<char> {
    match loaded {
        Some(p) => match path_file_stem(p) {
            Some(s) => s,
            None => "dashboard"@,
        },
        None => "dashboard"@,
    }
}

/// The in-pane command line opened on the focused pane; a pane that has a
/// command is paused, to resume when the line closes.
pub open spec fn inline_opened(v: AppView) -> AppView {
    let p = focused_of(v);
    let existing = trim(p.cmd).len() > 0;
    AppView {
        panes: if existing {
            v.panes.update(v.focused as int, PaneView { paused: true, ..p })
        } else {
            v.panes
        },
        command_input: fresh(p.cmd),
        inline_resume_execution: existing,
        mode: Mode::InlineCommand,
        ..v
    }
}

/// A pane whose command and output are cleared, due to run at `now`.
pub open spec fn cleared(p: PaneView, now: u64) -> PaneView {
    PaneView {
        cmd: Seq::empty(),
        output: Seq::empty(),
        last_error: None,
        last_exit_code: None,
        running: false,
        run_started_at: None,
        scroll: 0,
        next_run: now,
        ..p
    }
}

/// A warning or error message shown from `now` on.
pub open spec fn toast_at(message: Seq<char>, level: ToastLevel, now: u64) -> Option<ToastView> {
    Some(ToastView { message, level, created_ms: now })
}

/// The interval the command dialog gives, or the message refusing it: a
/// blank field means the default interval; otherwise the field must be a
/// number of at least 250.
pub open spec fn interval_choice(v: AppView) -> Result<u64, Seq<char>> {
    let text = trim(v.interval_input.0);
    if text.len() == 0 {
        Ok(v.default_interval_ms)
    } else {
        match unsigned_literal(text) {
            Some(n) => if n > u64::MAX {
                Err("interval must be a number in milliseconds"@)
            } else if n >= 250 {
                Ok(n as u64)
            } else {
                Err("interval must be at least 250 ms"@)
            },
            None => Err("interval must be a number in milliseconds"@),
        }
    }
}

/// The command dialog saved: on a refused interval, only an error message;
/// otherwise the focused pane takes the trimmed command and title and the
/// interval, is unpaused and runs once now, and the dialog closes.
pub open spec fn command_modal_saved(v: AppView, now: u64) -> AppView {
    match interval_choice(v) {
        Err(msg) => AppView { toast: toast_at(msg, ToastLevel::Error, now), ..v },
        Ok(iv) => {
            let p = focused_of(v);
            let changed = p.interval_ms != iv;
            with_focused(
                AppView { mode: Mode::Normal, ..v },
                PaneView {
                    cmd: trim(v.command_input.0),
                    title: trim(v.title_input.0),
                    interval_ms: iv,
                    long_running_latched: if changed && iv > latch_bar(p, now) {
                        false
                    } else {
                        p.long_running_latched
                    },
                    paused: false,
                    last_error: None,
                    next_run: now,
                    pending_run_once: true,
                    ..p
                },
            )
        },
    }
}

/// All panes due to run at `now`, scrolled to the top.
pub open spec fn all_rerun(v: AppView, now: u64) -> AppView {
    AppView {
        panes: v.panes.map_values(|p: PaneView| PaneView { next_run: now, scroll: 0, ..p }),
        ..v
    }
}

proof fn lemma_grid_unique(count: usize, g1: Grid, g2: Grid)
    requires
        grid_spec(count, g1),
        grid_spec(count, g2),
    ensures
        g1 == g2,
{
    if count > 6 {
        if g1.cols < g2.cols {
            assert(g1.cols * g1.cols <= (g2.cols - 1) * (g2.cols - 1)) by (nonlinear_arith)
                requires
                    g1.cols <= g2.cols - 1,
            ;
        }
        if g2.cols < g1.cols {
            assert(g2.cols * g2.cols <= (g1.cols - 1) * (g1.cols - 1)) by (nonlinear_arith)
                requires
                    g2.cols <= g1.cols - 1,
            ;
        }
    }
}

pub proof fn lemma_grid_of(count: usize, g: Grid)
    requires
        grid_spec(count, g),
    ensures
        grid_of(count) == g,
        g.rows >= 1,
        g.cols >= 1,
{
    lemma_grid_unique(count, g, grid_of(count));
    if count > 6 {
        if g.cols == 0 {
            assert(g.cols * g.cols == 0);
        }
        assert(g.rows >= 1) by (nonlinear_arith)
            requires
                g.cols >= 1,
                count > 6,
                g.rows == (count + g.cols - 1) / (g.cols as int),
                g.cols * g.cols >= count,
        ;
    }
}

impl App {
    /// Moves the focus by `delta_row` rows and `delta_col` columns.
    pub fn focus_next(&mut self, delta_row: isize, delta_col: isize)
        requires
            old(self).wf(),
        ensures
            final(self).wf(),
            final(self)@ == (AppView {
                focused: focus_target(
                    old(self)@.panes.len() as usize,
                    old(self)@.focused,
                    delta_row as int,
                    delta_col as int,
                ),
                ..old(self)@
            }),
    {
        let len = self.panes.len();
        if len == 3 {
            let f = self.focused;
            self.focused = if f == 0 && delta_col > 0 {
                1
            } else if f == 0 && delta_row > 0 {
                2
            } else if f == 1 && delta_col < 0 {
                0
            } else if f == 1 && delta_row > 0 {
                2
            } else if f == 2 && delta_col < 0 {
                0
            } else if f == 2 && delta_row < 0 {
                1
            } else {
                f
            };
            return;
        }
        let g = grid_for_count(len);
        proof {
            lemma_grid_of(len, g);
        }
        let row = (self.focused / g.cols) as i128 + delta_row as i128;
        let col = (self.focused % g.cols) as i128 + delta_col as i128;
        let max_r = (g.rows - 1) as i128;
        let max_c = (g.cols - 1) as i128;
        let r: i128 = if row < 0 {
            0
        } else if row > max_r {
            max_r
        } else {
            row
        };
        let c: i128 = if col < 0 {
            0
        } else if col > max_c {
            max_c
        } else {
            col
        };
        let ru = r as u128;
        let cu = c as u128;
        let cols = g.cols as u128;
        assert(ru * cols <= 0xffff_ffff_ffff_ffffu128 * 0xffff_ffff_ffff_ffffu128) by (
        nonlinear_arith)
            requires
                ru <= 0xffff_ffff_ffff_ffffu128,
                cols <= 0xffff_ffff_ffff_ffffu128,
        ;
        let n: u128 = ru * cols + cu;
        let last = (len - 1) as u128;
        let next = if n < last {
            n
        } else {
            last
        };
        self.focused = next as usize;
    }

    /// Opens the command dialog on the focused pane (see
    /// [`command_modal_opened`]).
    pub fn open_command_modal(&mut self)
        requires
            old(self).wf(),
        ensures
            final(self).wf(),
            final(self)@ == command_modal_opened(old(self)@),
    {
        let f = self.focused;
        let _len = self.panes.len();
        self.panes[f].paused = true;
        let command = self.panes[f].cmd.clone();
        let title = if is_blank(self.panes[f].title.as_str()) {
            pane_title_string((f + 1) as u64)
        } else {
            self.panes[f].title.clone()
        };
        let interval_text = decimal_string(self.panes[f].interval_ms);
        self.command_input = TextInput::new(command);
        self.title_input = TextInput::new(title);
        self.interval_input = TextInput::new(interval_text);
        self.command_modal_focus = CommandModalFocus::Command;
        self.mode = Mode::CommandModal;
        assert(self@.panes =~= command_modal_opened(old(self)@).panes);
    }

    /// Opens the rename dialog with the focused pane's title.
    pub fn open_title_modal(&mut self)
        requires
            old(self).wf(),
        ensures
            final(self).wf(),
            final(self)@ == title_modal_opened(old(self)@),
    {
        let current = self.panes[self.focused].title.clone();
        self.title_input = TextInput::new(current);
        self.mode = Mode::TitleModal;
    }

    /// Opens the save dialog with [`save_suggestion`] as the name.
    pub fn open_save_modal(&mut self)
        requires
            old(self).wf(),
        ensures
            final(self).wf(),
            final(self)@ == (AppView {
                save_input: fresh(save_suggestion(old(self)@.loaded_preset)),
                mode: Mode::SaveModal,
                ..old(self)@
            }),
    {
        let suggestion = match &self.loaded_preset {
            Some(path) => match file_stem(path.as_str()) {
                Some(stem) => stem,
                None => "dashboard".to_string(),
            },
            None => "dashboard".to_string(),
        };
        self.save_input = TextInput::new(suggestion);
        self.mode = Mode::SaveModal;
    }

    /// Opens the in-pane command line (see [`inline_opened`]).
    pub fn open_inline_command(&mut self)
        requires
            old(self).wf(),
        ensures
            final(self).wf(),
            final(self)@ == inline_opened(old(self)@),
    {
        let f = self.focused;
        let existing = !is_blank(self.panes[f].cmd.as_str());
        let command = self.panes[f].cmd.clone();
        if existing {
            self.panes[f].paused = true;
        }
        self.command_input = TextInput::new(command);
        self.inline_resume_execution = existing;
        self.mode = Mode::InlineCommand;
        assert(self@.panes =~= inline_opened(old(self)@).panes);
    }

    /// Pauses or resumes the focused pane.
    pub fn toggle_pause_focused(&mut self)
        requires
            old(self).wf(),
        ensures
            final(self).wf(),
            final(self)@ == with_focused(
                old(self)@,
                PaneView { paused: !focused_of(old(self)@).paused, ..focused_of(old(self)@) },
            ),
    {
        let f = self.focused;
        self.panes[f].paused = !self.panes[f].paused;
        assert(self@.panes =~= old(self)@.panes.update(
            f as int,
            PaneView { paused: !focused_of(old(self)@).paused, ..focused_of(old(self)@) },
        ));
    }

    /// Pauses or resumes every pane at once.
    pub fn toggle_pause_all(&mut self)
        requires
            old(self).wf(),
        ensures
            final(self).wf(),
            final(self)@ == (AppView { global_paused: !old(self)@.global_paused, ..old(self)@ }),
    {
        self.global_paused = !self.global_paused;
    }

    /// Makes the focused pane due now and scrolls it to the top.
    pub fn rerun_focused(&mut self, now_ms: u64)
        requires
            old(self).wf(),
        ensures
            final(self).wf(),
            final(self)@ == with_focused(
                old(self)@,
                PaneView { next_run: now_ms, scroll: 0, ..focused_of(old(self)@) },
            ),
    {
        let f = self.focused;
        self.panes[f].next_run = now_ms;
        self.panes[f].scroll = 0;
        assert(self@.panes =~= old(self)@.panes.update(
            f as int,
            PaneView { next_run: now_ms, scroll: 0, ..focused_of(old(self)@) },
        ));
    }

    /// Makes every pane due now and scrolls each to the top.
    pub fn rerun_all(&mut self, now_ms: u64)
        requires
            old(self).wf(),
        ensures
            final(self).wf(),
            final(self)@ == all_rerun(old(self)@, now_ms),
    {
        let n = self.panes.len();
        let mut i: usize = 0;
        while i < n
            invariant
                i <= n,
                n == self.panes@.len(),
                n == old(self).panes@.len(),
                self.wf(),
                self@ == (AppView { panes: self@.panes, ..old(self)@ }),
                forall|j: int|
                    0 <= j < i ==> (#[trigger] self.panes@[j])@ == (PaneView {
                        next_run: now_ms,
                        scroll: 0,
                        ..old(self).panes@[j]@
                    }),
                forall|j: int| i <= j < n ==> #[trigger] self.panes@[j] == old(self).panes@[j],
            decreases n - i,
        {
            self.panes[i].next_run = now_ms;
            self.panes[i].scroll = 0;
            i += 1;
        }
        assert(self@.panes =~= all_rerun(old(self)@, now_ms).panes);
    }

    /// Moves the focused pane's interval by `delta_ms` (see
    /// [`interval_adjusted`]).
    pub fn adjust_interval_focused(&mut self, delta_ms: i64, now_ms: u64)
        requires
            old(self).wf(),
        ensures
            final(self).wf(),
            final(self)@ == interval_adjusted(old(self)@, delta_ms, now_ms),
    {
        let f = self.focused;
        let next = adjust_interval_value(self.panes[f].interval_ms, delta_ms);
        let required: u64 = match self.panes[f].run_started_at {
            Some(t) => if now_ms >= t {
                now_ms - t
            } else {
                0
            },
            None => match self.panes[f].last_long_running_ms {
                Some(m) => m,
                None => 0,
            },
        };
        self.panes[f].interval_ms = next;
        if next > required {
            self.panes[f].long_running_latched = false;
        }
        self.panes[f].next_run = now_ms.saturating_add(next);
        assert(self@.panes =~= interval_adjusted(old(self)@, delta_ms, now_ms).panes);
    }

    /// Saves the command dialog (see [`command_modal_saved`]).
    pub(crate) fn apply_command_modal_save(&mut self, now_ms: u64)
        requires
            old(self).wf(),
        ensures
            final(self).wf(),
            final(self)@ == command_modal_saved(old(self)@, now_ms),
    {
        let command = trim_str(self.command_input.value.as_str());
        let title = trim_str(self.title_input.value.as_str());
        let interval_text = chars_of(trim_str(self.interval_input.value.as_str()).as_str());
        let interval_ms: u64 = if interval_text.len() == 0 {
            self.default_interval_ms
        } else {
            match parse_unsigned(&interval_text, u64::MAX) {
                Some(value) => {
                    if value >= 250 {
                        value
                    } else {
                        self.toast = Some(
                            Toast {
                                message: "interval must be at least 250 ms".to_string(),
                                level: ToastLevel::Error,
                                created_ms: now_ms,
                            },
                        );
                        return;
                    }
                },
                None => {
                    self.toast = Some(
                        Toast {
                            message: "interval must be a number in milliseconds".to_string(),
                            level: ToastLevel::Error,
                            created_ms: now_ms,
                        },
                    );
                    return;
                },
            }
        };
        let f = self.focused;
        let changed = self.panes[f].interval_ms != interval_ms;
        let required: u64 = match self.panes[f].run_started_at {
            Some(t) => if now_ms >= t {
                now_ms - t
            } else {
                0
            },
            None => match self.panes[f].last_long_running_ms {
                Some(m) => m,
                None => 0,
            },
        };
        self.panes[f].cmd = command;
        self.panes[f].title = title;
        self.panes[f].interval_ms = interval_ms;
        if changed && interval_ms > required {
            self.panes[f].long_running_latched = false;
        }
        self.panes[f].paused = false;
        self.panes[f].last_error = None;
        self.panes[f].next_run = now_ms;
        self.panes[f].pending_run_once = true;
        self.mode = Mode::Normal;
        assert(self@.panes =~= command_modal_saved(old(self)@, now_ms).panes);
    }
}

/// The help screen: `Esc` or `?` closes it.
pub open spec fn help_keyed(v: AppView, key: KeyEvent) -> AppView {
    if key.code == KeyCode::Esc || key.code == KeyCode::Char('?') {
        AppView { mode: Mode::Normal, ..v }
    } else {
        v
    }
}

/// The in-pane command line: `Esc` drops the edit and resumes a paused
/// pane; `Enter` sets the trimmed command (a pane with a command runs once
/// now; an emptied pane is unpaused); other keys edit the line.
pub open spec fn inline_keyed(v: AppView, key: KeyEvent, now: u64) -> AppView {
    let p = focused_of(v);
    let closed = AppView {
        command_input: fresh(Seq::empty()),
        inline_resume_execution: false,
        mode: Mode::Normal,
        ..v
    };
    match key.code {
        KeyCode::Esc => if v.inline_resume_execution {
            with_focused(closed, PaneView { paused: false, next_run: now, pending_run_once: true, ..p })
        } else {
            closed
        },
        KeyCode::Enter => {
            let cmd = trim(v.command_input.0);
            let base = PaneView { cmd, last_error: None, ..p };
            let q = if v.inline_resume_execution && trim(cmd).len() > 0 {
                PaneView { paused: false, next_run: now, pending_run_once: true, ..base }
            } else if trim(cmd).len() == 0 {
                PaneView { paused: false, pending_run_once: false, next_run: now, ..base }
            } else {
                PaneView { next_run: now, ..base }
            };
            with_focused(closed, q)
        },
        _ => AppView { command_input: edited(v.command_input, key), ..v },
    }
}

/// The clear-command question: `Esc` or `n` closes it, `Enter` or `y` clears
/// the focused pane (see [`cleared`]).
pub open spec fn delete_keyed(v: AppView, key: KeyEvent, now: u64) -> AppView {
    match key.code {
        KeyCode::Esc => AppView { mode: Mode::Normal, ..v },
        KeyCode::Char('n') => AppView { mode: Mode::Normal, ..v },
        KeyCode::Enter => with_focused(AppView { mode: Mode::Normal, ..v }, cleared(focused_of(v), now)),
        KeyCode::Char('y') => with_focused(
            AppView { mode: Mode::Normal, ..v },
            cleared(focused_of(v), now),
        ),
        _ => v,
    }
}

/// The rename dialog: `Esc` closes it, `Enter` sets the focused pane's
/// title, other keys edit the field.
pub open spec fn title_keyed(v: AppView, key: KeyEvent) -> AppView {
    match key.code {
        KeyCode::Esc => AppView { mode: Mode::Normal, ..v },
        KeyCode::Enter => with_focused(
            AppView { mode: Mode::Normal, ..v },
            PaneView { title: v.title_input.0, ..focused_of(v) },
        ),
        _ => AppView { title_input: edited(v.title_input, key), ..v },
    }
}

/// The save dialog: `Esc` closes it, `Enter` asks to save under the trimmed
/// name, other keys edit the field.
pub open spec fn save_keyed(v: AppView, key: KeyEvent) -> (AppView, Reply) {
    match key.code {
        KeyCode::Esc => (AppView { mode: Mode::Normal, ..v }, Reply::Nothing),
        KeyCode::Enter => (v, Reply::SavePreset(trim(v.save_input.0))),
        _ => (AppView { save_input: edited(v.save_input, key), ..v }, Reply::Nothing),
    }
}

/// The field of the command dialog that takes typing.
pub open spec fn active_field(v: AppView) -> (Seq<char>, int) {
    match v.command_modal_focus {
        CommandModalFocus::Title => v.title_input,
        CommandModalFocus::Interval => v.interval_input,
        _ => v.command_input,
    }
}

/// `v` with the field that takes typing set to `t`.
pub open spec fn with_active(v: AppView, t: (Seq<char>, int)) -> AppView {
    match v.command_modal_focus {
        CommandModalFocus::Title => AppView { title_input: t, ..v },
        CommandModalFocus::Interval => AppView { interval_input: t, ..v },
        _ => AppView { command_input: t, ..v },
    }
}

/// `Tab` in the command dialog: command, name, interval, command, ...
pub open spec fn next_field(f: CommandModalFocus) -> CommandModalFocus {
    match f {
        CommandModalFocus::Blurred => CommandModalFocus::Command,
        CommandModalFocus::Command => CommandModalFocus::Title,
        CommandModalFocus::Title => CommandModalFocus::Interval,
        CommandModalFocus::Interval => CommandModalFocus::Command,
    }
}

/// `BackTab` in the command dialog: the other way round.
pub open spec fn prev_field(f: CommandModalFocus) -> CommandModalFocus {
    match f {
        CommandModalFocus::Blurred => CommandModalFocus::Interval,
        CommandModalFocus::Command => CommandModalFocus::Interval,
        CommandModalFocus::Title => CommandModalFocus::Command,
        CommandModalFocus::Interval => CommandModalFocus::Title,
    }
}

/// `c` is an ASCII digit.
pub open spec fn ascii_digit(c: char) -> bool {
    '0' <= c <= '9'
}

/// The command dialog. With no field focused: `Esc` closes it, `i` focuses
/// the command, `Enter` saves. With a field focused: `Esc` unfocuses,
/// Control-`s` saves, `Enter` breaks the command's line, `Up`/`Down` move in
/// the command or go to the command / name field, `Tab`/`BackTab` cycle the
/// fields, editing keys edit the focused field, and the interval field takes
/// digits only (anything else gives a warning).
pub open spec fn command_keyed(v: AppView, key: KeyEvent, now: u64) -> AppView {
    let focus = v.command_modal_focus;
    if focus == CommandModalFocus::Blurred {
        match key.code {
            KeyCode::Esc => AppView { mode: Mode::Normal, ..v },
            KeyCode::Char('i') => AppView { command_modal_focus: CommandModalFocus::Command, ..v },
            KeyCode::Enter => command_modal_saved(v, now),
            _ => v,
        }
    } else {
        match key.code {
            KeyCode::Esc => AppView { command_modal_focus: CommandModalFocus::Blurred, ..v },
            KeyCode::Enter => if focus == CommandModalFocus::Command {
                AppView { command_input: typed(v.command_input, '\n'), ..v }
            } else {
                v
            },
            KeyCode::Up => if focus == CommandModalFocus::Command {
                AppView { command_input: moved_up(v.command_input), ..v }
            } else {
                AppView { command_modal_focus: CommandModalFocus::Command, ..v }
            },
            KeyCode::Down => if focus == CommandModalFocus::Command {
                AppView { command_input: moved_down(v.command_input), ..v }
            } else {
                AppView { command_modal_focus: CommandModalFocus::Title, ..v }
            },
            KeyCode::Tab => AppView { command_modal_focus: next_field(focus), ..v },
            KeyCode::BackTab => AppView { command_modal_focus: prev_field(focus), ..v },
            KeyCode::Left => with_active(v, moved_left(active_field(v))),
            KeyCode::Right => with_active(v, moved_right(active_field(v))),
            KeyCode::Backspace => with_active(v, backspaced(active_field(v))),
            KeyCode::Char(ch) => if key.ctrl {
                if ch == 's' {
                    command_modal_saved(v, now)
                } else {
                    v
                }
            } else if focus == CommandModalFocus::Interval && !ascii_digit(ch) {
                AppView {
                    toast: toast_at("interval only accepts digits"@, ToastLevel::Warning, now),
                    ..v
                }
            } else {
                with_active(v, typed(active_field(v), ch))
            },
            _ => v,
        }
    }
}

/// The first variable field from `i` on that is required and blank.
pub open spec fn missing_from(fs: Seq<crate::app::VarFieldView>, i: int) -> Option<int>
    decreases fs.len() - i,
{
    if i < 0 || i >= fs.len() {
        None
    } else if fs[i].required && trim(fs[i].input.0).len() == 0 {
        Some(i)
    } else {
        missing_from(fs, i + 1)
    }
}

/// The message for a required variable left blank.
pub open spec fn required_message(name: Seq<char>) -> Seq<char> {
    "variable `"@ + name + "` is required"@
}

/// The variables dialog: `Esc` quits; `Tab`/`BackTab` cycle the fields;
/// `Enter` goes to the next field, or on the last one asks to apply the
/// variables unless a required field is blank (then that field is focused
/// and an error shown); other keys edit the focused field. With no fields the
/// dialog just closes.
pub open spec fn vars_keyed(v: AppView, key: KeyEvent, now: u64) -> (AppView, Reply) {
    let fs = v.vars_fields;
    let n = fs.len();
    let f = v.vars_focus as int;
    if n == 0 {
        (AppView { mode: Mode::Normal, ..v }, Reply::Nothing)
    } else {
        match key.code {
            KeyCode::Esc => (v, Reply::Quit),
            KeyCode::Tab => (AppView { vars_focus: ((f + 1) % (n as int)) as usize, ..v }, Reply::Nothing),
            KeyCode::BackTab => (
                AppView {
                    vars_focus: if f == 0 {
                        (n - 1) as usize
                    } else {
                        (f - 1) as usize
                    },
                    ..v
                },
                Reply::Nothing,
            ),
            KeyCode::Enter => if f + 1 < n {
                (AppView { vars_focus: (f + 1) as usize, ..v }, Reply::Nothing)
            } else {
                match missing_from(fs, 0) {
                    Some(i) => (
                        AppView {
                            vars_focus: i as usize,
                            toast: toast_at(required_message(fs[i].name), ToastLevel::Error, now),
                            ..v
                        },
                        Reply::Nothing,
                    ),
                    None => (v, Reply::ApplyVars),
                }
            },
            _ => (
                AppView {
                    vars_fields: fs.update(
                        f,
                        crate::app::VarFieldView { input: edited(fs[f].input, key), ..fs[f] },
                    ),
                    ..v
                },
                Reply::Nothing,
            ),
        }
    }
}

/// `v` with the focus moved by `dr` rows and `dc` columns.
pub open spec fn moved_focus(v: AppView, dr: int, dc: int) -> AppView {
    AppView { focused: focus_target(v.panes.len() as usize, v.focused, dr, dc), ..v }
}

/// A new, empty pane numbered `id`, titled `Pane {id + 1}`, due at `now`.
pub open spec fn new_pane_view(id: usize, interval: u64, now: u64) -> PaneView {
    PaneView {
        id,
        title: pane_title((id + 1) as nat),
        cmd: Seq::empty(),
        interval_ms: interval,
        paused: false,
        running: false,
        run_started_at: None,
        long_running_latched: false,
        last_long_running_ms: None,
        last_started: None,
        last_finished: None,
        last_exit_code: None,
        last_error: None,
        output: Seq::empty(),
        scroll: 0,
        next_run: now,
        pending_run_once: false,
    }
}

/// The arrangement of the panes: the user's, else the default one.
pub open spec fn current_layout(v: AppView) -> LayoutNode {
    match v.layout {
        Some(t) => t,
        None => default_spec(v.panes.len() as usize),
    }
}

/// The focused pane split in two along `axis`: a new empty pane appears
/// beside it, last in the list, and takes the focus (nothing changes when
/// the list of panes cannot grow).
pub open spec fn pane_split(v: AppView, axis: SplitAxis, now: u64) -> AppView {
    let n = v.panes.len();
    if n < usize::MAX {
        AppView {
            panes: v.panes.push(new_pane_view(n as usize, v.default_interval_ms, now)),
            layout: Some(split_spec(current_layout(v), v.focused, axis, n as usize)->0),
            focused: n as usize,
            ..v
        }
    } else {
        v
    }
}

/// The focused pane closed: the panes after it move up one place (and are
/// renumbered), its layout leaves go, and the focus stays at its place (or
/// goes to the new last pane).
pub open spec fn pane_closed(v: AppView) -> AppView {
    let n = v.panes.len();
    let f = v.focused;
    AppView {
        panes: Seq::new(
            (n - 1) as nat,
            |i: int|
                if i < f {
                    v.panes[i]
                } else {
                    PaneView { id: i as usize, ..v.panes[i + 1] }
                },
        ),
        layout: match v.layout {
            Some(t) => close_spec(t, f),
            None => None,
        },
        focused: if f < n - 1 {
            f
        } else {
            (n - 2) as usize
        },
        ..v
    }
}

/// The focused pane resized along `axis` by `delta` percent (see
/// [`adjust_spec`]).
pub open spec fn pane_resized(v: AppView, axis: SplitAxis, delta: i16) -> AppView {
    AppView { layout: Some((adjust_spec(current_layout(v), v.focused, axis, delta)->0).0), ..v }
}

/// The dashboard itself: Control-`c` and `q` quit, `z` saves the view and
/// quits, arrows and `h`/`j`/`k`/`l` move the focus, `i` opens the command
/// dialog, `Enter` the in-pane command line, `t` the rename dialog, `s` the
/// save dialog, `?` the help; `r`/`R` rerun one or all panes, space and `p`
/// pause one or all, `+`/`=` and `-`/`_` change the interval by 50 ms, and
/// `Backspace` on a pane with a command asks whether to clear it.
pub open spec fn normal_keyed(v: AppView, key: KeyEvent, now: u64) -> (AppView, Reply) {
    if key.code == KeyCode::Char('c') && key.ctrl {
        (v, Reply::Quit)
    } else {
        match key.code {
            KeyCode::Left => (moved_focus(v, 0, -1), Reply::Nothing),
            KeyCode::Right => (moved_focus(v, 0, 1), Reply::Nothing),
            KeyCode::Up => (moved_focus(v, -1, 0), Reply::Nothing),
            KeyCode::Down => (moved_focus(v, 1, 0), Reply::Nothing),
            KeyCode::Enter => (inline_opened(v), Reply::Nothing),
            KeyCode::Backspace => if trim(focused_of(v).cmd).len() > 0 {
                (AppView { mode: Mode::DeleteConfirm, ..v }, Reply::Nothing)
            } else {
                (v, Reply::Nothing)
            },
            KeyCode::Char(c) => {
                if c == 'h' {
                    (moved_focus(v, 0, -1), Reply::Nothing)
                } else if c == 'l' {
                    (moved_focus(v, 0, 1), Reply::Nothing)
                } else if c == 'k' {
                    (moved_focus(v, -1, 0), Reply::Nothing)
                } else if c == 'j' {
                    (moved_focus(v, 1, 0), Reply::Nothing)
                } else if c == 'i' {
                    (command_modal_opened(v), Reply::Nothing)
                } else if c == 't' {
                    (title_modal_opened(v), Reply::Nothing)
                } else if c == 'r' {
                    (with_focused(v, PaneView { next_run: now, scroll: 0, ..focused_of(v) }), Reply::Nothing)
                } else if c == 'R' {
                    (all_rerun(v, now), Reply::Nothing)
                } else if c == ' ' {
                    (
                        with_focused(v, PaneView { paused: !focused_of(v).paused, ..focused_of(v) }),
                        Reply::Nothing,
                    )
                } else if c == 'p' {
                    (AppView { global_paused: !v.global_paused, ..v }, Reply::Nothing)
                } else if c == '+' || c == '=' {
                    (interval_adjusted(v, 50i64, now), Reply::Nothing)
                } else if c == '-' || c == '_' {
                    (interval_adjusted(v, -50i64, now), Reply::Nothing)
                } else if c == 's' {
                    (
                        AppView {
                            save_input: fresh(save_suggestion(v.loaded_preset)),
                            mode: Mode::SaveModal,
                            ..v
                        },
                        Reply::Nothing,
                    )
                } else if c == '?' {
                    (AppView { mode: Mode::Help, ..v }, Reply::Nothing)
                } else if c == 'v' {
                    (pane_split(v, SplitAxis::Vertical, now), Reply::Nothing)
                } else if c == 'b' {
                    (pane_split(v, SplitAxis::Horizontal, now), Reply::Nothing)
                } else if c == 'x' {
                    if v.panes.len() > 1 {
                        (pane_closed(v), Reply::ClosedPane(v.focused))
                    } else {
                        (v, Reply::Nothing)
                    }
                } else if c == 'H' {
                    (pane_resized(v, SplitAxis::Vertical, -5i16), Reply::Nothing)
                } else if c == 'L' {
                    (pane_resized(v, SplitAxis::Vertical, 5i16), Reply::Nothing)
                } else if c == 'K' {
                    (pane_resized(v, SplitAxis::Horizontal, -5i16), Reply::Nothing)
                } else if c == 'J' {
                    (pane_resized(v, SplitAxis::Horizontal, 5i16), Reply::Nothing)
                } else if c == 'z' {
                    (v, Reply::SaveResumeAndQuit)
                } else if c == 'q' {
                    (v, Reply::Quit)
                } else {
                    (v, Reply::Nothing)
                }
            },
            _ => (v, Reply::Nothing),
        }
    }
}

/// What a key does in each mode.
pub open spec fn key_step(v: AppView, key: KeyEvent, now: u64) -> (AppView, Reply) {
    match v.mode {
        Mode::Help => (help_keyed(v, key), Reply::Nothing),
        Mode::VarsModal => vars_keyed(v, key, now),
        Mode::InlineCommand => (inline_keyed(v, key, now), Reply::Nothing),
        Mode::DeleteConfirm => (delete_keyed(v, key, now), Reply::Nothing),
        Mode::CommandModal => (command_keyed(v, key, now), Reply::Nothing),
        Mode::TitleModal => (title_keyed(v, key), Reply::Nothing),
        Mode::SaveModal => save_keyed(v, key),
        Mode::Normal => normal_keyed(v, key, now),
    }
}

impl App {
    /// Handles a key press at `now_ms` (see [`key_step`]) and says what the
    /// caller should do next.
    pub fn handle_key(&mut self, key: KeyEvent, now_ms: u64) -> (r: KeyAction)
        requires
            old(self).wf(),
        ensures
            final(self).wf(),
            (final(self)@, r@) == key_step(old(self)@, key, now_ms),
    {
        match self.mode {
            Mode::Help => {
                if key.code == KeyCode::Esc || key.code == KeyCode::Char('?') {
                    self.mode = Mode::Normal;
                }
                KeyAction::Nothing
            },
            Mode::VarsModal => self.handle_vars_key(key, now_ms),
            Mode::InlineCommand => {
                self.handle_inline_command_key(key, now_ms);
                KeyAction::Nothing
            },
            Mode::DeleteConfirm => {
                self.handle_delete_confirm_key(key, now_ms);
                KeyAction::Nothing
            },
            Mode::CommandModal => {
                self.handle_command_modal_key(key, now_ms);
                KeyAction::Nothing
            },
            Mode::TitleModal => {
                self.handle_title_key(key);
                KeyAction::Nothing
            },
            Mode::SaveModal => self.handle_save_key(key),
            Mode::Normal => self.handle_normal_key(key, now_ms),
        }
    }

    /// The current arrangement of the panes (see [`current_layout`]).
    fn layout_now(&self) -> (t: LayoutNode)
        requires
            self.wf(),
        ensures
            t == current_layout(self@),
            shows_each_once(t, self.panes@.len() as int),
            ratios_ok(t),
    {
        match &self.layout {
            Some(t) => t.clone(),
            None => {
                proof {
                    assert(self.panes@.len() >= 1);
                    lemma_default_shows(self.panes.len());
                }
                default_layout_tree(self.panes.len())
            },
        }
    }

    /// Splits the focused pane along `axis` (see [`pane_split`]).
    pub fn split_focused(&mut self, axis: SplitAxis, now_ms: u64)
        requires
            old(self).wf(),
        ensures
            final(self).wf(),
            final(self)@ == pane_split(old(self)@, axis, now_ms),
    {
        let n = self.panes.len();
        if n == usize::MAX {
            return;
        }
        let mut t = self.layout_now();
        proof {
            lemma_split_shows(t, n, self.focused, axis);
        }
        let ok = split_pane(&mut t, self.focused, axis, n);
        let title = pane_title_string(n as u64 + 1);
        let blank = PanePreset { title, cmd: String::new(), interval_ms: None, paused: false };
        let pane = PaneState::from_preset(n, &blank, self.default_interval_ms, now_ms);
        assert(pane@ == new_pane_view(n, old(self)@.default_interval_ms, now_ms));
        self.panes.push(pane);
        self.layout = Some(t);
        self.focused = n;
        assert(self@.panes =~= old(self)@.panes.push(new_pane_view(n, old(self)@.default_interval_ms, now_ms)));
    }

    /// Closes the focused pane (see [`pane_closed`]).
    pub fn close_focused(&mut self)
        requires
            old(self).wf(),
            old(self).panes@.len() > 1,
        ensures
            final(self).wf(),
            final(self)@ == pane_closed(old(self)@),
    {
        let n = self.panes.len();
        let f = self.focused;
        let layout = match &self.layout {
            Some(t) => {
                proof {
                    lemma_close_shows(*t, n as int, f);
                }
                close_pane(t.clone(), f)
            },
            None => None,
        };
        self.layout = layout;
        let ghost before = self.panes@;
        let mut panes: Vec<PaneState> = Vec::new();
        std::mem::swap(&mut panes, &mut self.panes);
        let _gone = panes.remove(f);
        let mut i: usize = f;
        while i < n - 1
            invariant
                f <= i <= n - 1,
                n == before.len(),
                before == old(self).panes@,
                panes@.len() == n - 1,
                forall|k: int| 0 <= k < before.len() ==> (#[trigger] before[k]).output@.len()
                    <= crate::app::MAX_OUTPUT_LINES,
                forall|k: int| 0 <= k < f ==> #[trigger] panes@[k] == before[k],
                forall|k: int| f <= k < i ==> (#[trigger] panes@[k])@ == (PaneView {
                    id: k as usize,
                    ..before[k + 1]@
                }) && panes@[k].output@.len() <= crate::app::MAX_OUTPUT_LINES,
                forall|k: int| i <= k < n - 1 ==> #[trigger] panes@[k] == before[k + 1],
            decreases n - 1 - i,
        {
            assert(panes@[i as int] == before[i + 1]);
            panes[i].id = i;
            i += 1;
        }
        self.panes = panes;
        if f >= n - 1 {
            self.focused = n - 2;
        }
        assert(self@.panes =~= pane_closed(old(self)@).panes);
    }

    /// Resizes the focused pane along `axis` by `delta` percent (see
    /// [`pane_resized`]).
    pub fn resize_focused(&mut self, axis: SplitAxis, delta: i16)
        requires
            old(self).wf(),
            -100 <= delta <= 100,
        ensures
            final(self).wf(),
            final(self)@ == pane_resized(old(self)@, axis, delta),
    {
        let mut t = self.layout_now();
        proof {
            lemma_adjust_shows(t, self.panes@.len() as int, self.focused, axis, delta);
        }
        let _changed = adjust_split_ratio_for_pane(&mut t, self.focused, axis, delta);
        self.layout = Some(t);
    }

    fn handle_normal_key(&mut self, key: KeyEvent, now_ms: u64) -> (r: KeyAction)
        requires
            old(self).wf(),
        ensures
            final(self).wf(),
            (final(self)@, r@) == normal_keyed(old(self)@, key, now_ms),
    {
        if key.code == KeyCode::Char('c') && key.ctrl {
            return KeyAction::Quit;
        }
        match key.code {
            KeyCode::Left => self.focus_next(0, -1),
            KeyCode::Right => self.focus_next(0, 1),
            KeyCode::Up => self.focus_next(-1, 0),
            KeyCode::Down => self.focus_next(1, 0),
            KeyCode::Enter => self.open_inline_command(),
            KeyCode::Backspace => {
                if !is_blank(self.panes[self.focused].cmd.as_str()) {
                    self.mode = Mode::DeleteConfirm;
                }
            },
            KeyCode::Char(c) => {
                if c == 'h' {
                    self.focus_next(0, -1);
                } else if c == 'l' {
                    self.focus_next(0, 1);
                } else if c == 'k' {
                    self.focus_next(-1, 0);
                } else if c == 'j' {
                    self.focus_next(1, 0);
                } else if c == 'i' {
                    self.open_command_modal();
                } else if c == 't' {
                    self.open_title_modal();
                } else if c == 'r' {
                    self.rerun_focused(now_ms);
                } else if c == 'R' {
                    self.rerun_all(now_ms);
                } else if c == ' ' {
                    self.toggle_pause_focused();
                } else if c == 'p' {
                    self.toggle_pause_all();
                } else if c == '+' || c == '=' {
                    self.adjust_interval_focused(50, now_ms);
                } else if c == '-' || c == '_' {
                    self.adjust_interval_focused(-50, now_ms);
                } else if c == 's' {
                    self.open_save_modal();
                } else if c == '?' {
                    self.mode = Mode::Help;
                } else if c == 'v' {
                    self.split_focused(SplitAxis::Vertical, now_ms);
                } else if c == 'b' {
                    self.split_focused(SplitAxis::Horizontal, now_ms);
                } else if c == 'x' {
                    if self.panes.len() > 1 {
                        let f = self.focused;
                        self.close_focused();
                        return KeyAction::ClosedPane(f);
                    }
                } else if c == 'H' {
                    self.resize_focused(SplitAxis::Vertical, -5);
                } else if c == 'L' {
                    self.resize_focused(SplitAxis::Vertical, 5);
                } else if c == 'K' {
                    self.resize_focused(SplitAxis::Horizontal, -5);
                } else if c == 'J' {
                    self.resize_focused(SplitAxis::Horizontal, 5);
                } else if c == 'z' {
                    return KeyAction::SaveResumeAndQuit;
                } else if c == 'q' {
                    return KeyAction::Quit;
                }
            },
            _ => {},
        }
        KeyAction::Nothing
    }

    fn handle_inline_command_key(&mut self, key: KeyEvent, now_ms: u64)
        requires
            old(self).wf(),
        ensures
            final(self).wf(),
            final(self)@ == inline_keyed(old(self)@, key, now_ms),
    {
        let f = self.focused;
        match key.code {
            KeyCode::Esc => {
                self.command_input = TextInput::new(String::new());
                if self.inline_resume_execution {
                    self.panes[f].paused = false;
                    self.panes[f].next_run = now_ms;
                    self.panes[f].pending_run_once = true;
                }
                self.inline_resume_execution = false;
                self.mode = Mode::Normal;
                assert(self@.command_input.0 =~= Seq::<char>::empty());
                assert(self@.panes =~= inline_keyed(old(self)@, key, now_ms).panes);
            },
            KeyCode::Enter => {
                let value = trim_str(self.command_input.value.as_str());
                let resume = self.inline_resume_execution;
                self.panes[f].cmd = value;
                self.panes[f].last_error = None;
                let blank = is_blank(self.panes[f].cmd.as_str());
                if resume && !blank {
                    self.panes[f].paused = false;
                    self.panes[f].next_run = now_ms;
                    self.panes[f].pending_run_once = true;
                } else if blank {
                    self.panes[f].paused = false;
                    self.panes[f].pending_run_once = false;
                    self.panes[f].next_run = now_ms;
                } else {
                    self.panes[f].next_run = now_ms;
                }
                self.command_input = TextInput::new(String::new());
                self.inline_resume_execution = false;
                self.mode = Mode::Normal;
                assert(self@.command_input.0 =~= Seq::<char>::empty());
                assert(self@.panes =~= inline_keyed(old(self)@, key, now_ms).panes);
            },
            _ => edit(&mut self.command_input, key),
        }
    }

    fn handle_delete_confirm_key(&mut self, key: KeyEvent, now_ms: u64)
        requires
            old(self).wf(),
        ensures
            final(self).wf(),
            final(self)@ == delete_keyed(old(self)@, key, now_ms),
    {
        match key.code {
            KeyCode::Esc => self.mode = Mode::Normal,
            KeyCode::Char('n') => self.mode = Mode::Normal,
            KeyCode::Enter => self.clear_focused(now_ms),
            KeyCode::Char('y') => self.clear_focused(now_ms),
            _ => {},
        }
    }

    /// Clears the focused pane's command and output and closes the dialog.
    pub(crate) fn clear_focused(&mut self, now_ms: u64)
        requires
            old(self).wf(),
        ensures
            final(self).wf(),
            final(self)@ == with_focused(
                AppView { mode: Mode::Normal, ..old(self)@ },
                cleared(focused_of(old(self)@), now_ms),
            ),
    {
        let f = self.focused;
        self.panes[f].cmd = String::new();
        self.panes[f].output = Vec::new();
        self.panes[f].last_error = None;
        self.panes[f].last_exit_code = None;
        self.panes[f].running = false;
        self.panes[f].run_started_at = None;
        self.panes[f].scroll = 0;
        self.panes[f].next_run = now_ms;
        self.mode = Mode::Normal;
        assert(self.panes@[f as int]@.cmd =~= Seq::<char>::empty());
        assert(self.panes@[f as int]@.output =~= Seq::<Seq<char>>::empty());
        assert(self@.panes =~= old(self)@.panes.update(
            f as int,
            cleared(focused_of(old(self)@), now_ms),
        ));
    }

    fn handle_title_key(&mut self, key: KeyEvent)
        requires
            old(self).wf(),
        ensures
            final(self).wf(),
            final(self)@ == title_keyed(old(self)@, key),
    {
        match key.code {
            KeyCode::Esc => self.mode = Mode::Normal,
            KeyCode::Enter => {
                let f = self.focused;
                self.panes[f].title = self.title_input.value.clone();
                self.mode = Mode::Normal;
                assert(self@.panes =~= title_keyed(old(self)@, key).panes);
            },
            _ => edit(&mut self.title_input, key),
        }
    }

    fn handle_save_key(&mut self, key: KeyEvent) -> (r: KeyAction)
        requires
            old(self).wf(),
        ensures
            final(self).wf(),
            (final(self)@, r@) == save_keyed(old(self)@, key),
    {
        match key.code {
            KeyCode::Esc => {
                self.mode = Mode::Normal;
                KeyAction::Nothing
            },
            KeyCode::Enter => KeyAction::SavePreset(trim_str(self.save_input.value.as_str())),
            _ => {
                edit(&mut self.save_input, key);
                KeyAction::Nothing
            },
        }
    }

    fn edit_active(&mut self, key: KeyEvent)
        requires
            old(self).wf(),
            key.code == KeyCode::Left || key.code == KeyCode::Right || key.code == KeyCode::Backspace
                || (key.code is Char && !key.ctrl),
        ensures
            final(self).wf(),
            final(self)@ == with_active(old(self)@, edited(active_field(old(self)@), key)),
    {
        match self.command_modal_focus {
            CommandModalFocus::Title => edit(&mut self.title_input, key),
            CommandModalFocus::Interval => edit(&mut self.interval_input, key),
            _ => edit(&mut self.command_input, key),
        }
    }

    fn handle_command_modal_key(&mut self, key: KeyEvent, now_ms: u64)
        requires
            old(self).wf(),
        ensures
            final(self).wf(),
            final(self)@ == command_keyed(old(self)@, key, now_ms),
    {
        let focus = self.command_modal_focus;
        if focus == CommandModalFocus::Blurred {
            match key.code {
                KeyCode::Esc => self.mode = Mode::Normal,
                KeyCode::Char('i') => self.command_modal_focus = CommandModalFocus::Command,
                KeyCode::Enter => self.apply_command_modal_save(now_ms),
                _ => {},
            }
            return;
        }
        match key.code {
            KeyCode::Esc => self.command_modal_focus = CommandModalFocus::Blurred,
            KeyCode::Enter => {
                if focus == CommandModalFocus::Command {
                    type_char(&mut self.command_input, '\n');
                }
            },
            KeyCode::Up => {
                if focus == CommandModalFocus::Command {
                    self.command_input.move_up();
                } else {
                    self.command_modal_focus = CommandModalFocus::Command;
                }
            },
            KeyCode::Down => {
                if focus == CommandModalFocus::Command {
                    self.command_input.move_down();
                } else {
                    self.command_modal_focus = CommandModalFocus::Title;
                }
            },
            KeyCode::Tab => {
                self.command_modal_focus = match focus {
                    CommandModalFocus::Blurred => CommandModalFocus::Command,
                    CommandModalFocus::Command => CommandModalFocus::Title,
                    CommandModalFocus::Title => CommandModalFocus::Interval,
                    CommandModalFocus::Interval => CommandModalFocus::Command,
                };
            },
            KeyCode::BackTab => {
                self.command_modal_focus = match focus {
                    CommandModalFocus::Blurred => CommandModalFocus::Interval,
                    CommandModalFocus::Command => CommandModalFocus::Interval,
                    CommandModalFocus::Title => CommandModalFocus::Command,
                    CommandModalFocus::Interval => CommandModalFocus::Title,
                };
            },
            KeyCode::Left => self.edit_active(key),
            KeyCode::Right => self.edit_active(key),
            KeyCode::Backspace => self.edit_active(key),
            KeyCode::Char(ch) => {
                if key.ctrl {
                    if ch == 's' {
                        self.apply_command_modal_save(now_ms);
                    }
                } else if focus == CommandModalFocus::Interval && !('0' <= ch && ch <= '9') {
                    self.toast = Some(
                        Toast {
                            message: "interval only accepts digits".to_string(),
                            level: ToastLevel::Warning,
                            created_ms: now_ms,
                        },
                    );
                } else {
                    self.edit_active(key);
                }
            },
            _ => {},
        }
    }

    fn handle_vars_key(&mut self, key: KeyEvent, now_ms: u64) -> (r: KeyAction)
        requires
            old(self).wf(),
        ensures
            final(self).wf(),
            (final(self)@, r@) == vars_keyed(old(self)@, key, now_ms),
    {
        let n = self.vars_fields.len();
        if n == 0 {
            self.mode = Mode::Normal;
            return KeyAction::Nothing;
        }
        let f = self.vars_focus;
        match key.code {
            KeyCode::Esc => KeyAction::Quit,
            KeyCode::Tab => {
                self.vars_focus = (f + 1) % n;
                KeyAction::Nothing
            },
            KeyCode::BackTab => {
                self.vars_focus = if f == 0 {
                    n - 1
                } else {
                    f - 1
                };
                KeyAction::Nothing
            },
            KeyCode::Enter => {
                if f + 1 < n {
                    self.vars_focus = f + 1;
                    return KeyAction::Nothing;
                }
                let ghost fs = self@.vars_fields;
                let mut i: usize = 0;
                while i < n
                    invariant
                        i <= n,
                        n == self.vars_fields@.len(),
                        fs == self@.vars_fields,
                        fs.len() == n,
                        missing_from(fs, 0) == missing_from(fs, i as int),
                        self@ == old(self)@,
                        self.wf(),
                        f == self.vars_focus,
                        f + 1 >= n,
                        n > 0,
                        key.code == KeyCode::Enter,
                    decreases n - i,
                {
                    let field = &self.vars_fields[i];
                    assert(fs[i as int] == field@);
                    if field.required && is_blank(field.input.value.as_str()) {
                        let message = concat(
                            concat("variable `", field.name.as_str()).as_str(),
                            "` is required",
                        );
                        assert(missing_from(fs, i as int) == Some(i as int));
                        assert(message@ == required_message(fs[i as int].name));
                        self.vars_focus = i;
                        self.toast = Some(
                            Toast { message, level: ToastLevel::Error, created_ms: now_ms },
                        );
                        return KeyAction::Nothing;
                    }
                    i += 1;
                }
                KeyAction::ApplyVars
            },
            _ => {
                edit(&mut self.vars_fields[f].input, key);
                assert(self@.vars_fields =~= vars_keyed(old(self)@, key, now_ms).0.vars_fields);
                KeyAction::Nothing
            },
        }
    }
}

} // verus!
