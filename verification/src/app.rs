//! The dashboard's state: panes, the focused pane, the input mode and the
//! text fields of its dialogs. Times are milliseconds handed in by the
//! caller: `now_ms` on a monotonic clock, `wall_ms` on the wall clock.
use vstd::prelude::*;
use crate::input::{lines, TextInput};
use crate::names::VarMap;
use crate::preset::{opt_view, PanePreset, Preset};
use crate::text::{chars_of, string_of};
use crate::theme::Theme;
use crate::layout::LayoutNode;
use crate::panes::{ratios_ok, shows_each_once};

verus! {

/// Output lines kept per pane.
pub const MAX_OUTPUT_LINES: usize = 400;

/// How a status message is coloured.
#[derive(Debug, Clone, Copy, PartialEq, Eq, Structural)]
pub enum ToastLevel {
    Info,
    Success,
    Warning,
    Error,
}

/// A status message and when it appeared.
#[derive(Debug, Clone)]
pub struct Toast {
    pub message: String,
    pub level: ToastLevel,
    pub created_ms: u64,
}

/// What keys currently do.
#[derive(Debug, Clone, Copy, PartialEq, Eq, Structural)]
pub enum Mode {
    Normal,
    InlineCommand,
    CommandModal,
    DeleteConfirm,
    TitleModal,
    SaveModal,
    VarsModal,
    Help,
}

/// A variable asked for at startup.
#[derive(Debug, Clone)]
pub struct VarField {
    pub name: String,
    pub input: TextInput,
    pub required: bool,
}

/// One pane: its command, schedule, last run and output.
#[derive(Debug)]
pub struct PaneState {
    pub id: usize,
    pub title: String,
    pub cmd: String,
    pub interval_ms: u64,
    pub paused: bool,
    pub running: bool,
    pub run_started_at: Option<u64>,
    pub long_running_latched: bool,
    pub last_long_running_ms: Option<u64>,
    pub last_started: Option<u64>,
    pub last_finished: Option<u64>,
    pub last_exit_code: Option<i32>,
    pub last_error: Option<String>,
    pub output: Vec<String>,
    pub scroll: u16,
    pub next_run: u64,
    pub pending_run_once: bool,
}

/// How a command run ended.
#[derive(Debug)]
pub enum CommandResult {
    Finished { pane_id: usize, output: String, exit_code: i32 },
    Failed { pane_id: usize, error: String },
}

/// Which field of the command dialog has the keyboard.
#[derive(Debug, Clone, Copy, PartialEq, Eq, Structural)]
pub enum CommandModalFocus {
    /// No field: keys act on the dialog itself.
    Blurred,
    Command,
    Title,
    Interval,
}

/// What the caller is asked to do after a key.
#[derive(Debug)]
pub enum KeyAction {
    /// Nothing to do.
    Nothing,
    Quit,
    SaveResumeAndQuit,
    SavePreset(String),
    ApplyVars,
    /// The pane at this index was closed; the panes after it moved up one
    /// place.
    ClosedPane(usize),
}

/// The whole dashboard.
pub struct App {
    pub panes: Vec<PaneState>,
    /// How the panes are arranged once the user has split, closed or resized
    /// one; until then they fill the default grid.
    pub layout: Option<LayoutNode>,
    pub focused: usize,
    pub mode: Mode,
    pub command_input: TextInput,
    pub interval_input: TextInput,
    pub command_modal_focus: CommandModalFocus,
    pub title_input: TextInput,
    pub save_input: TextInput,
    pub vars_fields: Vec<VarField>,
    pub vars_focus: usize,
    pub theme: Theme,
    pub default_interval_ms: u64,
    pub loaded_preset: Option<String>,
    pub global_paused: bool,
    pub toast: Option<Toast>,
    pub should_quit: bool,
    pub accent_override: Option<String>,
    pub inline_resume_execution: bool,
}

/// A toast as values.
pub struct ToastView {
    pub message: Seq<char>,
    pub level: ToastLevel,
    pub created_ms: u64,
}

/// A variable field as values.
pub struct VarFieldView {
    pub name: Seq<char>,
    pub input: (Seq<char>, int),
    pub required: bool,
}

/// A pane as values.
pub struct PaneView {
    pub id: usize,
    pub title: Seq<char>,
    pub cmd: Seq<char>,
    pub interval_ms: u64,
    pub paused: bool,
    pub running: bool,
    pub run_started_at: Option<u64>,
    pub long_running_latched: bool,
    pub last_long_running_ms: Option<u64>,
    pub last_started: Option<u64>,
    pub last_finished: Option<u64>,
    pub last_exit_code: Option<i32>,
    pub last_error: Option<Seq<char>>,
    pub output: Seq<Seq<char>>,
    pub scroll: u16,
    pub next_run: u64,
    pub pending_run_once: bool,
}

/// The dashboard as values.
pub struct AppView {
    pub panes: Seq<PaneView>,
    pub layout: Option<LayoutNode>,
    pub focused: usize,
    pub mode: Mode,
    pub command_input: (Seq<char>, int),
    pub interval_input: (Seq<char>, int),
    pub command_modal_focus: CommandModalFocus,
    pub title_input: (Seq<char>, int),
    pub save_input: (Seq<char>, int),
    pub vars_fields: Seq<VarFieldView>,
    pub vars_focus: usize,
    pub theme: Theme,
    pub default_interval_ms: u64,
    pub loaded_preset: Option<Seq<char>>,
    pub global_paused: bool,
    pub toast: Option<ToastView>,
    pub should_quit: bool,
    pub accent_override: Option<Seq<char>>,
    pub inline_resume_execution: bool,
}

impl View for Toast {
    type V = ToastView;

    open spec fn view(&self) -> ToastView {
        ToastView { message: self.message@, level: self.level, created_ms: self.created_ms }
    }
}

impl View for VarField {
    type V = VarFieldView;

    open spec fn view(&self) -> VarFieldView {
        VarFieldView { name: self.name@, input: self.input@, required: self.required }
    }
}

impl View for PaneState {
    type V = PaneView;

    open spec fn view(&self) -> PaneView {
        PaneView {
            id: self.id,
            title: self.title@,
            cmd: self.cmd@,
            interval_ms: self.interval_ms,
            paused: self.paused,
            running: self.running,
            run_started_at: self.run_started_at,
            long_running_latched: self.long_running_latched,
            last_long_running_ms: self.last_long_running_ms,
            last_started: self.last_started,
            last_finished: self.last_finished,
            last_exit_code: self.last_exit_code,
            last_error: opt_view(self.last_error),
            output: self.output@.map_values(|l: String| l@),
            scroll: self.scroll,
            next_run: self.next_run,
            pending_run_once: self.pending_run_once,
        }
    }
}

/// The toast, if any, as values.
pub open spec fn toast_view(t: Option<Toast>) -> Option<ToastView> {
    match t {
        Some(t) => Some(t@),
        None => None,
    }
}

impl View for App {
    type V = AppView;

    open spec fn view(&self) -> AppView {
        AppView {
            panes: self.panes@.map_values(|p: PaneState| p@),
            layout: self.layout,
            focused: self.focused,
            mode: self.mode,
            command_input: self.command_input@,
            interval_input: self.interval_input@,
            command_modal_focus: self.command_modal_focus,
            title_input: self.title_input@,
            save_input: self.save_input@,
            vars_fields: self.vars_fields@.map_values(|f: VarField| f@),
            vars_focus: self.vars_focus,
            theme: self.theme,
            default_interval_ms: self.default_interval_ms,
            loaded_preset: opt_view(self.loaded_preset),
            global_paused: self.global_paused,
            toast: toast_view(self.toast),
            should_quit: self.should_quit,
            accent_override: opt_view(self.accent_override),
            inline_resume_execution: self.inline_resume_execution,
        }
    }
}

/// A line of output with one carriage return before its line break dropped.
pub open spec fn strip_cr(l: Seq<char>) -> Seq<char> {
    if l.len() > 0 && l.last() == '\r' {
        l.drop_last()
    } else {
        l
    }
}

/// The lines of `s` as `str::lines` gives them: split at each `\n`, with a
/// `\r` just before a `\n` dropped; a final `\n` ends the last line instead
/// of starting an empty one.
pub open spec fn text_lines(s: Seq<char>) -> Seq<Seq<char>> {
    let ps = lines(s);
    let body = ps.drop_last().map_values(|l: Seq<char>| strip_cr(l));
    if ps.last().len() == 0 {
        body
    } else {
        body.push(ps.last())
    }
}

/// What a pane shows of a command's output: its last `MAX_OUTPUT_LINES`
/// lines, or one empty line when there are none.
pub open spec fn output_lines(s: Seq<char>) -> Seq<Seq<char>> {
    let ls = text_lines(s);
    if ls.len() == 0 {
        seq![Seq::empty()]
    } else if ls.len() > MAX_OUTPUT_LINES {
        ls.skip(ls.len() - MAX_OUTPUT_LINES)
    } else {
        ls
    }
}

pub proof fn lemma_output_lines_len(s: Seq<char>)
    ensures
        1 <= output_lines(s).len() <= MAX_OUTPUT_LINES,
{
}

/// Lines joined with `\n` between them.
pub open spec fn joined_lines(ls: Seq<Seq<char>>) -> Seq<char>
    decreases ls.len(),
{
    if ls.len() == 0 {
        Seq::empty()
    } else if ls.len() == 1 {
        ls[0]
    } else {
        joined_lines(ls.drop_last()) + seq!['\n'] + ls.last()
    }
}

/// `a - b`, or 0 when `b > a`.
pub open spec fn elapsed(now: u64, since: u64) -> u64 {
    if now >= since {
        (now - since) as u64
    } else {
        0
    }
}

/// `a + b`, capped at `u64::MAX`.
pub open spec fn later(now: u64, ms: u64) -> u64 {
    if now + ms > u64::MAX {
        u64::MAX
    } else {
        (now + ms) as u64
    }
}

/// How long the current run has taken.
pub open spec fn run_elapsed(p: PaneView, now: u64) -> Option<u64> {
    match p.run_started_at {
        Some(t) => Some(elapsed(now, t)),
        None => None,
    }
}

/// A running command has taken longer than its pane's interval.
pub open spec fn long_running(p: PaneView, now: u64) -> bool {
    p.running && match run_elapsed(p, now) {
        Some(e) => e > p.interval_ms,
        None => false,
    }
}

/// A fresh pane made from a preset pane.
pub open spec fn pane_from_preset(id: usize, p: PanePreset, default_interval: u64, now: u64) -> PaneView {
    PaneView {
        id,
        title: p.title@,
        cmd: p.cmd@,
        interval_ms: match p.interval_ms {
            Some(i) => i,
            None => default_interval,
        },
        paused: p.paused,
        running: false,
        run_started_at: None,
        long_running_latched: false,
        last_long_running_ms: None,
        last_started: None,
        last_finished: None,
        last_exit_code: None,
        last_error: None,
        output: Seq::empty(),
        scroll: 0,
        next_run: now,
        pending_run_once: false,
    }
}

/// The layout name a dashboard of `count` panes is saved with.
pub open spec fn layout_name(count: nat) -> Seq<char> {
    if count == 3 {
        "main-right-stack"@
    } else {
        "grid"@
    }
}

/// The layout name a dashboard of `count` panes is saved with.
pub fn current_layout_name(count: usize) -> (s: &'static str)
    ensures
        s@ == layout_name(count as nat),
{
    if count == 3 {
        "main-right-stack"
    } else {
        "grid"
    }
}

impl PaneState {
    /// A pane made from a preset pane, due to run at `now_ms`.
    pub fn from_preset(id: usize, pane: &PanePreset, default_interval: u64, now_ms: u64) -> (p: Self)
        ensures
            p@ == pane_from_preset(id, *pane, default_interval, now_ms),
            p.output@.len() == 0,
    {
        let p = PaneState {
            id,
            title: pane.title.clone(),
            cmd: pane.cmd.clone(),
            interval_ms: match pane.interval_ms {
                Some(i) => i,
                None => default_interval,
            },
            paused: pane.paused,
            running: false,
            run_started_at: None,
            long_running_latched: false,
            last_long_running_ms: None,
            last_started: None,
            last_finished: None,
            last_exit_code: None,
            last_error: None,
            output: Vec::new(),
            scroll: 0,
            next_run: now_ms,
            pending_run_once: false,
        };
        assert(p@.output =~= Seq::<Seq<char>>::empty());
        p
    }

    /// Replaces the output by the lines of `output` (the last
    /// `MAX_OUTPUT_LINES` of them, or one empty line) and scrolls to the top.
    pub fn set_output(&mut self, output: String)
        ensures
            final(self)@ == (PaneView {
                output: output_lines(output@),
                scroll: 0,
                ..old(self)@
            }),
    {
        let ls = split_output_lines(output.as_str());
        let n = ls.len();
        let mut kept: Vec<String> = Vec::new();
        if n == 0 {
            kept.push(String::new());
            assert(kept@.map_values(|l: String| l@) =~= output_lines(output@));
        } else {
            let start: usize = if n > MAX_OUTPUT_LINES {
                n - MAX_OUTPUT_LINES
            } else {
                0
            };
            let ghost tl = text_lines(output@);
            let mut i: usize = start;
            while i < n
                invariant
                    start <= i <= n,
                    n == ls@.len(),
                    ls@.map_values(|l: String| l@) == tl,
                    kept@.map_values(|l: String| l@) == tl.subrange(start as int, i as int),
                decreases n - i,
            {
                assert(ls@.map_values(|l: String| l@)[i as int] == ls@[i as int]@);
                let ghost before = kept@.map_values(|l: String| l@);
                let line = ls[i].clone();
                assert(line@ == tl[i as int]);
                kept.push(line);
                assert(kept@.map_values(|l: String| l@) =~= before.push(line@));
                assert(kept@.map_values(|l: String| l@) =~= tl.subrange(start as int, i + 1));
                i += 1;
            }
            assert(kept@.map_values(|l: String| l@) =~= output_lines(output@));
        }
        self.output = kept;
        self.scroll = 0;
    }

    /// The output lines joined with line breaks.
    pub fn output_text(&self) -> (s: String)
        ensures
            s@ == joined_lines(self@.output),
    {
        let ghost ls = self@.output;
        let mut out: Vec<char> = Vec::new();
        let mut i: usize = 0;
        while i < self.output.len()
            invariant
                i <= self.output.len(),
                ls == self@.output,
                out@ == joined_lines(ls.take(i as int)),
            decreases self.output.len() - i,
        {
            let line = chars_of(self.output[i].as_str());
            assert(ls[i as int] == self.output@[i as int]@);
            if i > 0 {
                out.push('\n');
            }
            let ghost pre = out@;
            let mut k: usize = 0;
            while k < line.len()
                invariant
                    k <= line.len(),
                    out@ == pre + line@.take(k as int),
                decreases line.len() - k,
            {
                out.push(line[k]);
                assert(line@.take(k + 1) =~= line@.take(k as int).push(line@[k as int]));
                k += 1;
            }
            proof {
                assert(line@.take(k as int) =~= line@);
                let t = ls.take(i + 1);
                assert(t.drop_last() =~= ls.take(i as int));
                assert(t.last() == ls[i as int]);
                if i == 0 {
                    assert(out@ =~= joined_lines(t));
                } else {
                    assert(out@ =~= joined_lines(t));
                }
            }
            i += 1;
        }
        assert(ls.take(self.output.len() as int) =~= ls);
        string_of(&out)
    }
}

/// The lines of `s`, as `str::lines` gives them.
fn split_output_lines(s: &str) -> (r: Vec<String>)
    ensures
        r@.map_values(|l: String| l@) == text_lines(s@),
{
    let cs = chars_of(s);
    let mut done: Vec<String> = Vec::new();
    let mut cur: Vec<char> = Vec::new();
    let mut i: usize = 0;
    assert(cs@.take(0) =~= Seq::<char>::empty());
    assert(done@.map_values(|l: String| l@) =~= lines(cs@.take(0)).drop_last().map_values(
        |l: Seq<char>| strip_cr(l),
    ));
    while i < cs.len()
        invariant
            i <= cs.len(),
            done@.map_values(|l: String| l@) == lines(cs@.take(i as int)).drop_last().map_values(
                |l: Seq<char>| strip_cr(l),
            ),
            cur@ == lines(cs@.take(i as int)).last(),
            lines(cs@.take(i as int)).len() >= 1,
        decreases cs.len() - i,
    {
        let ghost t = cs@.take(i + 1);
        let ghost ps = lines(cs@.take(i as int));
        assert(t.drop_last() =~= cs@.take(i as int));
        assert(t.last() == cs@[i as int]);
        if cs[i] == '\n' {
            let mut line = cur;
            if line.len() > 0 && line[line.len() - 1] == '\r' {
                line.pop();
            }
            assert(line@ == strip_cr(ps.last()));
            let ghost before = done@.map_values(|l: String| l@);
            let text = string_of(&line);
            done.push(text);
            assert(done@.map_values(|l: String| l@) =~= before.push(line@));
            cur = Vec::new();
            assert(lines(t) == ps.push(Seq::empty()));
            assert(lines(t).drop_last() =~= ps);
            assert(ps =~= ps.drop_last().push(ps.last()));
            assert(done@.map_values(|l: String| l@) =~= lines(t).drop_last().map_values(
                |l: Seq<char>| strip_cr(l),
            ));
            assert(cur@ =~= lines(t).last());
        } else {
            cur.push(cs[i]);
            assert(lines(t) == ps.update(ps.len() - 1, ps.last().push(cs@[i as int])));
            assert(lines(t).drop_last() =~= ps.drop_last());
        }
        i += 1;
    }
    assert(cs@.take(cs.len() as int) =~= cs@);
    let ghost ps = lines(cs@);
    if cur.len() > 0 {
        done.push(string_of(&cur));
        assert(done@.map_values(|l: String| l@) =~= text_lines(s@));
    } else {
        assert(done@.map_values(|l: String| l@) =~= text_lines(s@));
    }
    done
}

/// The dashboard a preset opens on: its panes (ids in order, due at
/// `now_ms`), focus on the preset's pane (the last when it names one past
/// the end), in the variables dialog when there are variables to ask for.
pub open spec fn app_from_preset(
    preset: Preset,
    theme: Theme,
    loaded: Option<Seq<char>>,
    fields: Seq<VarFieldView>,
    now: u64,
) -> AppView {
    let d = match preset.default_interval_ms {
        Some(i) => i,
        None => 1000u64,
    };
    let n = preset.panes@.len();
    let f = match preset.focused {
        Some(f) => f,
        None => 0usize,
    };
    AppView {
        panes: Seq::new(n, |i: int| pane_from_preset(i as usize, preset.panes@[i], d, now)),
        layout: None,
        focused: if n == 0 {
            0
        } else if f < n - 1 {
            f
        } else {
            (n - 1) as usize
        },
        mode: if fields.len() == 0 {
            Mode::Normal
        } else {
            Mode::VarsModal
        },
        command_input: (Seq::empty(), 0),
        interval_input: (Seq::empty(), 0),
        command_modal_focus: CommandModalFocus::Command,
        title_input: (Seq::empty(), 0),
        save_input: (Seq::empty(), 0),
        vars_fields: fields,
        vars_focus: 0,
        theme,
        default_interval_ms: d,
        loaded_preset: loaded,
        global_paused: false,
        toast: None,
        should_quit: false,
        accent_override: opt_view(preset.accent),
        inline_resume_execution: false,
    }
}

/// The preset pane a dashboard pane is saved as.
pub open spec fn pane_preset_of(p: PaneView) -> (Seq<char>, Seq<char>, Option<u64>, bool) {
    (p.title, p.cmd, Some(p.interval_ms), p.paused)
}

/// `p` is the dashboard `a` saved as a preset named `name`: the current
/// layout name, interval, theme name and accent (the override, else the
/// theme's), focus and panes, with no variables.
pub open spec fn saved_view(a: App, name: Option<Seq<char>>, p: Preset) -> bool {
    &&& opt_view(p.name) == name
    &&& opt_view(p.layout) == Some(layout_name(a.panes@.len()))
    &&& p.default_interval_ms == Some(a.default_interval_ms)
    &&& opt_view(p.theme) == Some(a.theme.file.name@)
    &&& opt_view(p.accent) == Some(
        match opt_view(a.accent_override) {
            Some(acc) => acc,
            None => a.theme.file.accent@,
        },
    )
    &&& p.focused == Some(a.focused)
    &&& p.vars@.len() == 0
    &&& p.vars.wf()
    &&& p.panes@.len() == a.panes@.len()
    &&& forall|i: int|
        0 <= i < a.panes@.len() ==> ((#[trigger] p.panes@[i]).title@, p.panes@[i].cmd@,
        p.panes@[i].interval_ms, p.panes@[i].paused) == pane_preset_of(a.panes@[i]@)
}

impl App {
    /// The dashboard is consistent: it has panes, each knows its index, the
    /// focus is on one of them, output is capped and every text field's cursor
    /// is on a character boundary.
    pub open spec fn wf(&self) -> bool {
        &&& self.panes@.len() > 0
        &&& self.focused < self.panes@.len()
        &&& (self.layout matches Some(t) ==> shows_each_once(t, self.panes@.len() as int) && ratios_ok(
            t,
        ))
        &&& forall|i: int|
            0 <= i < self.panes@.len() ==> (#[trigger] self.panes@[i]).id == i
                && self.panes@[i].output@.len() <= MAX_OUTPUT_LINES
        &&& self.command_input.wf()
        &&& self.interval_input.wf()
        &&& self.title_input.wf()
        &&& self.save_input.wf()
        &&& forall|i: int|
            0 <= i < self.vars_fields@.len() ==> (#[trigger] self.vars_fields@[i]).input.wf()
        &&& (self.vars_fields@.len() > 0 ==> self.vars_focus < self.vars_fields@.len())
    }

    /// The dashboard for `preset`; `unresolved_vars` are the variables to ask
    /// for before anything runs.
    pub fn from_preset(
        preset: Preset,
        theme: Theme,
        loaded_preset: Option<String>,
        unresolved_vars: Vec<VarField>,
        now_ms: u64,
    ) -> (app: Self)
        requires
            forall|i: int| 0 <= i < unresolved_vars@.len() ==> (#[trigger] unresolved_vars@[i]).input.wf(),
        ensures
            preset.panes@.len() > 0 ==> app.wf(),
            app@ == app_from_preset(
                preset,
                theme,
                opt_view(loaded_preset),
                unresolved_vars@.map_values(|f: VarField| f@),
                now_ms,
            ),
    {
        let default_interval_ms = match preset.default_interval_ms {
            Some(i) => i,
            None => 1000,
        };
        let mut panes: Vec<PaneState> = Vec::new();
        let mut i: usize = 0;
        while i < preset.panes.len()
            invariant
                i <= preset.panes@.len(),
                panes@.len() == i,
                forall|j: int|
                    0 <= j < i ==> (#[trigger] panes@[j])@ == pane_from_preset(
                        j as usize,
                        preset.panes@[j],
                        default_interval_ms,
                        now_ms,
                    ) && panes@[j].output@.len() == 0,
            decreases preset.panes@.len() - i,
        {
            panes.push(PaneState::from_preset(i, &preset.panes[i], default_interval_ms, now_ms));
            i += 1;
        }
        let wanted = match preset.focused {
            Some(f) => f,
            None => 0,
        };
        let last = if panes.len() == 0 {
            0
        } else {
            panes.len() - 1
        };
        let focused = if wanted < last {
            wanted
        } else {
            last
        };
        let mode = if unresolved_vars.len() == 0 {
            Mode::Normal
        } else {
            Mode::VarsModal
        };
        let accent_override = crate::preset::clone_opt(&preset.accent);
        let app = App {
            panes,
            layout: None,
            focused,
            mode,
            command_input: TextInput::new(String::new()),
            interval_input: TextInput::new(String::new()),
            command_modal_focus: CommandModalFocus::Command,
            title_input: TextInput::new(String::new()),
            save_input: TextInput::new(String::new()),
            vars_fields: unresolved_vars,
            vars_focus: 0,
            theme,
            default_interval_ms,
            loaded_preset,
            global_paused: false,
            toast: None,
            should_quit: false,
            accent_override,
            inline_resume_execution: false,
        };
        proof {
            let want = app_from_preset(
                preset,
                theme,
                opt_view(app.loaded_preset),
                app.vars_fields@.map_values(|f: VarField| f@),
                now_ms,
            );
            assert(app@.panes =~= want.panes);
            assert(app.command_input@.0 =~= Seq::<char>::empty());
            assert(app.interval_input@.0 =~= Seq::<char>::empty());
            assert(app.title_input@.0 =~= Seq::<char>::empty());
            assert(app.save_input@.0 =~= Seq::<char>::empty());
        }
        app
    }

    /// The focused pane.
    pub fn focused_pane(&self) -> (p: &PaneState)
        requires
            self.wf(),
        ensures
            p@ == self@.panes[self@.focused as int],
    {
        &self.panes[self.focused]
    }

    /// The dashboard as a preset named `name`: the current layout name,
    /// interval, theme name and accent (the override, else the theme's),
    /// focus and panes, with no variables.
    pub fn to_preset(&self, name: Option<String>) -> (p: Preset)
        ensures
            saved_view(*self, opt_view(name), p),
    {
        let mut panes: Vec<PanePreset> = Vec::new();
        let mut i: usize = 0;
        while i < self.panes.len()
            invariant
                i <= self.panes@.len(),
                panes@.len() == i,
                forall|j: int|
                    0 <= j < i ==> ((#[trigger] panes@[j]).title@, panes@[j].cmd@,
                    panes@[j].interval_ms, panes@[j].paused) == pane_preset_of(self.panes@[j]@),
            decreases self.panes@.len() - i,
        {
            let pane = &self.panes[i];
            panes.push(
                PanePreset {
                    title: pane.title.clone(),
                    cmd: pane.cmd.clone(),
                    interval_ms: Some(pane.interval_ms),
                    paused: pane.paused,
                },
            );
            i += 1;
        }
        let accent = match &self.accent_override {
            Some(a) => a.clone(),
            None => self.theme.file.accent.clone(),
        };
        Preset {
            name,
            layout: Some(current_layout_name(self.panes.len()).to_string()),
            default_interval_ms: Some(self.default_interval_ms),
            theme: Some(self.theme.file.name.clone()),
            accent: Some(accent),
            focused: Some(self.focused),
            vars: VarMap::new(),
            panes,
        }
    }
}

} // verus!
