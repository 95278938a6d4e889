//! What the status bar and the pane headers say, and in which tone.
use vstd::prelude::*;
use crate::app::{long_running, App, AppView, Mode, PaneState, PaneView, ToastLevel};
use crate::keys::focused_of;
use crate::text::{chars_of, is_blank, trim};

verus! {

/// Which theme colour a mark is drawn in.
#[derive(Debug, Clone, Copy, PartialEq, Eq, Structural)]
pub enum Tone {
    Accent,
    Muted,
    Success,
    Warning,
    Error,
    LongRunning,
}

/// The status bar's name for a mode.
pub open spec fn mode_name(mode: Mode) -> Seq<char> {
    match mode {
        Mode::Normal => "NORMAL"@,
        Mode::InlineCommand => "COMMAND"@,
        Mode::CommandModal => "COMMAND"@,
        Mode::DeleteConfirm => "CONFIRM"@,
        Mode::TitleModal => "TITLE"@,
        Mode::SaveModal => "SAVE"@,
        Mode::VarsModal => "VARS"@,
        Mode::Help => "HELP"@,
    }
}

/// The status bar's name for a mode.
pub fn mode_label(mode: Mode) -> (s: &'static str)
    ensures
        s@ == mode_name(mode),
{
    match mode {
        Mode::Normal => "NORMAL",
        Mode::InlineCommand => "COMMAND",
        Mode::CommandModal => "COMMAND",
        Mode::DeleteConfirm => "CONFIRM",
        Mode::TitleModal => "TITLE",
        Mode::SaveModal => "SAVE",
        Mode::VarsModal => "VARS",
        Mode::Help => "HELP",
    }
}

/// The key hints of the status bar: pairs of key and what it does.
pub open spec fn hints_of(v: AppView) -> Seq<(Seq<char>, Seq<char>)> {
    match v.mode {
        Mode::Normal => if trim(focused_of(v).cmd).len() == 0 {
            seq![
                ("Enter"@, "inline"@),
                ("i"@, "multiline"@),
                ("t"@, "title"@),
                ("s"@, "save"@),
                ("?"@, "help"@),
                ("q"@, "quit"@),
            ]
        } else {
            seq![
                ("h/j/k/l"@, "move"@),
                ("i"@, "command"@),
                ("t"@, "title"@),
                ("r"@, "rerun"@),
                ("space"@, "pause"@),
                ("s"@, "save"@),
                ("?"@, "help"@),
                ("q"@, "quit"@),
            ]
        },
        Mode::InlineCommand => seq![
            ("Left/Right"@, "move"@),
            ("Enter"@, "save"@),
            ("Esc"@, "cancel"@),
        ],
        Mode::CommandModal => seq![
            ("Enter"@, "newline/save"@),
            ("Tab"@, "switch"@),
            ("Esc"@, "blur/close"@),
            ("i"@, "focus"@),
        ],
        Mode::DeleteConfirm => seq![("Enter/Y"@, "confirm"@), ("Esc/N"@, "cancel"@)],
        Mode::TitleModal => seq![("type"@, "title"@), ("Enter"@, "save"@), ("Esc"@, "cancel"@)],
        Mode::SaveModal => seq![("type"@, "preset"@), ("Enter"@, "save"@), ("Esc"@, "cancel"@)],
        Mode::VarsModal => seq![("Tab"@, "next"@), ("Enter"@, "next/start"@), ("Esc"@, "cancel"@)],
        Mode::Help => seq![("?/Esc"@, "close"@)],
    }
}

fn pair(k: &str, d: &str) -> (p: (String, String))
    ensures
        p.0@ == k@,
        p.1@ == d@,
{
    (k.to_string(), d.to_string())
}

/// The key hints of the status bar (see [`hints_of`]).
pub fn mode_hints(app: &App) -> (r: Vec<(String, String)>)
    requires
        app.mode == Mode::Normal ==> app.focused < app.panes@.len(),
    ensures
        r@.map_values(|p: (String, String)| (p.0@, p.1@)) == hints_of(app@),
{
    let mut r: Vec<(String, String)> = Vec::new();
    match app.mode {
        Mode::Normal => {
            if is_blank(app.panes[app.focused].cmd.as_str()) {
                r.push(pair("Enter", "inline"));
                r.push(pair("i", "multiline"));
                r.push(pair("t", "title"));
                r.push(pair("s", "save"));
                r.push(pair("?", "help"));
                r.push(pair("q", "quit"));
            } else {
                r.push(pair("h/j/k/l", "move"));
                r.push(pair("i", "command"));
                r.push(pair("t", "title"));
                r.push(pair("r", "rerun"));
                r.push(pair("space", "pause"));
                r.push(pair("s", "save"));
                r.push(pair("?", "help"));
                r.push(pair("q", "quit"));
            }
        },
        Mode::InlineCommand => {
            r.push(pair("Left/Right", "move"));
            r.push(pair("Enter", "save"));
            r.push(pair("Esc", "cancel"));
        },
        Mode::CommandModal => {
            r.push(pair("Enter", "newline/save"));
            r.push(pair("Tab", "switch"));
            r.push(pair("Esc", "blur/close"));
            r.push(pair("i", "focus"));
        },
        Mode::DeleteConfirm => {
            r.push(pair("Enter/Y", "confirm"));
            r.push(pair("Esc/N", "cancel"));
        },
        Mode::TitleModal => {
            r.push(pair("type", "title"));
            r.push(pair("Enter", "save"));
            r.push(pair("Esc", "cancel"));
        },
        Mode::SaveModal => {
            r.push(pair("type", "preset"));
            r.push(pair("Enter", "save"));
            r.push(pair("Esc", "cancel"));
        },
        Mode::VarsModal => {
            r.push(pair("Tab", "next"));
            r.push(pair("Enter", "next/start"));
            r.push(pair("Esc", "cancel"));
        },
        Mode::Help => {
            r.push(pair("?/Esc", "close"));
        },
    }
    assert(r@.map_values(|p: (String, String)| (p.0@, p.1@)) =~= hints_of(app@));
    r
}

/// The cells the hints take: each key, a space and its meaning, with ` • `
/// between hints.
pub open spec fn hints_width(h: Seq<(Seq<char>, Seq<char>)>) -> int
    decreases h.len(),
{
    if h.len() == 0 {
        0
    } else {
        hints_width(h.drop_last()) + h.last().0.len() + 1 + h.last().1.len() + if h.len() > 1 {
            3int
        } else {
            0int
        }
    }
}

/// The cells the hints take (see [`hints_width`]), as a cell count.
pub fn mode_hints_width(app: &App) -> (w: u16)
    requires
        app.mode == Mode::Normal ==> app.focused < app.panes@.len(),
    ensures
        w == hints_width(hints_of(app@)) as u16,
{
    let hints = mode_hints(app);
    let ghost h = hints_of(app@);
    let mut width: u128 = 0;
    let mut i: usize = 0;
    assert(h.take(0) =~= Seq::<(Seq<char>, Seq<char>)>::empty());
    while i < hints.len()
        invariant
            i <= hints.len(),
            hints@.len() == h.len(),
            h.len() <= 8,
            hints@.map_values(|p: (String, String)| (p.0@, p.1@)) == h,
            width == hints_width(h.take(i as int)),
            width <= i * 0x4_0000_0000_0000_0000,
        decreases hints.len() - i,
    {
        assert(h[i as int] == (hints@[i as int].0@, hints@[i as int].1@));
        let k = chars_of(hints[i].0.as_str()).len() as u128;
        let d = chars_of(hints[i].1.as_str()).len() as u128;
        let ghost t = h.take(i + 1);
        assert(t.drop_last() =~= h.take(i as int));
        assert(t.last() == h[i as int]);
        width = width + k + 1 + d;
        if i > 0 {
            width = width + 3;
        }
        i += 1;
    }
    assert(h.take(h.len() as int) =~= h);
    width as u16
}

/// The tone of a pane's status dot: paused, long-running, running, then how
/// the last run ended (success, failure, error), else muted.
pub open spec fn status_tone(global_paused: bool, p: PaneView, now: u64) -> Tone {
    if global_paused || p.paused {
        Tone::Warning
    } else if long_running(p, now) {
        Tone::LongRunning
    } else if p.running {
        Tone::Accent
    } else if p.last_exit_code is Some {
        if p.last_exit_code == Some(0i32) {
            Tone::Success
        } else {
            Tone::Error
        }
    } else if p.last_error is Some {
        Tone::Error
    } else {
        Tone::Muted
    }
}

/// The tone of a pane's status dot (see [`status_tone`]).
pub fn pane_status(app: &App, pane: &PaneState, now_ms: u64) -> (t: Tone)
    ensures
        t == status_tone(app.global_paused, pane@, now_ms),
{
    if app.global_paused || pane.paused {
        return Tone::Warning;
    }
    let long = pane.running && match pane.run_started_at {
        Some(s) => (if now_ms >= s {
            now_ms - s
        } else {
            0
        }) > pane.interval_ms,
        None => false,
    };
    if long {
        Tone::LongRunning
    } else if pane.running {
        Tone::Accent
    } else {
        match pane.last_exit_code {
            Some(code) => if code == 0 {
                Tone::Success
            } else {
                Tone::Error
            },
            None => if pane.last_error.is_some() {
                Tone::Error
            } else {
                Tone::Muted
            },
        }
    }
}

/// The tone of a pane's interval: an error colour once a run has outlasted
/// it, muted otherwise.
pub fn interval_tone(pane: &PaneState) -> (t: Tone)
    ensures
        t == if pane.long_running_latched {
            Tone::Error
        } else {
            Tone::Muted
        },
{
    if pane.long_running_latched {
        Tone::Error
    } else {
        Tone::Muted
    }
}

/// The tone of a status message.
pub fn toast_tone(level: ToastLevel) -> (t: Tone)
    ensures
        t == match level {
            ToastLevel::Info => Tone::Accent,
            ToastLevel::Success => Tone::Success,
            ToastLevel::Warning => Tone::Warning,
            ToastLevel::Error => Tone::Error,
        },
{
    match level {
        ToastLevel::Info => Tone::Accent,
        ToastLevel::Success => Tone::Success,
        ToastLevel::Warning => Tone::Warning,
        ToastLevel::Error => Tone::Error,
    }
}

/// What is drawn over a pane's output area.
#[derive(Debug, Clone, Copy, PartialEq, Eq, Structural)]
pub enum Overlay {
    /// Nothing: the output shows.
    Nothing,
    /// The in-pane command line, over a cleared area.
    Editing,
    /// The hint that Enter sets a command (the pane has none).
    Hint,
}

/// What is drawn over pane `idx`: the command line when it is being edited
/// there, the hint when the pane has no command, else nothing.
pub open spec fn overlay_of(v: AppView, idx: int) -> Overlay {
    let p = v.panes[idx];
    if idx == v.focused && v.mode == Mode::InlineCommand && p.id == v.focused {
        Overlay::Editing
    } else if p.cmd.len() == 0 {
        Overlay::Hint
    } else {
        Overlay::Nothing
    }
}

/// What is drawn over pane `idx` (see [`overlay_of`]).
pub fn pane_overlay(app: &App, idx: usize) -> (o: Overlay)
    requires
        idx < app.panes@.len(),
    ensures
        o == overlay_of(app@, idx as int),
{
    let p = &app.panes[idx];
    if idx == app.focused && app.mode == Mode::InlineCommand && p.id == app.focused {
        Overlay::Editing
    } else if chars_of(p.cmd.as_str()).len() == 0 {
        Overlay::Hint
    } else {
        Overlay::Nothing
    }
}

} // verus!
