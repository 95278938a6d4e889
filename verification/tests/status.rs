use split_watch::app::{App, Mode, ToastLevel};
use split_watch::preset::Preset;
use split_watch::geometry::Rect;
use split_watch::mouse::interval_control_rect;
use split_watch::status::{
    interval_tone, mode_hints, mode_hints_width, mode_label, pane_overlay, pane_status, toast_tone,
    Overlay, Tone,
};
use split_watch::theme::Theme;

fn app() -> App {
    App::from_preset(Preset::empty(1, None, None), Theme::named("default").unwrap(), None, Vec::new(), 0)
}

#[test]
fn labels_and_hints() {
    assert_eq!(mode_label(Mode::InlineCommand), "COMMAND");
    assert_eq!(mode_label(Mode::VarsModal), "VARS");
    let mut a = app();
    let hints = mode_hints(&a);
    assert_eq!(hints[0], ("Enter".to_string(), "inline".to_string()));
    assert_eq!(mode_hints_width(&a), 5 + 1 + 6 + 3 + 1 + 1 + 9 + 3 + 1 + 1 + 5 + 3 + 1 + 1 + 4 + 3 + 1 + 1 + 4 + 3 + 1 + 1 + 4);
    a.mode = Mode::Help;
    assert_eq!(mode_hints_width(&a), 5 + 1 + 5);
}

#[test]
fn status_tones() {
    let mut a = app();
    assert_eq!(pane_status(&a, &a.panes[0], 0), Tone::Muted);
    a.panes[0].last_exit_code = Some(2);
    assert_eq!(pane_status(&a, &a.panes[0], 0), Tone::Error);
    a.panes[0].running = true;
    a.panes[0].run_started_at = Some(0);
    assert_eq!(pane_status(&a, &a.panes[0], 500), Tone::Accent);
    assert_eq!(pane_status(&a, &a.panes[0], 1001), Tone::LongRunning);
    a.global_paused = true;
    assert_eq!(pane_status(&a, &a.panes[0], 1001), Tone::Warning);
    assert_eq!(interval_tone(&a.panes[0]), Tone::Muted);
    assert_eq!(toast_tone(ToastLevel::Info), Tone::Accent);
}

#[test]
fn overlays_follow_mode_and_command() {
    let mut a = App::from_preset(Preset::empty(2, None, None), Theme::named("default").unwrap(), None, Vec::new(), 0);
    assert_eq!(pane_overlay(&a, 0), Overlay::Hint);
    a.panes[1].cmd = "date".to_string();
    assert_eq!(pane_overlay(&a, 1), Overlay::Nothing);
    a.focused = 1;
    a.mode = Mode::InlineCommand;
    assert_eq!(pane_overlay(&a, 1), Overlay::Editing);
    assert_eq!(pane_overlay(&a, 0), Overlay::Hint);
}

#[test]
fn interval_control_sits_on_the_top_border() {
    let rect = Rect { x: 10, y: 5, width: 40, height: 10 };
    assert_eq!(interval_control_rect(rect, 1000), Some(Rect { x: 34, y: 5, width: 14, height: 1 }));
    assert_eq!(interval_control_rect(rect, 250), Some(Rect { x: 35, y: 5, width: 13, height: 1 }));
    assert_eq!(interval_control_rect(Rect { width: 16, ..rect }, 1000), None);
    assert_eq!(interval_control_rect(Rect { width: 17, ..rect }, 1000), Some(Rect { x: 11, y: 5, width: 14, height: 1 }));
}
