use split_watch::app::{
    current_layout_name, App, CommandModalFocus, CommandResult, KeyAction, Mode, PaneState,
    ToastLevel, VarField, MAX_OUTPUT_LINES,
};
use split_watch::geometry::Rect;
use split_watch::input::TextInput;
use split_watch::keys::{KeyCode, KeyEvent};
use split_watch::layout::{validate_layout_tree, LayoutNode, SplitAxis};
use split_watch::mouse::{MouseEvent, MouseKind};
use split_watch::preset::{PanePreset, Preset};
use split_watch::theme::Theme;
use split_watch::ui::pane_rects;

fn key(code: KeyCode) -> KeyEvent {
    KeyEvent { code, ctrl: false }
}

fn ch(c: char) -> KeyEvent {
    key(KeyCode::Char(c))
}

fn app_with(count: usize) -> App {
    let preset = Preset::empty(count, None, None);
    App::from_preset(preset, Theme::named("default").unwrap(), None, Vec::new(), 0)
}

fn type_text(app: &mut App, s: &str) {
    for c in s.chars() {
        app.handle_key(ch(c), 0);
    }
}

#[test]
fn starts_on_the_preset_focus_clamped() {
    let mut preset = Preset::empty(2, None, None);
    preset.focused = Some(9);
    let app = App::from_preset(preset, Theme::named("default").unwrap(), None, Vec::new(), 5);
    assert_eq!(app.focused, 1);
    assert_eq!(app.mode, Mode::Normal);
    assert_eq!(app.panes[1].id, 1);
    assert_eq!(app.focused_pane().id, 1);
    assert_eq!(app.panes[1].next_run, 5);
    assert_eq!(app.default_interval_ms, 1000);
}

#[test]
fn variables_open_the_vars_dialog() {
    let fields = vec![VarField { name: "log".to_string(), input: TextInput::new(String::new()), required: true }];
    let app = App::from_preset(Preset::empty(1, None, None), Theme::named("default").unwrap(), None, fields, 0);
    assert_eq!(app.mode, Mode::VarsModal);
}

#[test]
fn focus_moves_on_the_grid_and_three_pane_layout() {
    let mut app = app_with(4);
    app.handle_key(ch('l'), 0);
    assert_eq!(app.focused, 1);
    app.handle_key(ch('j'), 0);
    assert_eq!(app.focused, 3);
    app.handle_key(key(KeyCode::Right), 0);
    assert_eq!(app.focused, 3);
    let mut three = app_with(3);
    three.handle_key(ch('l'), 0);
    assert_eq!(three.focused, 1);
    three.handle_key(ch('j'), 0);
    assert_eq!(three.focused, 2);
    three.handle_key(ch('k'), 0);
    assert_eq!(three.focused, 1);
    three.handle_key(ch('h'), 0);
    assert_eq!(three.focused, 0);
    let mut five = app_with(5);
    five.focus_next(1, 2);
    assert_eq!(five.focused, 4);
}

#[test]
fn quit_keys() {
    let mut app = app_with(1);
    assert!(matches!(app.handle_key(ch('q'), 0), KeyAction::Quit));
    assert!(matches!(app.handle_key(KeyEvent { code: KeyCode::Char('c'), ctrl: true }, 0), KeyAction::Quit));
    assert!(matches!(app.handle_key(ch('z'), 0), KeyAction::SaveResumeAndQuit));
    assert!(matches!(app.handle_key(ch('x'), 0), KeyAction::Nothing));
    assert_eq!(app.panes.len(), 1);
}

#[test]
fn inline_command_sets_and_runs_once() {
    let mut app = app_with(1);
    app.handle_key(key(KeyCode::Enter), 0);
    assert_eq!(app.mode, Mode::InlineCommand);
    assert!(!app.inline_resume_execution);
    type_text(&mut app, " echo hi ");
    app.handle_key(key(KeyCode::Enter), 7);
    assert_eq!(app.mode, Mode::Normal);
    assert_eq!(app.panes[0].cmd, "echo hi");
    assert_eq!(app.panes[0].next_run, 7);
    assert_eq!(app.command_input.value, "");
    app.handle_key(key(KeyCode::Enter), 8);
    assert!(app.inline_resume_execution);
    assert!(app.panes[0].paused);
    app.handle_key(key(KeyCode::Esc), 9);
    assert!(!app.panes[0].paused);
    assert!(app.panes[0].pending_run_once);
    assert_eq!(app.panes[0].next_run, 9);
}

#[test]
fn command_modal_saves_fields() {
    let mut app = app_with(2);
    app.handle_key(ch('i'), 0);
    assert_eq!(app.mode, Mode::CommandModal);
    assert!(app.panes[0].paused);
    assert_eq!(app.title_input.value, "Pane 1");
    assert_eq!(app.interval_input.value, "1000");
    type_text(&mut app, "ls");
    app.handle_key(key(KeyCode::Tab), 0);
    assert_eq!(app.command_modal_focus, CommandModalFocus::Title);
    app.handle_key(key(KeyCode::Tab), 0);
    app.handle_key(key(KeyCode::Backspace), 0);
    app.handle_key(key(KeyCode::Backspace), 0);
    app.handle_key(key(KeyCode::Backspace), 0);
    app.handle_key(ch('x'), 3);
    assert_eq!(app.toast.as_ref().map(|t| t.level), Some(ToastLevel::Warning));
    type_text(&mut app, "500");
    app.handle_key(KeyEvent { code: KeyCode::Char('s'), ctrl: true }, 4);
    assert_eq!(app.mode, Mode::Normal);
    assert_eq!(app.panes[0].cmd, "ls");
    assert_eq!(app.panes[0].interval_ms, 1500);
    assert!(!app.panes[0].paused);
    assert!(app.panes[0].pending_run_once);
}

#[test]
fn command_modal_rejects_short_interval() {
    let mut app = app_with(1);
    app.handle_key(ch('i'), 0);
    app.handle_key(key(KeyCode::BackTab), 0);
    assert_eq!(app.command_modal_focus, CommandModalFocus::Interval);
    for _ in 0..4 {
        app.handle_key(key(KeyCode::Backspace), 0);
    }
    type_text(&mut app, "100");
    app.handle_key(key(KeyCode::Esc), 0);
    assert_eq!(app.command_modal_focus, CommandModalFocus::Blurred);
    app.handle_key(key(KeyCode::Enter), 2);
    assert_eq!(app.mode, Mode::CommandModal);
    let toast = app.toast.as_ref().unwrap();
    assert_eq!(toast.message, "interval must be at least 250 ms");
    assert_eq!(toast.level, ToastLevel::Error);
    app.handle_key(key(KeyCode::Esc), 2);
    assert_eq!(app.mode, Mode::Normal);
}

#[test]
fn interval_keys_never_go_below_250() {
    let mut app = app_with(1);
    for _ in 0..30 {
        app.handle_key(ch('-'), 0);
    }
    assert_eq!(app.panes[0].interval_ms, 250);
    app.handle_key(ch('+'), 10);
    assert_eq!(app.panes[0].interval_ms, 300);
    assert_eq!(app.panes[0].next_run, 310);
}

#[test]
fn rename_and_delete_flow() {
    let mut app = app_with(1);
    app.handle_key(ch('t'), 0);
    type_text(&mut app, "!");
    app.handle_key(key(KeyCode::Enter), 0);
    assert_eq!(app.panes[0].title, "Pane 1!");
    app.handle_key(key(KeyCode::Backspace), 0);
    assert_eq!(app.mode, Mode::Normal);
    app.panes[0].cmd = "date".to_string();
    app.handle_key(key(KeyCode::Backspace), 0);
    assert_eq!(app.mode, Mode::DeleteConfirm);
    app.handle_key(ch('y'), 4);
    assert_eq!(app.panes[0].cmd, "");
    assert_eq!(app.panes[0].next_run, 4);
}

#[test]
fn save_dialog_suggests_the_loaded_preset() {
    let mut app = App::from_preset(
        Preset::empty(1, None, None),
        Theme::named("default").unwrap(),
        Some("/x/presets/gpu.toml".to_string()),
        Vec::new(),
        0,
    );
    app.handle_key(ch('s'), 0);
    assert_eq!(app.save_input.value, "gpu");
    match app.handle_key(key(KeyCode::Enter), 0) {
        KeyAction::SavePreset(name) => assert_eq!(name, "gpu"),
        _ => panic!("expected a save request"),
    }
    app.finish_save("gpu", 3);
    assert_eq!(app.mode, Mode::Normal);
    assert_eq!(app.toast.as_ref().unwrap().message, "saved preset `gpu`");
    let mut fresh = app_with(1);
    fresh.open_save_modal();
    assert_eq!(fresh.save_input.value, "dashboard");
}

#[test]
fn vars_dialog_requires_values() {
    let fields = vec![
        VarField { name: "a".to_string(), input: TextInput::new("1".to_string()), required: false },
        VarField { name: "b".to_string(), input: TextInput::new(String::new()), required: true },
    ];
    let mut app = App::from_preset(Preset::empty(1, None, None), Theme::named("default").unwrap(), None, fields, 0);
    app.handle_key(key(KeyCode::Enter), 0);
    assert_eq!(app.vars_focus, 1);
    assert!(matches!(app.handle_key(key(KeyCode::Enter), 1), KeyAction::Nothing));
    assert_eq!(app.toast.as_ref().unwrap().message, "variable `b` is required");
    type_text(&mut app, "x");
    assert!(matches!(app.handle_key(key(KeyCode::Enter), 1), KeyAction::ApplyVars));
    assert!(matches!(app.handle_key(key(KeyCode::Esc), 1), KeyAction::Quit));
}

#[test]
fn apply_vars_fills_titles_and_commands() {
    let mut preset = Preset::empty(1, None, None);
    preset.panes[0] = PanePreset {
        title: "Log {{log}}".to_string(),
        cmd: "tail {{log}}{{log}}".to_string(),
        interval_ms: None,
        paused: false,
    };
    let fields = vec![VarField { name: "log".to_string(), input: TextInput::new("/a".to_string()), required: true }];
    let mut app = App::from_preset(preset, Theme::named("default").unwrap(), None, fields, 0);
    app.apply_vars(9);
    assert_eq!(app.mode, Mode::Normal);
    assert_eq!(app.panes[0].title, "Log /a");
    assert_eq!(app.panes[0].cmd, "tail /a/a");
    assert_eq!(app.panes[0].next_run, 9);
}

#[test]
fn tick_starts_due_panes_once() {
    let mut app = app_with(2);
    app.panes[0].cmd = "date".to_string();
    app.panes[1].cmd = "  ".to_string();
    let started = app.tick(100, 5000);
    assert_eq!(started, vec![0]);
    assert!(app.panes[0].running);
    assert_eq!(app.panes[0].run_started_at, Some(100));
    assert_eq!(app.panes[0].last_started, Some(5000));
    assert_eq!(app.panes[0].next_run, 1100);
    assert_eq!(app.tick(2000, 0), Vec::<usize>::new());
    assert!(app.panes[0].long_running_latched);
    assert_eq!(app.panes[0].last_long_running_ms, Some(1900));
    app.handle_command_result(CommandResult::Finished { pane_id: 0, output: "a\r\nb\n".to_string(), exit_code: 0 }, 2100, 7000);
    assert!(!app.panes[0].running);
    assert_eq!(app.panes[0].output, vec!["a", "b"]);
    assert_eq!(app.panes[0].output_text(), "a\nb");
    assert_eq!(app.panes[0].last_exit_code, Some(0));
    assert_eq!(app.panes[0].last_long_running_ms, Some(2000));
    app.global_paused = true;
    assert!(app.tick(3000, 0).is_empty());
}

#[test]
fn failures_and_output_cap() {
    let mut app = app_with(1);
    app.handle_command_result(CommandResult::Failed { pane_id: 0, error: "boom".to_string() }, 0, 0);
    assert_eq!(app.panes[0].last_error.as_deref(), Some("boom"));
    assert_eq!(app.panes[0].output, vec!["boom"]);
    app.handle_command_result(CommandResult::Failed { pane_id: 7, error: "x".to_string() }, 0, 0);
    let long = (0..450).map(|i| i.to_string()).collect::<Vec<_>>().join("\n");
    let mut pane = PaneState::from_preset(0, &PanePreset { title: String::new(), cmd: String::new(), interval_ms: None, paused: false }, 1000, 0);
    pane.set_output(long);
    assert_eq!(pane.output.len(), MAX_OUTPUT_LINES);
    assert_eq!(pane.output[0], "50");
    pane.set_output(String::new());
    assert_eq!(pane.output, vec![""]);
}

#[test]
fn toast_expires_after_four_seconds() {
    let mut app = app_with(1);
    app.finish_save("x", 1000);
    app.tick(5000, 0);
    assert!(app.toast.is_some());
    app.tick(5001, 0);
    assert!(app.toast.is_none());
}

#[test]
fn kill_stops_every_pane() {
    let mut app = app_with(2);
    app.panes[0].cmd = "sleep 1".to_string();
    app.tick(0, 0);
    app.kill_running_commands();
    assert!(!app.panes[0].running);
    assert_eq!(app.panes[0].run_started_at, None);
}

#[test]
fn to_preset_round_trips() {
    let mut app = app_with(3);
    app.panes[1].cmd = "uptime".to_string();
    app.panes[1].interval_ms = 700;
    app.focused = 2;
    let p = app.to_preset(Some("v".to_string()));
    assert_eq!(p.layout.as_deref(), Some("main-right-stack"));
    assert_eq!(p.accent.as_deref(), Some("#7dd3fc"));
    assert_eq!(p.focused, Some(2));
    assert_eq!(p.panes[1].interval_ms, Some(700));
    let again = App::from_preset(p, Theme::named("default").unwrap(), None, Vec::new(), 0);
    assert_eq!(again.panes[1].cmd, "uptime");
    assert_eq!(again.panes[1].interval_ms, 700);
    assert_eq!(again.focused, 2);
    assert_eq!(current_layout_name(4), "grid");
}

#[test]
fn mouse_focuses_and_scrolls() {
    let mut app = app_with(2);
    let frame = Rect { x: 0, y: 0, width: 100, height: 40 };
    let rects = pane_rects(Rect { x: 0, y: 0, width: 100, height: 39 }, 2);
    app.handle_mouse(MouseEvent { kind: MouseKind::LeftDown, column: 60, row: 10 }, frame, &rects, 0);
    assert_eq!(app.focused, 1);
    app.handle_mouse(MouseEvent { kind: MouseKind::ScrollDown, column: 0, row: 0 }, frame, &rects, 0);
    assert_eq!(app.panes[1].scroll, 3);
    app.handle_mouse(MouseEvent { kind: MouseKind::ScrollUp, column: 0, row: 0 }, frame, &rects, 0);
    app.handle_mouse(MouseEvent { kind: MouseKind::ScrollUp, column: 0, row: 0 }, frame, &rects, 0);
    assert_eq!(app.panes[1].scroll, 0);
    let (x, w) = (rects[1].1.x, rects[1].1.width);
    let control = "[-] 1000ms [+]".chars().count() as u16;
    let start = x + w - (control + 2);
    app.handle_mouse(MouseEvent { kind: MouseKind::LeftDown, column: start + 1, row: rects[1].1.y }, frame, &rects, 0);
    assert_eq!(app.panes[1].interval_ms, 950);
    app.handle_mouse(MouseEvent { kind: MouseKind::LeftDown, column: start + control - 2, row: rects[1].1.y }, frame, &rects, 0);
    assert_eq!(app.panes[1].interval_ms, 1000);
}

#[test]
fn help_quit_button_closes_help() {
    let mut app = app_with(1);
    app.handle_key(ch('?'), 0);
    assert_eq!(app.mode, Mode::Help);
    let frame = Rect { x: 0, y: 0, width: 100, height: 40 };
    // help dialog: 76x16 centred -> x 12..88, y 12..28; "Quit" group at the bottom border
    let group_x = 12 + 76 - (4 + 2 + 2 + 1);
    app.handle_mouse(MouseEvent { kind: MouseKind::LeftDown, column: group_x + 1, row: 27 }, frame, &[], 0);
    assert_eq!(app.mode, Mode::Normal);
}

#[test]
fn toggle_keys_pressed_twice_change_nothing() {
    let mut app = app_with(3);
    app.focused = 2;
    for c in [' ', 'p', '?'] {
        assert!(matches!(app.handle_key(ch(c), 10), KeyAction::Nothing));
        assert!(matches!(app.handle_key(ch(c), 20), KeyAction::Nothing));
        assert_eq!(app.mode, Mode::Normal);
        assert!(!app.global_paused);
        assert!(app.panes.iter().all(|p| !p.paused));
    }
    assert!(matches!(app.handle_key(ch(' '), 30), KeyAction::Nothing));
    assert!(app.panes[2].paused);
    assert!(!app.panes[0].paused);
}

#[test]
fn interval_steps_use_signed_wrapping_arithmetic() {
    let mut app = app_with(1);
    app.panes[0].interval_ms = u64::MAX;
    app.handle_key(ch('+'), 0);
    assert_eq!(app.panes[0].interval_ms, 250);
    app.panes[0].interval_ms = i64::MAX as u64 - 10;
    app.handle_key(ch('+'), 0);
    assert_eq!(app.panes[0].interval_ms, 250);
    app.panes[0].interval_ms = 1u64 << 63;
    app.handle_key(ch('-'), 0);
    assert_eq!(app.panes[0].interval_ms, i64::MAX as u64 - 49);
    app.panes[0].interval_ms = 1000;
    app.handle_key(ch('-'), 0);
    assert_eq!(app.panes[0].interval_ms, 950);
}

#[test]
fn split_keys_add_a_pane_beside_the_focused_one() {
    let mut app = app_with(2);
    app.focused = 0;
    assert!(matches!(app.handle_key(ch('v'), 5), KeyAction::Nothing));
    assert_eq!(app.panes.len(), 3);
    assert_eq!(app.focused, 2);
    assert_eq!(app.panes[2].id, 2);
    assert_eq!(app.panes[2].title, "Pane 3");
    assert_eq!(app.panes[2].cmd, "");
    assert_eq!(app.panes[2].next_run, 5);
    let leaf = |pane| Box::new(LayoutNode::Leaf { pane });
    assert_eq!(
        app.layout,
        Some(LayoutNode::Split {
            axis: SplitAxis::Vertical,
            ratio_percent: 50,
            first: Box::new(LayoutNode::Split {
                axis: SplitAxis::Vertical,
                ratio_percent: 50,
                first: leaf(0),
                second: leaf(2),
            }),
            second: leaf(1),
        })
    );
    app.handle_key(ch('b'), 6);
    assert_eq!(app.panes.len(), 4);
    assert_eq!(app.focused, 3);
    assert!(validate_layout_tree(app.layout.as_ref().unwrap(), 4));
}

#[test]
fn close_key_removes_the_focused_pane() {
    let mut app = app_with(3);
    app.panes[2].cmd = "date".to_string();
    app.focused = 1;
    app.handle_key(ch('v'), 0);
    assert_eq!(app.panes.len(), 4);
    app.focused = 1;
    assert!(matches!(app.handle_key(ch('x'), 0), KeyAction::ClosedPane(1)));
    assert_eq!(app.panes.len(), 3);
    assert_eq!(app.focused, 1);
    assert_eq!(app.panes[1].id, 1);
    assert_eq!(app.panes[1].cmd, "date");
    assert_eq!(app.panes[2].title, "Pane 4");
    assert!(validate_layout_tree(app.layout.as_ref().unwrap(), 3));
    app.focused = 2;
    assert!(matches!(app.handle_key(ch('x'), 0), KeyAction::ClosedPane(2)));
    assert_eq!(app.focused, 1);
    assert!(matches!(app.handle_key(ch('x'), 0), KeyAction::ClosedPane(1)));
    assert_eq!(app.panes.len(), 1);
    assert_eq!(app.layout, Some(LayoutNode::Leaf { pane: 0 }));
    assert!(matches!(app.handle_key(ch('x'), 0), KeyAction::Nothing));
    assert_eq!(app.panes.len(), 1);
}

#[test]
fn resize_keys_move_the_nearest_split() {
    let mut app = app_with(2);
    app.focused = 0;
    app.handle_key(ch('L'), 0);
    let ratio = |app: &App| match &app.layout {
        Some(LayoutNode::Split { ratio_percent, .. }) => *ratio_percent,
        _ => panic!("expected a split"),
    };
    assert_eq!(ratio(&app), 55);
    app.handle_key(ch('H'), 0);
    app.handle_key(ch('H'), 0);
    assert_eq!(ratio(&app), 45);
    app.handle_key(ch('J'), 0);
    assert_eq!(ratio(&app), 45);
    app.focused = 1;
    app.handle_key(ch('L'), 0);
    assert_eq!(ratio(&app), 40);
    let mut three = app_with(3);
    three.focused = 2;
    three.handle_key(ch('J'), 0);
    match &three.layout {
        Some(LayoutNode::Split { ratio_percent: 50, second, .. }) => match &**second {
            LayoutNode::Split { ratio_percent, .. } => assert_eq!(*ratio_percent, 45),
            _ => panic!("expected a split"),
        },
        _ => panic!("expected a split"),
    }
}

#[test]
fn a_preset_without_panes_gives_an_empty_dashboard() {
    let mut preset = Preset::empty(1, None, None);
    preset.panes.clear();
    preset.focused = Some(4);
    let app = App::from_preset(preset, Theme::named("default").unwrap(), None, Vec::new(), 0);
    assert!(app.panes.is_empty());
    assert_eq!(app.focused, 0);
    assert_eq!(app.mode, Mode::Normal);
    assert_eq!(app.layout, None);
}

#[test]
fn save_dialog_suggests_the_stem_of_the_last_path_component() {
    let cases = [
        ("/x/presets/gpu.toml", "gpu"),
        ("/x/presets/gpu.toml/", "gpu"),
        ("/x/presets/gpu.toml/.", "gpu"),
        ("logs.v2.toml", "logs.v2"),
        ("/x/.hidden", ".hidden"),
        ("/x/plain", "plain"),
    ];
    for (path, stem) in cases {
        let mut app = App::from_preset(
            Preset::empty(1, None, None),
            Theme::named("default").unwrap(),
            Some(path.to_string()),
            Vec::new(),
            0,
        );
        app.handle_key(ch('s'), 0);
        assert_eq!(app.save_input.value, stem, "{path}");
        assert_eq!(
            std::path::Path::new(path).file_stem().and_then(|s| s.to_str()),
            Some(stem)
        );
    }
}

#[test]
fn split_then_close_gives_back_the_panes() {
    let mut app = app_with(3);
    app.panes[1].cmd = "uptime".to_string();
    app.focused = 1;
    app.handle_key(ch('b'), 0);
    assert_eq!(app.panes.len(), 4);
    assert!(matches!(app.handle_key(ch('x'), 0), KeyAction::ClosedPane(3)));
    assert_eq!(app.panes.len(), 3);
    assert_eq!(app.panes[1].cmd, "uptime");
    assert_eq!(app.focused, 2);
    assert_eq!(app.layout, Some(split_watch::layout::default_layout_tree(3)));
}
