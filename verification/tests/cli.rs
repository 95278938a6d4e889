use split_watch::cli::{
    apply_cli_overrides, chosen_theme, launch_dashboard, parse_var, requested_preset, unresolved_fields,
    var_fields, var_overrides, Cli, LaunchError, PresetRequest,
};
use split_watch::names::VarMap;
use split_watch::preset::Preset;
use split_watch::theme::ThemeError;

fn cli() -> Cli {
    Cli {
        panes: None,
        file: None,
        theme: None,
        accent: None,
        theme_file: None,
        vars: Vec::new(),
        command: None,
        preset: None,
    }
}

#[test]
fn parses_var_arguments() {
    assert_eq!(parse_var("log_file=/tmp/a=b"), Ok(("log_file".to_string(), "/tmp/a=b".to_string())));
    assert_eq!(parse_var(" gpu =0"), Ok(("gpu".to_string(), "0".to_string())));
    assert_eq!(parse_var("novalue"), Err("expected key=value".to_string()));
    assert_eq!(parse_var(" =x"), Err("variable name cannot be empty".to_string()));
    assert_eq!(
        parse_var("log-file=x"),
        Err("variable name must use snake_case letters, numbers, and _".to_string())
    );
}

#[test]
fn later_var_arguments_win() {
    let pairs = vec![
        ("b".to_string(), "1".to_string()),
        ("a".to_string(), "2".to_string()),
        ("b".to_string(), "3".to_string()),
    ];
    let m = var_overrides(&pairs);
    assert_eq!(m.len(), 2);
    assert_eq!(m.key_at(0), "a");
    assert_eq!(m.get("b").map(|s| s.as_str()), Some("3"));
}

fn preset_vars(vars: &[(&str, &str)]) -> Preset {
    let mut p = Preset::empty(1, None, None);
    for (k, v) in vars {
        p.vars.insert(k.to_string(), v.to_string());
    }
    p
}

#[test]
fn fields_for_declared_variables() {
    let p = preset_vars(&[("log", ""), ("pattern", "ERROR")]);
    let mut ov = VarMap::new();
    ov.insert("pattern".to_string(), " ".to_string());
    let fs = unresolved_fields(&p, &ov).unwrap();
    assert_eq!(fs, vec![
        ("log".to_string(), "".to_string(), true),
        ("pattern".to_string(), " ".to_string(), false),
    ]);
    let vf = var_fields(fs);
    assert_eq!(vf[1].input.value, " ");
    assert!(vf[0].required);
}

#[test]
fn rejects_bad_variables() {
    let bad = preset_vars(&[("1x", ""), ("a-b", ""), ("ok", "")]);
    match unresolved_fields(&bad, &VarMap::new()) {
        Err(LaunchError::InvalidNames(v)) => assert_eq!(v, vec!["1x", "a-b"]),
        _ => panic!("expected invalid names"),
    }
    let p = preset_vars(&[("log", "")]);
    let mut ov = VarMap::new();
    ov.insert("nope".to_string(), "1".to_string());
    assert!(matches!(unresolved_fields(&p, &ov), Err(LaunchError::UnknownVariable(k)) if k == "nope"));
}

#[test]
fn picks_the_requested_preset() {
    let mut c = cli();
    assert!(matches!(requested_preset(&c), PresetRequest::Empty(3)));
    c.panes = Some(5);
    assert!(matches!(requested_preset(&c), PresetRequest::Empty(5)));
    c.preset = Some("gpu".to_string());
    assert!(matches!(requested_preset(&c), PresetRequest::Named(ref n) if n == "gpu"));
    c.file = Some("./x.toml".to_string());
    assert!(matches!(requested_preset(&c), PresetRequest::File(ref f) if f == "./x.toml"));
}

#[test]
fn command_line_theme_and_accent_override() {
    let mut c = cli();
    c.theme = Some("nord".to_string());
    c.accent = Some("#112233".to_string());
    let p = apply_cli_overrides(&c, Preset::empty(1, Some("dracula".to_string()), None));
    assert_eq!(p.theme.as_deref(), Some("nord"));
    assert_eq!(p.accent.as_deref(), Some("#112233"));
    assert_eq!(chosen_theme(&c).unwrap().file.name, "nord");
    c.theme = Some("neon".to_string());
    assert!(matches!(chosen_theme(&c), Err(ThemeError::UnknownTheme(n)) if n == "neon"));
    assert_eq!(chosen_theme(&cli()).unwrap().file.name, "default");
}

#[test]
fn launch_opens_a_preset_without_panes() {
    let mut p = Preset::empty(1, None, None);
    p.panes.clear();
    let app = launch_dashboard(&cli(), p, None, &VarMap::new(), None, 0).ok().unwrap();
    assert!(app.panes.is_empty());
    assert_eq!(app.focused, 0);
    let mut named = cli();
    named.preset = Some("gpu".to_string());
    let app = launch_dashboard(&named, Preset::empty(2, None, None), None, &VarMap::new(), None, 7).ok().unwrap();
    assert_eq!(app.panes.len(), 2);
    assert_eq!(app.toast.unwrap().message, "loaded preset `gpu`");
}
