use split_watch::names::VarMap;
use split_watch::preset::{
    join_path, preset_dir, preset_dir_with, preset_names, preset_stem, resolve_preset_path,
    resume_path, starter_preset, state_dir, state_dir_with, DirError, PanePreset, Preset,
    PresetError,
};
use split_watch::vars::SubstError;
use std::path::Path;

#[test]
fn resolves_xdg_dirs() {
    let home = "/tmp/sw-home";
    let xdg = "/tmp/sw-xdg";
    assert_eq!(
        preset_dir_with(Some(xdg.to_string()), home.to_string()),
        Path::new(xdg).join("split-watch").join("presets").to_str().unwrap()
    );
    assert_eq!(
        state_dir_with(None, home.to_string()),
        Path::new(home).join(".local").join("state").join("split-watch").to_str().unwrap()
    );
}

#[test]
fn falls_back_to_home_config() {
    assert_eq!(
        preset_dir_with(None, "/home/u".to_string()),
        "/home/u/.config/split-watch/presets"
    );
    assert_eq!(
        state_dir_with(Some("/state/".to_string()), "/home/u".to_string()),
        "/state/split-watch"
    );
}

#[test]
fn join_matches_std_paths() {
    for (base, part) in [("/a", "b"), ("/a/", "b"), ("", "b"), ("/a", "/abs"), ("a", "")] {
        assert_eq!(join_path(base, part), Path::new(base).join(part).to_str().unwrap());
    }
}

#[test]
fn directories_need_home() {
    assert_eq!(preset_dir(None, None), Err(DirError::HomeNotSet));
    assert_eq!(state_dir(Some("/x".to_string()), None), Err(DirError::HomeNotSet));
    assert_eq!(
        resume_path(None, Some("/h".to_string())),
        Ok("/h/.local/state/split-watch/resume.toml".to_string())
    );
    assert_eq!(
        resolve_preset_path(Some("/c".to_string()), Some("/h".to_string()), "gpu"),
        Ok("/c/split-watch/presets/gpu.toml".to_string())
    );
}

#[test]
fn lists_toml_stems_sorted_once() {
    let files = vec![
        "gpu.toml".to_string(),
        "notes.txt".to_string(),
        ".toml".to_string(),
        "a.b.toml".to_string(),
        "gpu.toml".to_string(),
        "logs.toml".to_string(),
    ];
    assert_eq!(preset_names(&files), vec!["a.b", "gpu", "logs"]);
    assert_eq!(preset_stem("x.toml"), Some("x".to_string()));
    assert_eq!(preset_stem("x.tom"), None);
}

#[test]
fn empty_preset_has_numbered_panes() {
    let p = Preset::empty(3, Some("nord".to_string()), None);
    assert_eq!(p.panes.len(), 3);
    assert_eq!(p.panes[2].title, "Pane 3");
    assert_eq!(p.layout.as_deref(), Some("grid"));
    assert_eq!(p.default_interval_ms, Some(1000));
    assert_eq!(p.theme.as_deref(), Some("nord"));
    assert_eq!(p.focused, Some(0));
}

#[test]
fn starter_preset_has_one_pane() {
    let p = starter_preset("gpu");
    assert_eq!(p.name.as_deref(), Some("gpu"));
    assert_eq!(p.theme.as_deref(), Some("default"));
    assert_eq!(p.panes.len(), 1);
    assert_eq!(p.panes[0].title, "Pane 1");
}

fn preset_with(vars: &[(&str, &str)], panes: &[(&str, &str)]) -> Preset {
    let mut m = VarMap::new();
    for (k, v) in vars {
        m.insert(k.to_string(), v.to_string());
    }
    Preset {
        name: Some("t".to_string()),
        layout: None,
        default_interval_ms: None,
        theme: None,
        accent: None,
        focused: None,
        vars: m,
        panes: panes
            .iter()
            .map(|(t, c)| PanePreset {
                title: t.to_string(),
                cmd: c.to_string(),
                interval_ms: Some(500),
                paused: false,
            })
            .collect(),
    }
}

#[test]
fn resolves_overrides_into_panes() {
    let p = preset_with(&[("log", ""), ("pattern", "ERROR")], &[("Log {{log}}", "tail {{ log }} | grep {{pattern}}")]);
    let mut ov = VarMap::new();
    ov.insert("log".to_string(), "/tmp/a".to_string());
    let r = p.resolved(&ov).unwrap();
    assert_eq!(r.panes[0].title, "Log /tmp/a");
    assert_eq!(r.panes[0].cmd, "tail /tmp/a | grep ERROR");
    assert_eq!(r.vars.get("log").map(|s| s.as_str()), Some("/tmp/a"));
}

#[test]
fn resolution_errors_come_in_order() {
    let p = preset_with(&[("a", "1")], &[("{{b}}", "{{c}}")]);
    let mut ov = VarMap::new();
    ov.insert("zz".to_string(), "1".to_string());
    assert!(matches!(p.resolved(&ov), Err(PresetError::UnknownVariable(k)) if k == "zz"));
    match p.resolved(&VarMap::new()) {
        Err(PresetError::MissingDeclarations(v)) => assert_eq!(v, vec!["b", "c"]),
        other => panic!("unexpected {:?}", other.is_ok()),
    }
    let q = preset_with(&[("a", "")], &[("x", "{{a}}")]);
    assert!(matches!(q.resolved(&VarMap::new()), Err(PresetError::Substitution(SubstError::EmptyVariable(n))) if n == "a"));
}
