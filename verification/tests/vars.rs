use split_watch::names::VarMap;
use split_watch::vars::{
    invalid_var_names, is_valid_var_name, missing_vars, references_in, required_empty_vars,
    substitute, SubstError,
};

fn has(list: &[String], name: &str) -> bool {
    list.iter().any(|n| n == name)
}

#[test]
fn substitutes_declared_vars() {
    let mut vars = VarMap::new();
    vars.insert("log".into(), "/tmp/app.log".into());
    vars.insert("pattern".into(), "ERROR".into());
    let rendered = substitute("tail {{log}} | grep {{pattern}}", &vars).ok().unwrap();
    assert_eq!(rendered, "tail /tmp/app.log | grep ERROR");
}

#[test]
fn detects_missing_vars() {
    let mut vars = VarMap::new();
    vars.insert("pattern".into(), "ERROR".into());
    let missing = missing_vars(&["tail {{log}} | grep {{pattern}}".into()], &vars);
    assert!(has(&missing, "log"));
    assert!(!has(&missing, "pattern"));
}

#[test]
fn finds_required_empty_vars() {
    let mut vars = VarMap::new();
    vars.insert("log".into(), "".into());
    vars.insert("pattern".into(), "ERROR".into());
    let required = required_empty_vars(&vars);
    assert!(has(&required, "log"));
    assert!(!has(&required, "pattern"));
}

#[test]
fn validates_var_names() {
    assert!(is_valid_var_name("log_file"));
    assert!(is_valid_var_name("_gpu_id"));
    assert!(!is_valid_var_name("log-file"));
    assert!(!is_valid_var_name("1run"));

    let mut vars = VarMap::new();
    vars.insert("good_name".into(), "".into());
    vars.insert("bad-name".into(), "".into());
    let invalid = invalid_var_names(&vars);
    assert!(has(&invalid, "bad-name"));
    assert!(!has(&invalid, "good_name"));
}

#[test]
fn references_allow_blanks_and_are_sorted() {
    let refs = references_in("{{ b }} {{a}}{{b}} {{1x}} {x} {{{c}}}");
    assert_eq!(refs, vec!["a".to_string(), "b".to_string(), "c".to_string()]);
}

#[test]
fn substitution_errors_name_the_first_bad_reference() {
    let mut vars = VarMap::new();
    vars.insert("empty".into(), "".into());
    vars.insert("x".into(), "1".into());
    match substitute("{{x}} {{empty}} {{nope}}", &vars) {
        Err(SubstError::EmptyVariable(n)) => assert_eq!(n, "empty"),
        _ => panic!("expected an empty-variable error"),
    }
    match substitute("{{x}} {{nope}} {{empty}}", &vars) {
        Err(SubstError::MissingVariable(n)) => assert_eq!(n, "nope"),
        _ => panic!("expected a missing-variable error"),
    }
    assert_eq!(substitute("{{ x\t}}+{{x}}", &vars).ok().unwrap(), "1+1");
    assert_eq!(substitute("no refs {{ }}", &vars).ok().unwrap(), "no refs {{ }}");
}

#[test]
fn var_map_keeps_keys_sorted_and_replaces() {
    let mut vars = VarMap::new();
    vars.insert("b".into(), "2".into());
    vars.insert("a".into(), "1".into());
    vars.insert("b".into(), "3".into());
    assert_eq!(vars.len(), 2);
    assert_eq!(vars.key_at(0), "a");
    assert_eq!(vars.value_at(1), "3");
    assert_eq!(vars.get("b").unwrap(), "3");
    assert!(vars.get("c").is_none());
    assert!(vars.contains_key("a"));
}

#[test]
fn missing_vars_are_unique_and_sorted() {
    let vars = VarMap::new();
    let missing = missing_vars(&["{{z}} {{a}}".into(), "{{a}}".into()], &vars);
    assert_eq!(missing, vec!["a".to_string(), "z".to_string()]);
}

#[test]
fn text_without_references_is_unchanged() {
    let mut vars = VarMap::new();
    vars.insert("log".into(), "/tmp/app.log".into());
    assert_eq!(substitute("echo { log } }} {", &vars).ok().unwrap(), "echo { log } }} {");
    assert_eq!(substitute("", &vars).ok().unwrap(), "");
}
