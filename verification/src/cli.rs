//! The command line: `--var` arguments, which preset to open, and the
//! checks and choices made before the dashboard starts.
use vstd::prelude::*;
use crate::app::{app_from_preset, App, AppView, Toast, ToastLevel, ToastView, VarField, VarFieldView};
use crate::names::{has_key, keys_of, names_view, value_of, VarMap};
use crate::order::strictly_sorted;
use crate::preset::{opt_view, clone_opt, resolution, PresetError, Preset};
use crate::text::{all_ws, chars_of, concat, is_blank, string_of, trim, trim_chars};
use crate::theme::{
    accented, builtin_colors, builtin_theme, hex_slicing_fails, parse_hex_spec, ColorError, Theme,
    ThemeError,
};
use crate::input::TextInput;
use crate::vars::{invalid_var_names, is_valid_var_name, valid_name};

verus! {

/// A subcommand.
#[derive(Debug)]
pub enum Commands {
    /// Print the saved presets.
    List,
    /// Open a preset in the editor, creating it if needed.
    Edit { preset: String },
    /// Open the dashboard saved on exit.
    Resume,
}

/// The command-line arguments.
#[derive(Debug)]
pub struct Cli {
    pub panes: Option<usize>,
    pub file: Option<String>,
    pub theme: Option<String>,
    pub accent: Option<String>,
    pub theme_file: Option<String>,
    pub vars: Vec<(String, String)>,
    pub command: Option<Commands>,
    pub preset: Option<String>,
}

/// Why the dashboard cannot start.
#[derive(Debug)]
pub enum LaunchError {
    /// The preset declares variables with invalid names (sorted).
    InvalidNames(Vec<String>),
    /// A `--var` names a variable the preset does not declare.
    UnknownVariable(String),
    /// A `--var` names a variable whose name is invalid.
    InvalidName(String),
    /// The preset cannot be resolved.
    Preset(PresetError),
    /// The theme cannot be had.
    Theme(ThemeError),
    /// The accent colour does not parse.
    Color(ColorError),
    /// The theme file given with `--theme-file` cannot be read.
    ThemeFile(String),
}

/// The message for `--var` without `=`.
pub open spec fn no_equals_message() -> Seq<char> {
    "expected key=value"@
}

/// The position of the first `=` in `s`.
pub open spec fn first_equals(s: Seq<char>) -> Option<int> {
    if exists|i: int| 0 <= i < s.len() && s[i] == '=' {
        Some(choose|i: int| 0 <= i < s.len() && s[i] == '=' && forall|j: int| 0 <= j < i ==> s[j] != '=')
    } else {
        None
    }
}

/// What a `--var key=value` argument gives: the trimmed key and the value
/// after the first `=`; the key must not be blank and must be a valid name.
pub open spec fn var_arg(s: Seq<char>) -> Result<(Seq<char>, Seq<char>), Seq<char>> {
    match first_equals(s) {
        None => Err(no_equals_message()),
        Some(i) => {
            let key = trim(s.take(i));
            if key.len() == 0 {
                Err("variable name cannot be empty"@)
            } else if !valid_name(key) {
                Err("variable name must use snake_case letters, numbers, and _"@)
            } else {
                Ok((key, s.skip(i + 1)))
            }
        },
    }
}

/// Parses a `--var key=value` argument (see [`var_arg`]).
pub fn parse_var(value: &str) -> (r: Result<(String, String), String>)
    ensures
        match (r, var_arg(value@)) {
            (Ok((k, v)), Ok((k2, v2))) => k@ == k2 && v@ == v2,
            (Err(m), Err(m2)) => m@ == m2,
            _ => false,
        },
{
    let cs = chars_of(value);
    let mut i: usize = 0;
    while i < cs.len() && cs[i] != '='
        invariant
            i <= cs.len(),
            forall|j: int| 0 <= j < i ==> cs@[j] != '=',
        decreases cs.len() - i,
    {
        i += 1;
    }
    if i == cs.len() {
        assert(!exists|k: int| 0 <= k < cs@.len() && cs@[k] == '=');
        return Err("expected key=value".to_string());
    }
    proof {
        let w = first_equals(cs@);
        assert(cs@[i as int] == '=');
        let c = choose|k: int| 0 <= k < cs@.len() && cs@[k] == '=' && forall|j: int| 0 <= j < k ==> cs@[j] != '=';
        assert(c == i) by {
            if c < i {
                assert(cs@[c] != '=');
            }
            if c > i {
                assert(cs@[i as int] != '=');
            }
        }
    }
    let mut key_chars: Vec<char> = Vec::new();
    let mut k: usize = 0;
    while k < i
        invariant
            k <= i < cs.len(),
            key_chars@ == cs@.take(k as int),
        decreases i - k,
    {
        key_chars.push(cs[k]);
        assert(cs@.take(k + 1) =~= cs@.take(k as int).push(cs@[k as int]));
        k += 1;
    }
    let key_t = trim_chars(&key_chars);
    if key_t.len() == 0 {
        return Err("variable name cannot be empty".to_string());
    }
    let key = string_of(&key_t);
    if !is_valid_var_name(key.as_str()) {
        return Err("variable name must use snake_case letters, numbers, and _".to_string());
    }
    let mut val_chars: Vec<char> = Vec::new();
    let mut j: usize = i + 1;
    while j < cs.len()
        invariant
            i + 1 <= j <= cs.len(),
            val_chars@ == cs@.subrange(i + 1, j as int),
        decreases cs.len() - j,
    {
        val_chars.push(cs[j]);
        assert(cs@.subrange(i + 1, j + 1) =~= cs@.subrange(i + 1, j as int).push(cs@[j as int]));
        j += 1;
    }
    assert(val_chars@ =~= cs@.skip(i + 1));
    Ok((key, string_of(&val_chars)))
}

/// A key appears among `pairs`.
pub open spec fn pair_keys_have(pairs: Seq<(Seq<char>, Seq<char>)>, x: Seq<char>) -> bool {
    exists|i: int| 0 <= i < pairs.len() && (#[trigger] pairs[i]).0 == x
}

/// The value of the last of `pairs` with key `x`.
pub open spec fn last_value(pairs: Seq<(Seq<char>, Seq<char>)>, x: Seq<char>) -> Seq<char>
    decreases pairs.len(),
{
    if pairs.len() == 0 {
        Seq::empty()
    } else if pairs.last().0 == x {
        pairs.last().1
    } else {
        last_value(pairs.drop_last(), x)
    }
}

/// The `--var` arguments collected into a map; a later argument for a key
/// replaces an earlier one.
pub fn var_overrides(pairs: &Vec<(String, String)>) -> (m: VarMap)
    ensures
        m.wf(),
        forall|x: Seq<char>| #[trigger] has_key(m@, x) <==> pair_keys_have(
            pairs@.map_values(|p: (String, String)| (p.0@, p.1@)),
            x,
        ),
        forall|x: Seq<char>|
            has_key(m@, x) ==> #[trigger] value_of(m@, x) == last_value(
                pairs@.map_values(|p: (String, String)| (p.0@, p.1@)),
                x,
            ),
{
    let ghost ps = pairs@.map_values(|p: (String, String)| (p.0@, p.1@));
    let mut m = VarMap::new();
    let mut i: usize = 0;
    while i < pairs.len()
        invariant
            i <= pairs.len(),
            ps == pairs@.map_values(|p: (String, String)| (p.0@, p.1@)),
            m.wf(),
            forall|x: Seq<char>| #[trigger] has_key(m@, x) <==> pair_keys_have(ps.take(i as int), x),
            forall|x: Seq<char>|
                has_key(m@, x) ==> #[trigger] value_of(m@, x) == last_value(ps.take(i as int), x),
        decreases pairs.len() - i,
    {
        let ghost t = ps.take(i + 1);
        assert(t.drop_last() =~= ps.take(i as int));
        assert(t.last() == ps[i as int]);
        assert(ps[i as int] == (pairs@[i as int].0@, pairs@[i as int].1@));
        let k = pairs[i].0.clone();
        let v = pairs[i].1.clone();
        m.insert(k, v);
        assert forall|x: Seq<char>| #[trigger] has_key(m@, x) <==> pair_keys_have(t, x) by {
            if pair_keys_have(t, x) {
                let j = choose|j: int| 0 <= j < t.len() && (#[trigger] t[j]).0 == x;
                if j < i {
                    assert(ps.take(i as int)[j] == t[j]);
                }
            }
            if pair_keys_have(ps.take(i as int), x) {
                let j = choose|j: int| 0 <= j < i && (#[trigger] ps.take(i as int)[j]).0 == x;
                assert(t[j] == ps.take(i as int)[j]);
            }
        }
        i += 1;
    }
    assert(ps.take(pairs.len() as int) =~= ps);
    m
}

/// The first `--var` key that the preset does not declare (`true`) or whose
/// name is invalid (`false`).
pub open spec fn first_bad_override(
    vars: Seq<(Seq<char>, Seq<char>)>,
    ovs: Seq<(Seq<char>, Seq<char>)>,
) -> Option<(Seq<char>, bool)>
    decreases ovs.len(),
{
    if ovs.len() == 0 {
        None
    } else if !has_key(vars, ovs[0].0) {
        Some((ovs[0].0, true))
    } else if !valid_name(ovs[0].0) {
        Some((ovs[0].0, false))
    } else {
        first_bad_override(vars, ovs.drop_first())
    }
}

/// The field asked for variable `i`: its name, its value (the override, else
/// the default) and whether it is required (both blank).
pub open spec fn field_of(
    vars: Seq<(Seq<char>, Seq<char>)>,
    ovs: Seq<(Seq<char>, Seq<char>)>,
    i: int,
) -> (Seq<char>, Seq<char>, bool) {
    let name = vars[i].0;
    let default = vars[i].1;
    let value = if has_key(ovs, name) {
        value_of(ovs, name)
    } else {
        default
    };
    (name, value, all_ws(default) && all_ws(value))
}

/// The declared variable names that are not valid.
pub open spec fn bad_names(vars: Seq<(Seq<char>, Seq<char>)>) -> Set<Seq<char>> {
    keys_of(vars).to_set().filter(|k: Seq<char>| !valid_name(k))
}

proof fn lemma_first_bad_skip(
    vars: Seq<(Seq<char>, Seq<char>)>,
    ovs: Seq<(Seq<char>, Seq<char>)>,
    i: int,
)
    requires
        0 <= i <= ovs.len(),
        forall|j: int| 0 <= j < i ==> has_key(vars, (#[trigger] ovs[j]).0) && valid_name(ovs[j].0),
    ensures
        first_bad_override(vars, ovs) == first_bad_override(vars, ovs.skip(i)),
    decreases i,
{
    if i > 0 {
        assert(has_key(vars, ovs[0].0) && valid_name(ovs[0].0));
        assert forall|j: int| 0 <= j < i - 1 implies has_key(
            vars,
            (#[trigger] ovs.drop_first()[j]).0,
        ) && valid_name(ovs.drop_first()[j].0) by {
            assert(ovs.drop_first()[j] == ovs[j + 1]);
        }
        lemma_first_bad_skip(vars, ovs.drop_first(), i - 1);
        assert(ovs.drop_first().skip(i - 1) =~= ovs.skip(i));
    } else {
        assert(ovs.skip(0) =~= ovs);
    }
}

/// The variables to ask for at startup: fails on invalid declared names
/// (all of them, sorted), then on the first `--var` (in name order) that is
/// undeclared or invalid; otherwise one field per declared variable, in
/// name order (see [`field_of`]).
pub fn unresolved_fields(preset: &Preset, overrides: &VarMap) -> (r: Result<
    Vec<(String, String, bool)>,
    LaunchError,
>)
    requires
        preset.vars.wf(),
        overrides.wf(),
    ensures
        bad_names(preset.vars@) != Set::<Seq<char>>::empty() ==> (r matches Err(
            LaunchError::InvalidNames(v),
        ) && strictly_sorted(names_view(v@)) && names_view(v@).to_set() == bad_names(
            preset.vars@,
        )),
        bad_names(preset.vars@) == Set::<Seq<char>>::empty() ==> match first_bad_override(
            preset.vars@,
            overrides@,
        ) {
            Some((k, true)) => r matches Err(LaunchError::UnknownVariable(n)) && n@ == k,
            Some((k, false)) => r matches Err(LaunchError::InvalidName(n)) && n@ == k,
            None => r matches Ok(fs) && fs@.len() == preset.vars@.len() && forall|i: int|
                0 <= i < fs@.len() ==> ((#[trigger] fs@[i]).0@, fs@[i].1@, fs@[i].2) == field_of(
                    preset.vars@,
                    overrides@,
                    i,
                ),
        },
{
    let invalid = invalid_var_names(&preset.vars);
    if invalid.len() > 0 {
        assert(names_view(invalid@).to_set().contains(invalid@[0]@)) by {
            assert(names_view(invalid@)[0] == invalid@[0]@);
        }
        return Err(LaunchError::InvalidNames(invalid));
    }
    assert(bad_names(preset.vars@) =~= Set::<Seq<char>>::empty()) by {
        assert(names_view(invalid@) =~= Seq::<Seq<char>>::empty());
    }
    let n = overrides.len();
    let mut i: usize = 0;
    while i < n
        invariant
            i <= n,
            n == overrides@.len(),
            overrides.wf(),
            preset.vars.wf(),
            bad_names(preset.vars@) == Set::<Seq<char>>::empty(),
            forall|j: int|
                0 <= j < i ==> has_key(preset.vars@, (#[trigger] overrides@[j]).0) && valid_name(
                    overrides@[j].0,
                ),
        decreases n - i,
    {
        let key = overrides.key_at(i);
        proof {
            lemma_first_bad_skip(preset.vars@, overrides@, i as int);
            assert(overrides@.skip(i as int)[0] == overrides@[i as int]);
        }
        if !preset.vars.contains_key(key.as_str()) {
            return Err(LaunchError::UnknownVariable(key.clone()));
        }
        if !is_valid_var_name(key.as_str()) {
            return Err(LaunchError::InvalidName(key.clone()));
        }
        i += 1;
    }
    proof {
        lemma_first_bad_skip(preset.vars@, overrides@, n as int);
        assert(overrides@.skip(n as int).len() == 0);
    }
    let m = preset.vars.len();
    let mut fields: Vec<(String, String, bool)> = Vec::new();
    let mut k: usize = 0;
    while k < m
        invariant
            k <= m,
            m == preset.vars@.len(),
            preset.vars.wf(),
            overrides.wf(),
            bad_names(preset.vars@) == Set::<Seq<char>>::empty(),
            first_bad_override(preset.vars@, overrides@) is None,
            fields@.len() == k,
            forall|i: int|
                0 <= i < k ==> ((#[trigger] fields@[i]).0@, fields@[i].1@, fields@[i].2) == field_of(
                    preset.vars@,
                    overrides@,
                    i,
                ),
        decreases m - k,
    {
        let name = preset.vars.key_at(k);
        let default = preset.vars.value_at(k);
        let value = match overrides.get(name.as_str()) {
            Some(v) => v.clone(),
            None => default.clone(),
        };
        let required = is_blank(default.as_str()) && is_blank(value.as_str());
        fields.push((name.clone(), value, required));
        k += 1;
    }
    Ok(fields)
}

/// Which preset the command line asks for.
#[derive(Debug)]
pub enum PresetRequest {
    /// The preset file given with `--file`.
    File(String),
    /// The saved preset of this name.
    Named(String),
    /// A new dashboard of this many empty panes.
    Empty(usize),
}

/// Which preset the command line asks for: `--file` first, then a preset
/// name, else a new dashboard of `-n` panes (three by default).
pub fn requested_preset(cli: &Cli) -> (r: PresetRequest)
    ensures
        match (cli.file, cli.preset) {
            (Some(f), _) => r matches PresetRequest::File(p) && p@ == f@,
            (None, Some(n)) => r matches PresetRequest::Named(p) && p@ == n@,
            (None, None) => r == PresetRequest::Empty(
                match cli.panes {
                    Some(c) => c,
                    None => 3usize,
                },
            ),
        },
{
    match &cli.file {
        Some(f) => PresetRequest::File(f.clone()),
        None => match &cli.preset {
            Some(n) => PresetRequest::Named(n.clone()),
            None => PresetRequest::Empty(
                match cli.panes {
                    Some(c) => c,
                    None => 3,
                },
            ),
        },
    }
}

/// The preset with the command line's theme and accent, when given, put in
/// place of its own.
pub fn apply_cli_overrides(cli: &Cli, preset: Preset) -> (p: Preset)
    ensures
        opt_view(p.theme) == match cli.theme {
            Some(t) => Some(t@),
            None => opt_view(preset.theme),
        },
        opt_view(p.accent) == match cli.accent {
            Some(a) => Some(a@),
            None => opt_view(preset.accent),
        },
        p.name == preset.name,
        p.layout == preset.layout,
        p.default_interval_ms == preset.default_interval_ms,
        p.focused == preset.focused,
        p.vars == preset.vars,
        p.panes == preset.panes,
{
    let mut p = preset;
    match &cli.theme {
        Some(t) => p.theme = Some(t.clone()),
        None => {},
    }
    match &cli.accent {
        Some(a) => p.accent = Some(a.clone()),
        None => {},
    }
    p
}

/// The fields of the variables dialog, one per `(name, value, required)`,
/// each with the cursor at the end of its value.
pub fn var_fields(unresolved: Vec<(String, String, bool)>) -> (fs: Vec<VarField>)
    ensures
        fs@.len() == unresolved@.len(),
        forall|i: int|
            0 <= i < fs@.len() ==> (#[trigger] fs@[i]).input.wf() && fs@[i]@ == (VarFieldView {
                name: unresolved@[i].0@,
                input: (unresolved@[i].1@, unresolved@[i].1@.len() as int),
                required: unresolved@[i].2,
            }),
{
    let mut fs: Vec<VarField> = Vec::new();
    let mut i: usize = 0;
    while i < unresolved.len()
        invariant
            i <= unresolved@.len(),
            fs@.len() == i,
            forall|j: int|
                0 <= j < i ==> (#[trigger] fs@[j]).input.wf() && fs@[j]@ == (VarFieldView {
                    name: unresolved@[j].0@,
                    input: (unresolved@[j].1@, unresolved@[j].1@.len() as int),
                    required: unresolved@[j].2,
                }),
        decreases unresolved@.len() - i,
    {
        let name = unresolved[i].0.clone();
        let value = unresolved[i].1.clone();
        let required = unresolved[i].2;
        fs.push(VarField { name, input: TextInput::new(value), required });
        i += 1;
    }
    fs
}

/// The theme named on the command line (the default one when none is).
pub fn chosen_theme(cli: &Cli) -> (r: Result<Theme, ThemeError>)
    ensures
        ({
            let name = match cli.theme {
                Some(t) => t@,
                None => "default"@,
            };
            match builtin_colors(name) {
                Some(cs) => r matches Ok(t) && builtin_theme(name, t),
                None => r matches Err(ThemeError::UnknownTheme(n)) && n@ == name,
            }
        }),
{
    match &cli.theme {
        Some(t) => Theme::named(t.as_str()),
        None => Theme::named("default"),
    }
}

impl App {
    /// Shows that preset `name` was loaded.
    pub fn announce_loaded(&mut self, name: &str, now_ms: u64)
        ensures
            old(self).wf() ==> final(self).wf(),
            final(self)@ == (crate::app::AppView {
                toast: Some(
                    crate::app::ToastView {
                        message: "loaded preset `"@ + name@ + "`"@,
                        level: ToastLevel::Info,
                        created_ms: now_ms,
                    },
                ),
                ..old(self)@
            }),
    {
        let message = concat(concat("loaded preset `", name).as_str(), "`");
        self.toast = Some(Toast { message, level: ToastLevel::Info, created_ms: now_ms });
    }
}

/// `q` is `p` with the command line's theme and accent put in place of its
/// own (see [`apply_cli_overrides`]).
pub open spec fn cli_applied(cli: Cli, p: Preset, q: Preset) -> bool {
    &&& opt_view(q.theme) == match cli.theme {
        Some(t) => Some(t@),
        None => opt_view(p.theme),
    }
    &&& opt_view(q.accent) == launch_accent(cli, p)
    &&& q.name == p.name
    &&& q.layout == p.layout
    &&& q.default_interval_ms == p.default_interval_ms
    &&& q.focused == p.focused
    &&& q.vars == p.vars
    &&& q.panes == p.panes
}

/// The accent the dashboard is drawn with: the command line's, else the
/// preset's.
pub open spec fn launch_accent(cli: Cli, p: Preset) -> Option<Seq<char>> {
    match cli.accent {
        Some(a) => Some(a@),
        None => opt_view(p.accent),
    }
}

/// The name of the built-in theme asked for: the command line's, else
/// `default`.
pub open spec fn launch_theme_name(cli: Cli) -> Seq<char> {
    match cli.theme {
        Some(t) => t@,
        None => "default"@,
    }
}

/// The theme the dashboard starts from, before any accent: the one read
/// from `--theme-file`, else the built-in one named (see
/// [`launch_theme_name`]).
pub open spec fn launch_base_theme(cli: Cli, file_theme: Option<Result<Theme, String>>, base: Theme) -> bool {
    match file_theme {
        Some(Ok(t)) => base == t,
        Some(Err(_)) => false,
        None => builtin_theme(launch_theme_name(cli), base),
    }
}

/// The fields of the variables dialog: one per declared variable, in order
/// (see [`field_of`]), each with the cursor at the end of its value.
pub open spec fn launch_fields(
    vars: Seq<(Seq<char>, Seq<char>)>,
    ovs: Seq<(Seq<char>, Seq<char>)>,
) -> Seq<VarFieldView> {
    Seq::new(
        vars.len(),
        |i: int|
            {
                let f = field_of(vars, ovs, i);
                VarFieldView { name: f.0, input: (f.1, f.1.len() as int), required: f.2 }
            },
    )
}

/// The message shown when the dashboard opens: which preset was loaded,
/// when one was named.
pub open spec fn launch_toast(cli: Cli, now_ms: u64) -> Option<ToastView> {
    match cli.preset {
        Some(n) => Some(
            ToastView {
                message: "loaded preset `"@ + n@ + "`"@,
                level: ToastLevel::Info,
                created_ms: now_ms,
            },
        ),
        None => None,
    }
}

/// The dashboard the command line asks for, from `preset` (already loaded),
/// the theme read from `--theme-file` if one was given, and the `--var`
/// overrides. In order: the variables are checked (see
/// [`unresolved_fields`]); with nothing left to ask for, the preset is
/// resolved; the theme is the file's, else the named built-in one; the
/// accent, if any, is applied; and the dashboard opens, with a message when
/// a preset was named.
pub fn launch_dashboard(
    cli: &Cli,
    preset: Preset,
    file_theme: Option<Result<Theme, String>>,
    overrides: &VarMap,
    loaded_path: Option<String>,
    now_ms: u64,
) -> (r: Result<App, LaunchError>)
    requires
        preset.vars.wf(),
        overrides.wf(),
        launch_accent(*cli, preset) matches Some(a) ==> !hex_slicing_fails(a),
    ensures
        bad_names(preset.vars@) != Set::<Seq<char>>::empty() ==> (r matches Err(
            LaunchError::InvalidNames(v),
        ) && names_view(v@).to_set() == bad_names(preset.vars@)),
        bad_names(preset.vars@) == Set::<Seq<char>>::empty() ==> match first_bad_override(
            preset.vars@,
            overrides@,
        ) {
            Some((k, true)) => r matches Err(LaunchError::UnknownVariable(n)) && n@ == k,
            Some((k, false)) => r matches Err(LaunchError::InvalidName(n)) && n@ == k,
            None => match r {
                Err(LaunchError::Preset(e)) => preset.vars@.len() == 0 && exists|q: Preset|
                    cli_applied(*cli, preset, q) && resolution(q, overrides@, Err(e)),
                Err(LaunchError::ThemeFile(m)) => file_theme == Some(Err::<Theme, String>(m)),
                Err(LaunchError::Theme(e)) => file_theme is None && builtin_colors(
                    launch_theme_name(*cli),
                ) is None && (e matches ThemeError::UnknownTheme(n) && n@ == launch_theme_name(
                    *cli,
                )),
                Err(LaunchError::Color(e)) => launch_accent(*cli, preset) matches Some(a)
                    && parse_hex_spec(a) == Err::<(u8, u8, u8), ColorError>(e),
                Err(_) => false,
                Ok(app) => (preset.panes@.len() > 0 ==> app.wf()) && exists|q: Preset, rp: Preset, base: Theme|
                    #![trigger cli_applied(*cli, preset, q), launch_base_theme(*cli, file_theme, base), app_from_preset(rp, app@.theme, opt_view(loaded_path), launch_fields(preset.vars@, overrides@), now_ms)]
                    {
                        &&& cli_applied(*cli, preset, q)
                        &&& if preset.vars@.len() == 0 {
                            resolution(q, overrides@, Ok(rp))
                        } else {
                            rp == q
                        }
                        &&& launch_base_theme(*cli, file_theme, base)
                        &&& accented(base, launch_accent(*cli, preset), app@.theme)
                        &&& app@ == (AppView {
                            toast: launch_toast(*cli, now_ms),
                            ..app_from_preset(
                                rp,
                                app@.theme,
                                opt_view(loaded_path),
                                launch_fields(preset.vars@, overrides@),
                                now_ms,
                            )
                        })
                    },
            },
        },
{
    let ghost given = preset;
    let preset = apply_cli_overrides(cli, preset);
    let ghost applied = preset;
    assert(cli_applied(*cli, given, applied));
    let unresolved = match unresolved_fields(&preset, overrides) {
        Ok(f) => f,
        Err(e) => return Err(e),
    };
    let n_fields = unresolved.len();
    let resolved = if n_fields == 0 {
        match preset.resolved(overrides) {
            Ok(p) => p,
            Err(e) => {
                assert(resolution(applied, overrides@, Err(e)));
                return Err(LaunchError::Preset(e));
            },
        }
    } else {
        preset
    };
    let ghost rp = resolved;
    let theme = match file_theme {
        Some(Ok(t)) => t,
        Some(Err(m)) => return Err(LaunchError::ThemeFile(m)),
        None => match chosen_theme(cli) {
            Ok(t) => t,
            Err(e) => return Err(LaunchError::Theme(e)),
        },
    };
    let ghost base = theme;
    let theme = match &resolved.accent {
        Some(a) => match theme.with_accent(a.as_str()) {
            Ok(t) => t,
            Err(e) => return Err(LaunchError::Color(e)),
        },
        None => theme,
    };
    let ghost themed = theme;
    let fields = var_fields(unresolved);
    assert(fields@.map_values(|f: VarField| f@) =~= launch_fields(given.vars@, overrides@));
    let ghost loaded = opt_view(loaded_path);
    let mut app = App::from_preset(resolved, theme, loaded_path, fields, now_ms);
    match &cli.preset {
        Some(name) => app.announce_loaded(name.as_str(), now_ms),
        None => {},
    }
    proof {
        if n_fields == 0 {
            assert(resolution(applied, overrides@, Ok(rp)));
        }
        assert(opt_view(rp.accent) == launch_accent(*cli, given));
        assert(accented(base, launch_accent(*cli, given), themed));
        assert(launch_base_theme(*cli, file_theme, base));
        assert(app@.theme == themed);
        assert(app@ == (AppView {
            toast: launch_toast(*cli, now_ms),
            ..app_from_preset(rp, themed, loaded, launch_fields(given.vars@, overrides@), now_ms)
        }));
        assert(if given.vars@.len() == 0 {
            resolution(applied, overrides@, Ok(rp))
        } else {
            rp == applied
        });
        assert(cli_applied(*cli, given, applied));
        assert(launch_base_theme(*cli, file_theme, base));
        assert(loaded == opt_view(loaded_path));
    }
    Ok(app)
}

} // verus!
