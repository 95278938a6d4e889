//! Presets: saved dashboards, their variables, and where they are kept.
use vstd::prelude::*;
use crate::names::{has_key, insert_name, key_index, names_view, VarMap};
use crate::order::strictly_sorted;
use crate::text::{decimal, decimal_string, string_of, chars_of};
use crate::vars::{missing_set, missing_vars, render_from, substitute, SubstError, SubstFailure};

verus! {

/// One pane of a preset.
#[derive(Debug, PartialEq, Eq)]
pub struct PanePreset {
    pub title: String,
    pub cmd: String,
    pub interval_ms: Option<u64>,
    pub paused: bool,
}

/// A saved dashboard.
#[derive(Debug)]
pub struct Preset {
    pub name: Option<String>,
    pub layout: Option<String>,
    pub default_interval_ms: Option<u64>,
    pub theme: Option<String>,
    pub accent: Option<String>,
    pub focused: Option<usize>,
    pub vars: VarMap,
    pub panes: Vec<PanePreset>,
}

/// Why a preset cannot be resolved.
#[derive(Debug)]
pub enum PresetError {
    /// An override names a variable the preset does not declare.
    UnknownVariable(String),
    /// Panes reference variables the preset does not declare (sorted).
    MissingDeclarations(Vec<String>),
    /// A substitution failed.
    Substitution(SubstError),
}

/// The text of an optional string.
pub open spec fn opt_view(o: Option<String>) -> Option<Seq<char>> {
    match o {
        Some(s) => Some(s@),
        None => None,
    }
}

pub fn clone_opt(o: &Option<String>) -> (r: Option<String>)
    ensures
        opt_view(r) == opt_view(*o),
{
    match o {
        Some(s) => Some(s.clone()),
        None => None,
    }
}

impl PanePreset {
    /// A copy of this pane.
    pub fn duplicate(&self) -> (r: PanePreset)
        ensures
            r.title@ == self.title@,
            r.cmd@ == self.cmd@,
            r.interval_ms == self.interval_ms,
            r.paused == self.paused,
    {
        PanePreset {
            title: self.title.clone(),
            cmd: self.cmd.clone(),
            interval_ms: self.interval_ms,
            paused: self.paused,
        }
    }
}

/// The title `Pane n`.
pub open spec fn pane_title(n: nat) -> Seq<char> {
    "Pane "@ + decimal(n)
}

/// `Pane n` as a string.
pub fn pane_title_string(n: u64) -> (s: String)
    ensures
        s@ == pane_title(n as nat),
{
    let mut cs = chars_of("Pane ");
    let d = chars_of(decimal_string(n).as_str());
    let ghost prefix = cs@;
    let mut i: usize = 0;
    while i < d.len()
        invariant
            i <= d.len(),
            cs@ == prefix + d@.take(i as int),
        decreases d.len() - i,
    {
        cs.push(d[i]);
        assert(d@.take(i + 1) =~= d@.take(i as int).push(d@[i as int]));
        i += 1;
    }
    assert(d@.take(i as int) =~= d@);
    string_of(&cs)
}

/// The titles and commands of the panes, in order: title, command, title, ...
pub open spec fn pane_texts(panes: Seq<PanePreset>) -> Seq<Seq<char>> {
    Seq::new(
        2 * panes.len(),
        |i: int|
            if i % 2 == 0 {
                panes[i / 2].title@
            } else {
                panes[i / 2].cmd@
            },
    )
}

/// The first override key that is not a declared variable.
pub open spec fn first_unknown(ovs: Seq<(Seq<char>, Seq<char>)>, vars: Seq<(Seq<char>, Seq<char>)>) -> Option<
    Seq<char>,
>
    decreases ovs.len(),
{
    if ovs.len() == 0 {
        None
    } else if !has_key(vars, ovs[0].0) {
        Some(ovs[0].0)
    } else {
        first_unknown(ovs.drop_first(), vars)
    }
}

/// The declared variables with each override applied, in override order.
pub open spec fn merged(vars: Seq<(Seq<char>, Seq<char>)>, ovs: Seq<(Seq<char>, Seq<char>)>) -> Seq<
    (Seq<char>, Seq<char>),
>
    decreases ovs.len(),
{
    if ovs.len() == 0 {
        vars
    } else {
        merged(vars.update(key_index(vars, ovs[0].0), ovs[0]), ovs.drop_first())
    }
}

/// Every text rendered with `vars`; the first failing text gives the failure.
pub open spec fn render_all(texts: Seq<Seq<char>>, vars: Seq<(Seq<char>, Seq<char>)>) -> Result<
    Seq<Seq<char>>,
    SubstFailure,
>
    decreases texts.len(),
{
    if texts.len() == 0 {
        Ok(Seq::empty())
    } else {
        match render_from(texts[0], 0, vars) {
            Err(f) => Err(f),
            Ok(t) => match render_all(texts.drop_first(), vars) {
                Ok(rest) => Ok(seq![t] + rest),
                Err(f) => Err(f),
            },
        }
    }
}

/// `done` put in front of a rendering of the remaining texts.
pub open spec fn prepend_all(done: Seq<Seq<char>>, r: Result<Seq<Seq<char>>, SubstFailure>) -> Result<
    Seq<Seq<char>>,
    SubstFailure,
> {
    match r {
        Ok(rest) => Ok(done + rest),
        Err(f) => Err(f),
    }
}

proof fn lemma_first_unknown_skip(
    ovs: Seq<(Seq<char>, Seq<char>)>,
    vars: Seq<(Seq<char>, Seq<char>)>,
    i: int,
)
    requires
        0 <= i <= ovs.len(),
        forall|j: int| 0 <= j < i ==> has_key(vars, (#[trigger] ovs[j]).0),
    ensures
        first_unknown(ovs, vars) == first_unknown(ovs.skip(i), vars),
    decreases i,
{
    if i > 0 {
        assert(has_key(vars, ovs[0].0));
        assert forall|j: int| 0 <= j < i - 1 implies has_key(vars, (#[trigger] ovs.drop_first()[j]).0) by {
            assert(ovs.drop_first()[j] == ovs[j + 1]);
        }
        lemma_first_unknown_skip(ovs.drop_first(), vars, i - 1);
        assert(ovs.drop_first().skip(i - 1) =~= ovs.skip(i));
    } else {
        assert(ovs.skip(0) =~= ovs);
    }
}

proof fn lemma_merged_skip(vars: Seq<(Seq<char>, Seq<char>)>, ovs: Seq<(Seq<char>, Seq<char>)>, i: int)
    requires
        0 <= i < ovs.len(),
    ensures
        merged(vars, ovs.skip(i)) == merged(
            vars.update(key_index(vars, ovs[i].0), ovs[i]),
            ovs.skip(i + 1),
        ),
{
    assert(ovs.skip(i)[0] == ovs[i]);
    assert(ovs.skip(i).drop_first() =~= ovs.skip(i + 1));
}

impl Preset {
    /// A preset of `count` empty panes titled `Pane 1`, `Pane 2`, ..., each
    /// refreshed every second, on the `grid` layout, focused on the first pane.
    pub fn empty(count: usize, theme: Option<String>, accent: Option<String>) -> (p: Self)
        ensures
            p.name is None,
            opt_view(p.layout) == Some("grid"@),
            p.default_interval_ms == Some(1000u64),
            p.theme == theme,
            p.accent == accent,
            p.focused == Some(0usize),
            p.vars@.len() == 0,
            p.vars.wf(),
            p.panes@.len() == count,
            forall|i: int|
                0 <= i < count ==> (#[trigger] p.panes@[i]).title@ == pane_title((i + 1) as nat)
                    && p.panes@[i].cmd@.len() == 0 && p.panes@[i].interval_ms == Some(1000u64)
                    && !p.panes@[i].paused,
    {
        let mut panes: Vec<PanePreset> = Vec::new();
        let mut i: usize = 0;
        while i < count
            invariant
                i <= count,
                panes@.len() == i,
                forall|j: int|
                    0 <= j < i ==> (#[trigger] panes@[j]).title@ == pane_title((j + 1) as nat)
                        && panes@[j].cmd@.len() == 0 && panes@[j].interval_ms == Some(1000u64)
                        && !panes@[j].paused,
            decreases count - i,
        {
            let title = pane_title_string((i as u64) + 1);
            panes.push(
                PanePreset { title, cmd: String::new(), interval_ms: Some(1000), paused: false },
            );
            i += 1;
        }
        proof {
            reveal_strlit("grid");
        }
        Preset {
            name: None,
            layout: Some("grid".to_string()),
            default_interval_ms: Some(1000),
            theme,
            accent,
            focused: Some(0),
            vars: VarMap::new(),
            panes,
        }
    }
}

/// What resolving preset `p` with the overrides `ovs` gives: fails on an
/// override of an undeclared variable (the first, in name order), then on
/// panes referencing undeclared variables (all of them, sorted), then on the
/// first substitution that fails (titles before commands, pane by pane);
/// otherwise the preset with the merged variables and every pane's title
/// and command rendered.
pub open spec fn resolution(p: Preset, ovs: Seq<(Seq<char>, Seq<char>)>, r: Result<Preset, PresetError>) -> bool {
            match first_unknown(ovs, p.vars@) {
                Some(k) => r matches Err(PresetError::UnknownVariable(n)) && n@ == k,
                None => {
                    let m = merged(p.vars@, ovs);
                    let texts = pane_texts(p.panes@);
                    if missing_set(texts, m) != Set::<Seq<char>>::empty() {
                        r matches Err(PresetError::MissingDeclarations(v)) && strictly_sorted(
                            names_view(v@),
                        ) && names_view(v@).to_set() == missing_set(texts, m)
                    } else {
                        match render_all(texts, m) {
                            Err(f) => r matches Err(PresetError::Substitution(e)) && e.failure()
                                == f,
                            Ok(outs) => r matches Ok(q) && q.vars@ == m && q.vars.wf()
                                && opt_view(q.name) == opt_view(p.name) && opt_view(q.layout)
                                == opt_view(p.layout) && q.default_interval_ms
                                == p.default_interval_ms && opt_view(q.theme) == opt_view(
                                p.theme,
                            ) && opt_view(q.accent) == opt_view(p.accent) && q.focused
                                == p.focused && q.panes@.len() == p.panes@.len() && (
                            forall|i: int|
                                0 <= i < p.panes@.len() ==> (#[trigger] q.panes@[i]).title@
                                    == outs[2 * i] && q.panes@[i].cmd@ == outs[2 * i + 1]
                                    && q.panes@[i].interval_ms == p.panes@[i].interval_ms
                                    && q.panes@[i].paused == p.panes@[i].paused),
                        }
                    }
                },
            }
}

impl Preset {
    /// The preset with `overrides` applied to its variables and every
    /// `{{name}}` in pane titles and commands replaced. Fails on an override
    /// of an undeclared variable (the first, in name order), then on panes
    /// referencing undeclared variables (all of them, sorted), then on the
    /// first substitution that fails (titles before commands, pane by pane).
    pub fn resolved(&self, overrides: &VarMap) -> (r: Result<Preset, PresetError>)
        requires
            self.vars.wf(),
            overrides.wf(),
        ensures
            resolution(*self, overrides@, r),
    {
        let mut vars = self.vars.duplicate();
        let n = overrides.len();
        let mut i: usize = 0;
        assert(overrides@.skip(0) =~= overrides@);
        while i < n
            invariant
                i <= n,
                n == overrides@.len(),
                overrides.wf(),
                vars.wf(),
                self.vars.wf(),
                forall|x: Seq<char>| has_key(vars@, x) == has_key(self.vars@, x),
                forall|j: int| 0 <= j < i ==> has_key(self.vars@, (#[trigger] overrides@[j]).0),
                merged(self.vars@, overrides@) == merged(vars@, overrides@.skip(i as int)),
            decreases n - i,
        {
            let key = overrides.key_at(i);
            let value = overrides.value_at(i);
            if !vars.contains_key(key.as_str()) {
                proof {
                    lemma_first_unknown_skip(overrides@, self.vars@, i as int);
                    assert(overrides@.skip(i as int)[0] == overrides@[i as int]);
                }
                return Err(PresetError::UnknownVariable(key.clone()));
            }
            proof {
                lemma_merged_skip(vars@, overrides@, i as int);
            }
            vars.insert(key.clone(), value.clone());
            i += 1;
        }
        proof {
            lemma_first_unknown_skip(overrides@, self.vars@, n as int);
            assert(overrides@.skip(n as int).len() == 0);
            assert(merged(vars@, overrides@.skip(n as int)) == vars@);
        }
        let ghost m = vars@;
        let mut values: Vec<String> = Vec::new();
        let mut k: usize = 0;
        while k < self.panes.len()
            invariant
                k <= self.panes.len(),
                names_view(values@) =~= pane_texts(self.panes@).take(2 * k),
            decreases self.panes.len() - k,
        {
            let ghost before = names_view(values@);
            let ghost texts = pane_texts(self.panes@);
            values.push(self.panes[k].title.clone());
            values.push(self.panes[k].cmd.clone());
            proof {
                assert(texts[2 * k] == self.panes@[k as int].title@);
                assert(texts[2 * k + 1] == self.panes@[k as int].cmd@);
                assert(names_view(values@) =~= before.push(texts[2 * k]).push(texts[2 * k + 1]));
                assert(texts.take(2 * k + 2) =~= texts.take(2 * k).push(texts[2 * k]).push(
                    texts[2 * k + 1],
                ));
            }
            k += 1;
        }
        let ghost texts = pane_texts(self.panes@);
        assert(names_view(values@) =~= texts);
        let missing = missing_vars(values.as_slice(), &vars);
        if missing.len() > 0 {
            assert(names_view(missing@)[0] == missing@[0]@);
            assert(names_view(missing@).to_set().contains(missing@[0]@));
            return Err(PresetError::MissingDeclarations(missing));
        }
        assert(missing_set(texts, m) =~= Set::<Seq<char>>::empty()) by {
            assert(names_view(missing@) =~= Seq::<Seq<char>>::empty());
        }
        let mut panes: Vec<PanePreset> = Vec::new();
        let mut j: usize = 0;
        let ghost mut done: Seq<Seq<char>> = Seq::empty();
        assert(texts.skip(0) =~= texts);
        while j < self.panes.len()
            invariant
                j <= self.panes.len(),
                vars.wf(),
                vars@ == m,
                m == merged(self.vars@, overrides@),
                first_unknown(overrides@, self.vars@) is None,
                missing_set(texts, m) == Set::<Seq<char>>::empty(),
                texts == pane_texts(self.panes@),
                done.len() == 2 * j,
                panes@.len() == j,
                render_all(texts, m) == prepend_all(done, render_all(texts.skip(2 * j), m)),
                forall|q: int|
                    0 <= q < j ==> (#[trigger] panes@[q]).title@ == done[2 * q] && panes@[q].cmd@
                        == done[2 * q + 1] && panes@[q].interval_ms == self.panes@[q].interval_ms
                        && panes@[q].paused == self.panes@[q].paused,
            decreases self.panes.len() - j,
        {
            let pane = &self.panes[j];
            let ghost rest = texts.skip(2 * j);
            assert(rest[0] == pane.title@);
            assert(rest[1] == pane.cmd@);
            assert(rest.drop_first()[0] == pane.cmd@);
            assert(rest.drop_first().drop_first() =~= texts.skip(2 * j + 2));
            let title = match substitute(pane.title.as_str(), &vars) {
                Ok(t) => t,
                Err(e) => {
                    assert(render_all(rest, m) == Err::<Seq<Seq<char>>, SubstFailure>(
                        e.failure(),
                    ));
                    return Err(PresetError::Substitution(e));
                },
            };
            let cmd = match substitute(pane.cmd.as_str(), &vars) {
                Ok(c) => c,
                Err(e) => {
                    assert(render_all(rest.drop_first(), m) == Err::<
                        Seq<Seq<char>>,
                        SubstFailure,
                    >(e.failure()));
                    assert(render_all(rest, m) == Err::<Seq<Seq<char>>, SubstFailure>(
                        e.failure(),
                    ));
                    return Err(PresetError::Substitution(e));
                },
            };
            proof {
                match render_all(texts.skip(2 * j + 2), m) {
                    Ok(tail) => {
                        assert(done + (seq![title@] + (seq![cmd@] + tail)) =~= done.push(
                            title@,
                        ).push(cmd@) + tail);
                    },
                    Err(_) => {},
                }
                done = done.push(title@).push(cmd@);
            }
            panes.push(
                PanePreset { title, cmd, interval_ms: pane.interval_ms, paused: pane.paused },
            );
            j += 1;
        }
        assert(texts.skip(2 * j) =~= Seq::<Seq<char>>::empty());
        assert(done + Seq::<Seq<char>>::empty() =~= done);
        Ok(
            Preset {
                name: clone_opt(&self.name),
                layout: clone_opt(&self.layout),
                default_interval_ms: self.default_interval_ms,
                theme: clone_opt(&self.theme),
                accent: clone_opt(&self.accent),
                focused: self.focused,
                vars,
                panes,
            },
        )
    }
}

/// Why a preset or state location cannot be found.
#[derive(Debug, PartialEq, Eq, Structural)]
pub enum DirError {
    /// `HOME` is not set.
    HomeNotSet,
}

/// `part` joined onto the path `base`: an absolute `part` replaces `base`;
/// otherwise one `/` separates them, unless `base` is empty or already ends
/// with one.
pub open spec fn joined(base: Seq<char>, part: Seq<char>) -> Seq<char> {
    if part.len() > 0 && part[0] == '/' {
        part
    } else if base.len() == 0 || base.last() == '/' {
        base + part
    } else {
        base.push('/') + part
    }
}

/// Joins `part` onto the path `base` (see [`joined`]).
pub fn join_path(base: &str, part: &str) -> (r: String)
    ensures
        r@ == joined(base@, part@),
{
    let p = chars_of(part);
    if p.len() > 0 && p[0] == '/' {
        return string_of(&p);
    }
    let mut out = chars_of(base);
    if out.len() > 0 && out[out.len() - 1] != '/' {
        out.push('/');
    }
    let ghost pre = out@;
    let mut i: usize = 0;
    while i < p.len()
        invariant
            i <= p.len(),
            out@ == pre + p@.take(i as int),
        decreases p.len() - i,
    {
        out.push(p[i]);
        assert(p@.take(i + 1) =~= p@.take(i as int).push(p@[i as int]));
        i += 1;
    }
    assert(p@.take(p.len() as int) =~= p@);
    string_of(&out)
}

/// The preset directory: `$XDG_CONFIG_HOME/split-watch/presets`, falling
/// back to `$HOME/.config/split-watch/presets`.
pub open spec fn preset_dir_of(xdg_config_home: Option<Seq<char>>, home: Seq<char>) -> Seq<char> {
    let base = match xdg_config_home {
        Some(x) => x,
        None => joined(home, ".config"@),
    };
    joined(joined(base, "split-watch"@), "presets"@)
}

/// The state directory: `$XDG_STATE_HOME/split-watch`, falling back to
/// `$HOME/.local/state/split-watch`.
pub open spec fn state_dir_of(xdg_state_home: Option<Seq<char>>, home: Seq<char>) -> Seq<char> {
    let base = match xdg_state_home {
        Some(x) => x,
        None => joined(joined(home, ".local"@), "state"@),
    };
    joined(base, "split-watch"@)
}

/// The preset directory for the given `XDG_CONFIG_HOME` and home directory.
pub fn preset_dir_with(xdg_config_home: Option<String>, home: String) -> (r: String)
    ensures
        r@ == preset_dir_of(opt_view(xdg_config_home), home@),
{
    let base = match xdg_config_home {
        Some(x) => x,
        None => join_path(home.as_str(), ".config"),
    };
    let app = join_path(base.as_str(), "split-watch");
    join_path(app.as_str(), "presets")
}

/// The state directory for the given `XDG_STATE_HOME` and home directory.
pub fn state_dir_with(xdg_state_home: Option<String>, home: String) -> (r: String)
    ensures
        r@ == state_dir_of(opt_view(xdg_state_home), home@),
{
    let base = match xdg_state_home {
        Some(x) => x,
        None => {
            let local = join_path(home.as_str(), ".local");
            join_path(local.as_str(), "state")
        },
    };
    join_path(base.as_str(), "split-watch")
}

/// The preset directory, from the values of `XDG_CONFIG_HOME` and `HOME`;
/// fails when `HOME` is not set.
pub fn preset_dir(xdg_config_home: Option<String>, home: Option<String>) -> (r: Result<String, DirError>)
    ensures
        match home {
            None => r == Err::<String, DirError>(DirError::HomeNotSet),
            Some(h) => r matches Ok(d) && d@ == preset_dir_of(opt_view(xdg_config_home), h@),
        },
{
    match home {
        None => Err(DirError::HomeNotSet),
        Some(h) => Ok(preset_dir_with(xdg_config_home, h)),
    }
}

/// The state directory, from the values of `XDG_STATE_HOME` and `HOME`;
/// fails when `HOME` is not set.
pub fn state_dir(xdg_state_home: Option<String>, home: Option<String>) -> (r: Result<String, DirError>)
    ensures
        match home {
            None => r == Err::<String, DirError>(DirError::HomeNotSet),
            Some(h) => r matches Ok(d) && d@ == state_dir_of(opt_view(xdg_state_home), h@),
        },
{
    match home {
        None => Err(DirError::HomeNotSet),
        Some(h) => Ok(state_dir_with(xdg_state_home, h)),
    }
}

/// Where the last dashboard is kept: `resume.toml` in the state directory.
pub fn resume_path(xdg_state_home: Option<String>, home: Option<String>) -> (r: Result<String, DirError>)
    ensures
        match home {
            None => r == Err::<String, DirError>(DirError::HomeNotSet),
            Some(h) => r matches Ok(p) && p@ == joined(
                state_dir_of(opt_view(xdg_state_home), h@),
                "resume.toml"@,
            ),
        },
{
    let dir = state_dir(xdg_state_home, home)?;
    Ok(join_path(dir.as_str(), "resume.toml"))
}

/// The file of the preset `name`: `name.toml` in the preset directory.
pub fn resolve_preset_path(xdg_config_home: Option<String>, home: Option<String>, name: &str) -> (r:
    Result<String, DirError>)
    ensures
        match home {
            None => r == Err::<String, DirError>(DirError::HomeNotSet),
            Some(h) => r matches Ok(p) && p@ == joined(
                preset_dir_of(opt_view(xdg_config_home), h@),
                name@ + toml_ext(),
            ),
        },
{
    let dir = preset_dir(xdg_config_home, home)?;
    let mut cs = chars_of(name);
    cs.push('.');
    cs.push('t');
    cs.push('o');
    cs.push('m');
    cs.push('l');
    assert(cs@ =~= name@ + toml_ext());
    let file = string_of(&cs);
    Ok(join_path(dir.as_str(), file.as_str()))
}

/// The extension that marks a preset file.
pub open spec fn toml_ext() -> Seq<char> {
    seq!['.', 't', 'o', 'm', 'l']
}

/// The stem of a file name whose extension is `toml`: what comes before the
/// last `.`, when that is not empty and what follows it is `toml`.
pub open spec fn toml_stem(f: Seq<char>) -> Option<Seq<char>> {
    if f.len() > 5 && f.skip(f.len() - 5) == toml_ext() {
        Some(f.take(f.len() - 5))
    } else {
        None
    }
}

/// The stems of the `toml` files among `files`.
pub open spec fn stems_in(files: Seq<Seq<char>>) -> Set<Seq<char>> {
    Set::new(
        |s: Seq<char>|
            exists|j: int| 0 <= j < files.len() && toml_stem(#[trigger] files[j]) == Some(s),
    )
}

/// The stem of a file name if its extension is `toml`.
pub fn preset_stem(file: &str) -> (r: Option<String>)
    ensures
        opt_view(r) == toml_stem(file@),
{
    let f = chars_of(file);
    let n = f.len();
    if n > 5 && f[n - 5] == '.' && f[n - 4] == 't' && f[n - 3] == 'o' && f[n - 2] == 'm' && f[n
        - 1] == 'l' {
        let mut stem: Vec<char> = Vec::new();
        let mut i: usize = 0;
        while i < n - 5
            invariant
                n == f.len(),
                n > 5,
                i <= n - 5,
                stem@ == f@.take(i as int),
            decreases n - 5 - i,
        {
            stem.push(f[i]);
            assert(f@.take(i + 1) =~= f@.take(i as int).push(f@[i as int]));
            i += 1;
        }
        assert(f@.skip(n - 5) =~= toml_ext());
        Some(string_of(&stem))
    } else {
        proof {
            if n > 5 && f@.skip(n - 5) == toml_ext() {
                assert(f@.skip(n - 5)[0] == f@[n - 5]);
                assert(f@.skip(n - 5)[1] == f@[n - 4]);
                assert(f@.skip(n - 5)[2] == f@[n - 3]);
                assert(f@.skip(n - 5)[3] == f@[n - 2]);
                assert(f@.skip(n - 5)[4] == f@[n - 1]);
            }
        }
        None
    }
}

/// The names of the saved presets, given the names of the files in the
/// preset directory: the stems of the `toml` files, sorted, each once.
pub fn preset_names(files: &[String]) -> (r: Vec<String>)
    ensures
        strictly_sorted(names_view(r@)),
        names_view(r@).to_set() == stems_in(names_view(files@)),
{
    let ghost fs = names_view(files@);
    let mut r: Vec<String> = Vec::new();
    let mut i: usize = 0;
    assert(names_view(r@).to_set() =~= stems_in(fs.take(0)));
    while i < files.len()
        invariant
            i <= files.len(),
            fs == names_view(files@),
            strictly_sorted(names_view(r@)),
            names_view(r@).to_set() == stems_in(fs.take(i as int)),
        decreases files.len() - i,
    {
        let ghost before = names_view(r@).to_set();
        let ghost pre = fs.take(i as int);
        let ghost post = fs.take(i + 1);
        assert(post =~= pre.push(fs[i as int]));
        match preset_stem(files[i].as_str()) {
            Some(stem) => {
                let ghost sv = stem@;
                insert_name(&mut r, stem);
                assert(names_view(r@).to_set() =~= stems_in(post)) by {
                    assert forall|x: Seq<char>| stems_in(post).contains(x) implies before.insert(
                        sv,
                    ).contains(x) by {
                        let j = choose|j: int|
                            0 <= j < post.len() && toml_stem(#[trigger] post[j]) == Some(x);
                        if j < i {
                            assert(pre[j] == post[j]);
                            assert(stems_in(pre).contains(x));
                        }
                    }
                    assert forall|x: Seq<char>| before.insert(sv).contains(x) implies stems_in(
                        post,
                    ).contains(x) by {
                        if x == sv {
                            assert(toml_stem(post[i as int]) == Some(x));
                        } else {
                            let j = choose|j: int|
                                0 <= j < pre.len() && toml_stem(#[trigger] pre[j]) == Some(x);
                            assert(post[j] == pre[j]);
                        }
                    }
                }
            },
            None => {
                assert(names_view(r@).to_set() =~= stems_in(post)) by {
                    assert forall|x: Seq<char>| stems_in(post).contains(x) implies before.contains(
                        x,
                    ) by {
                        let j = choose|j: int|
                            0 <= j < post.len() && toml_stem(#[trigger] post[j]) == Some(x);
                        assert(j != i);
                        assert(pre[j] == post[j]);
                    }
                    assert forall|x: Seq<char>| before.contains(x) implies stems_in(post).contains(
                        x,
                    ) by {
                        let j = choose|j: int|
                            0 <= j < pre.len() && toml_stem(#[trigger] pre[j]) == Some(x);
                        assert(post[j] == pre[j]);
                    }
                }
            },
        }
        i += 1;
    }
    assert(fs.take(files.len() as int) =~= fs);
    r
}

/// The preset written when an editable preset named `name` does not exist
/// yet: one empty pane refreshed every second, on the `grid` layout with the
/// `default` theme.
pub fn starter_preset(name: &str) -> (p: Preset)
    ensures
        opt_view(p.name) == Some(name@),
        opt_view(p.layout) == Some("grid"@),
        p.default_interval_ms == Some(1000u64),
        opt_view(p.theme) == Some("default"@),
        p.accent is None,
        p.focused == Some(0usize),
        p.vars@.len() == 0,
        p.vars.wf(),
        p.panes@.len() == 1,
        p.panes@[0].title@ == "Pane 1"@,
        p.panes@[0].cmd@.len() == 0,
        p.panes@[0].interval_ms == Some(1000u64),
        !p.panes@[0].paused,
{
    let mut panes: Vec<PanePreset> = Vec::new();
    panes.push(
        PanePreset {
            title: "Pane 1".to_string(),
            cmd: String::new(),
            interval_ms: Some(1000),
            paused: false,
        },
    );
    Preset {
        name: Some(name.to_string()),
        layout: Some("grid".to_string()),
        default_interval_ms: Some(1000),
        theme: Some("default".to_string()),
        accent: None,
        focused: Some(0),
        vars: VarMap::new(),
        panes,
    }
}

/// The position of the last `c` in `s`, or -1.
pub open spec fn last_index_of(s: Seq<char>, c: char) -> int
    decreases s.len(),
{
    if s.len() == 0 {
        -1
    } else if s.last() == c {
        s.len() - 1
    } else {
        last_index_of(s.drop_last(), c)
    }
}

pub proof fn lemma_last_index_of(s: Seq<char>, c: char)
    ensures
        -1 <= last_index_of(s, c) < s.len(),
        last_index_of(s, c) >= 0 ==> s[last_index_of(s, c)] == c,
    decreases s.len(),
{
    if s.len() > 0 && s.last() != c {
        lemma_last_index_of(s.drop_last(), c);
    }
}

/// The last component of a Unix path, as `Path::file_name` documents it:
/// trailing `/` and `.` components do not count, and there is none when the
/// path has no components left, or ends in `..`.
pub open spec fn path_file_name(path: Seq<char>) -> Option<Seq<char>>
    decreases path.len(),
{
    if path.len() == 0 {
        None
    } else if path.last() == '/' {
        path_file_name(path.drop_last())
    } else {
        let k = last_index_of(path, '/');
        let last = path.skip(k + 1);
        if last == "."@ {
            proof {
                lemma_last_index_of(path, '/');
            }
            path_file_name(path.take(k + 1))
        } else if last == ".."@ {
            None
        } else {
            Some(last)
        }
    }
}

/// A file name without its extension, as `Path::file_stem` documents it:
/// the whole name when it has no `.` or its only `.` comes first, else what
/// comes before its last `.`.
pub open spec fn name_stem(name: Seq<char>) -> Seq<char> {
    let d = last_index_of(name, '.');
    if d <= 0 {
        name
    } else {
        name.take(d)
    }
}

/// The stem of the last component of a path (std's `Path::file_stem`).
pub open spec fn path_file_stem(path: Seq<char>) -> Option<Seq<char>> {
    match path_file_name(path) {
        Some(name) => Some(name_stem(name)),
        None => None,
    }
}

/// The stem of the last component of `path` (std's `Path::file_stem`): the
/// file name without its extension, or `None` when the path ends in no file
/// name (see [`path_file_stem`]).
#[verifier::external_body]
pub(crate) fn file_stem(path: &str) -> (r: Option<String>)
    ensures
        opt_view(r) == path_file_stem(path@),
{
    match std::path::Path::new(path).file_stem() {
        Some(stem) => match stem.to_str() {
            Some(s) => Some(s.to_string()),
            None => None,
        },
        None => None,
    }
}

} // verus!
