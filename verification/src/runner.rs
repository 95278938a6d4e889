//! Scheduling: which panes start a run on a tick, what a finished run
//! leaves behind, and filling in startup variables.
use vstd::prelude::*;
use crate::app::{
    App, AppView, CommandResult, Mode, PaneView, Toast, ToastLevel, ToastView, VarFieldView,
    elapsed, later, lemma_output_lines_len, long_running, output_lines, run_elapsed,
};
use crate::keys::{all_rerun, toast_at};
use crate::text::{chars_of, concat, is_blank, string_of, trim};

verus! {

/// How long a status message stays, in milliseconds.
pub const TOAST_MS: u64 = 4000;

/// The message has been shown for longer than [`TOAST_MS`].
pub open spec fn toast_expired(t: Option<ToastView>, now: u64) -> bool {
    match t {
        Some(t) => elapsed(now, t.created_ms) > TOAST_MS,
        None => false,
    }
}

/// The status message left at `now`.
pub open spec fn toast_after(t: Option<ToastView>, now: u64) -> Option<ToastView> {
    if toast_expired(t, now) {
        None
    } else {
        t
    }
}

/// A pane whose running command has outlasted its interval is marked, with
/// the time taken so far.
pub open spec fn marked(p: PaneView, now: u64) -> PaneView {
    if long_running(p, now) {
        PaneView { long_running_latched: true, last_long_running_ms: run_elapsed(p, now), ..p }
    } else {
        p
    }
}

/// A pane starts a run: it is not running, has a command, is not paused
/// (alone or with all panes) unless asked to run once, and is due or asked
/// to run once.
pub open spec fn starts(p: PaneView, now: u64, global_paused: bool) -> bool {
    &&& !p.running
    &&& trim(p.cmd).len() > 0
    &&& (!(global_paused || p.paused) || p.pending_run_once)
    &&& (p.pending_run_once || now >= p.next_run)
}

/// A pane after a tick: marked if long-running, and started if it
/// [`starts`], its next run one interval away.
pub open spec fn ticked(p: PaneView, now: u64, wall: u64, global_paused: bool) -> PaneView {
    let m = marked(p, now);
    if starts(m, now, global_paused) {
        PaneView {
            running: true,
            pending_run_once: false,
            run_started_at: Some(now),
            last_started: Some(wall),
            last_error: None,
            next_run: later(now, m.interval_ms),
            ..m
        }
    } else {
        m
    }
}

/// The ids of the panes that start a run, in order.
pub open spec fn started(ps: Seq<PaneView>, now: u64, global_paused: bool) -> Seq<usize>
    decreases ps.len(),
{
    if ps.len() == 0 {
        Seq::empty()
    } else {
        let rest = started(ps.drop_last(), now, global_paused);
        if starts(marked(ps.last(), now), now, global_paused) {
            rest.push(ps.last().id)
        } else {
            rest
        }
    }
}

/// A pane after its run finished with `out` and exit code `code`.
pub open spec fn finished_pane(p: PaneView, out: Seq<char>, code: i32, now: u64, wall: u64) -> PaneView {
    PaneView {
        last_long_running_ms: if p.long_running_latched {
            run_elapsed(p, now)
        } else {
            p.last_long_running_ms
        },
        running: false,
        run_started_at: None,
        last_finished: Some(wall),
        last_exit_code: Some(code),
        output: output_lines(out),
        scroll: 0,
        ..p
    }
}

/// A pane after its run could not be started or waited for.
pub open spec fn failed_pane(p: PaneView, err: Seq<char>, now: u64, wall: u64) -> PaneView {
    PaneView {
        last_long_running_ms: if p.long_running_latched {
            run_elapsed(p, now)
        } else {
            p.last_long_running_ms
        },
        running: false,
        run_started_at: None,
        last_finished: Some(wall),
        last_error: Some(err),
        last_exit_code: None,
        output: output_lines(err),
        scroll: 0,
        ..p
    }
}

/// `s` with every occurrence of `pat` replaced by `rep`, scanning from the
/// left without overlaps (`str::replace`, for a non-empty `pat`).
pub open spec fn replace_all(s: Seq<char>, pat: Seq<char>, rep: Seq<char>) -> Seq<char>
    decreases s.len(),
{
    if pat.len() == 0 || s.len() < pat.len() {
        s
    } else if s.take(pat.len() as int) == pat {
        rep + replace_all(s.skip(pat.len() as int), pat, rep)
    } else {
        seq![s[0]] + replace_all(s.skip(1), pat, rep)
    }
}

/// How a variable is written in a pane: `{{name}}`.
pub open spec fn needle(name: Seq<char>) -> Seq<char> {
    "{{"@ + name + "}}"@
}

/// `s` with each field's `{{name}}` replaced by its value, field by field.
pub open spec fn filled(s: Seq<char>, fs: Seq<VarFieldView>) -> Seq<char>
    decreases fs.len(),
{
    if fs.len() == 0 {
        s
    } else {
        filled(replace_all(s, needle(fs[0].name), fs[0].input.0), fs.drop_first())
    }
}

/// The message after a preset is saved.
pub open spec fn saved_message(name: Seq<char>) -> Seq<char> {
    "saved preset `"@ + name + "`"@
}

proof fn lemma_started_step(ps: Seq<PaneView>, i: int, now: u64, gp: bool)
    requires
        0 <= i < ps.len(),
    ensures
        started(ps.take(i + 1), now, gp) == if starts(marked(ps[i], now), now, gp) {
            started(ps.take(i), now, gp).push(ps[i].id)
        } else {
            started(ps.take(i), now, gp)
        },
{
    assert(ps.take(i + 1).drop_last() =~= ps.take(i));
    assert(ps.take(i + 1).last() == ps[i]);
}

/// Whether `cs` holds `pat` at position `i`.
fn matches_at(cs: &Vec<char>, i: usize, pat: &Vec<char>) -> (b: bool)
    requires
        i <= cs.len(),
    ensures
        b == (cs@.len() - i >= pat@.len() && cs@.skip(i as int).take(pat@.len() as int) == pat@),
{
    if cs.len() - i < pat.len() {
        return false;
    }
    let mut k: usize = 0;
    while k < pat.len()
        invariant
            k <= pat.len(),
            cs.len() - i >= pat.len(),
            forall|j: int| 0 <= j < k ==> cs@[i + j] == pat@[j],
        decreases pat.len() - k,
    {
        if cs[i + k] != pat[k] {
            assert(cs@.skip(i as int).take(pat@.len() as int)[k as int] != pat@[k as int]);
            return false;
        }
        k += 1;
    }
    assert(cs@.skip(i as int).take(pat@.len() as int) =~= pat@);
    true
}

/// `str::replace` for a non-empty pattern.
fn replace_text(s: &str, pat: &Vec<char>, rep: &Vec<char>) -> (r: String)
    requires
        pat@.len() > 0,
    ensures
        r@ == replace_all(s@, pat@, rep@),
{
    let cs = chars_of(s);
    let n = cs.len();
    let m = pat.len();
    let mut out: Vec<char> = Vec::new();
    let mut i: usize = 0;
    assert(cs@.skip(0) =~= cs@);
    while i < n
        invariant
            i <= n,
            n == cs@.len(),
            m == pat@.len(),
            m > 0,
            replace_all(cs@, pat@, rep@) == out@ + replace_all(cs@.skip(i as int), pat@, rep@),
        decreases n - i,
    {
        let ghost rest = cs@.skip(i as int);
        if matches_at(&cs, i, pat) {
            let ghost pre = out@;
            let mut k: usize = 0;
            while k < rep.len()
                invariant
                    k <= rep.len(),
                    out@ == pre + rep@.take(k as int),
                decreases rep.len() - k,
            {
                out.push(rep[k]);
                assert(rep@.take(k + 1) =~= rep@.take(k as int).push(rep@[k as int]));
                k += 1;
            }
            proof {
                assert(rep@.take(k as int) =~= rep@);
                assert(rest.skip(m as int) =~= cs@.skip(i + m));
                assert(pre + (rep@ + replace_all(rest.skip(m as int), pat@, rep@)) =~= out@
                    + replace_all(cs@.skip(i + m), pat@, rep@));
            }
            i += m;
        } else {
            let ghost pre = out@;
            out.push(cs[i]);
            proof {
                assert(rest[0] == cs@[i as int]);
                assert(rest.skip(1) =~= cs@.skip(i + 1));
                if rest.len() >= m {
                    assert(replace_all(rest, pat@, rep@) == seq![rest[0]] + replace_all(
                        rest.skip(1),
                        pat@,
                        rep@,
                    ));
                } else {
                    assert(replace_all(rest, pat@, rep@) == rest);
                    assert(replace_all(rest.skip(1), pat@, rep@) == rest.skip(1));
                    assert(rest =~= seq![rest[0]] + rest.skip(1));
                }
                assert(pre + (seq![cs@[i as int]] + replace_all(cs@.skip(i + 1), pat@, rep@))
                    =~= out@ + replace_all(cs@.skip(i + 1), pat@, rep@));
            }
            i += 1;
        }
    }
    assert(cs@.skip(n as int) =~= Seq::<char>::empty());
    assert(out@ + Seq::<char>::empty() =~= out@);
    string_of(&out)
}

/// `{{name}}` as characters.
fn needle_chars(name: &str) -> (r: Vec<char>)
    ensures
        r@ == needle(name@),
        r@.len() > 0,
{
    let s = concat(concat("{{", name).as_str(), "}}");
    let r = chars_of(s.as_str());
    proof {
        reveal_strlit("{{");
        reveal_strlit("}}");
    }
    r
}

impl App {
    /// One scheduling step at `now_ms` (`wall_ms` on the wall clock): marks
    /// long-running panes, starts the panes that [`starts`] and returns their
    /// ids for the caller to run, and drops an expired status message. While
    /// the variables dialog is open only the message is handled.
    pub fn tick(&mut self, now_ms: u64, wall_ms: u64) -> (r: Vec<usize>)
        requires
            old(self).wf(),
        ensures
            final(self).wf(),
            old(self).mode == Mode::VarsModal ==> final(self)@ == (AppView {
                toast: toast_after(old(self)@.toast, now_ms),
                ..old(self)@
            }) && r@.len() == 0,
            old(self).mode != Mode::VarsModal ==> final(self)@ == (AppView {
                panes: old(self)@.panes.map_values(
                    |p: PaneView| ticked(p, now_ms, wall_ms, old(self)@.global_paused),
                ),
                toast: toast_after(old(self)@.toast, now_ms),
                ..old(self)@
            }) && r@ == started(old(self)@.panes, now_ms, old(self)@.global_paused),
    {
        let mut spawned: Vec<usize> = Vec::new();
        if self.mode != Mode::VarsModal {
            let n = self.panes.len();
            let gp = self.global_paused;
            let ghost ps = old(self)@.panes;
            let mut i: usize = 0;
            assert(ps.take(0) =~= Seq::<PaneView>::empty());
            while i < n
                invariant
                    i <= n,
                    n == self.panes@.len(),
                    ps == old(self)@.panes,
                    ps.len() == n,
                    gp == old(self)@.global_paused,
                    self.wf(),
                    self@ == (AppView { panes: self@.panes, ..old(self)@ }),
                    forall|j: int|
                        0 <= j < i ==> (#[trigger] self.panes@[j])@ == ticked(ps[j], now_ms, wall_ms, gp),
                    forall|j: int| i <= j < n ==> #[trigger] self.panes@[j] == old(self).panes@[j],
                    spawned@ == started(ps.take(i as int), now_ms, gp),
                decreases n - i,
            {
                proof {
                    lemma_started_step(ps, i as int, now_ms, gp);
                }
                if self.panes[i].running {
                    let over = match self.panes[i].run_started_at {
                        Some(t) => {
                            let e = if now_ms >= t {
                                now_ms - t
                            } else {
                                0
                            };
                            if e > self.panes[i].interval_ms {
                                Some(e)
                            } else {
                                None
                            }
                        },
                        None => None,
                    };
                    if over.is_some() {
                        self.panes[i].long_running_latched = true;
                        self.panes[i].last_long_running_ms = over;
                    }
                }
                assert(self.panes@[i as int]@ == marked(ps[i as int], now_ms));
                let pane = &self.panes[i];
                let go = !pane.running && !is_blank(pane.cmd.as_str()) && (!(gp || pane.paused)
                    || pane.pending_run_once) && (pane.pending_run_once || now_ms >= pane.next_run);
                if go {
                    let interval = self.panes[i].interval_ms;
                    self.panes[i].running = true;
                    self.panes[i].pending_run_once = false;
                    self.panes[i].run_started_at = Some(now_ms);
                    self.panes[i].last_started = Some(wall_ms);
                    self.panes[i].last_error = None;
                    self.panes[i].next_run = now_ms.saturating_add(interval);
                    spawned.push(self.panes[i].id);
                }
                i += 1;
            }
            assert(ps.take(n as int) =~= ps);
            assert(self@.panes =~= ps.map_values(|p: PaneView| ticked(p, now_ms, wall_ms, gp)));
        }
        let expired = match &self.toast {
            Some(t) => now_ms >= t.created_ms && now_ms - t.created_ms > TOAST_MS,
            None => false,
        };
        if expired {
            self.toast = None;
        }
        spawned
    }

    /// Records how a run of pane `pane_id` ended (nothing happens for an id
    /// that is no pane's).
    pub fn handle_command_result(&mut self, result: CommandResult, now_ms: u64, wall_ms: u64)
        requires
            old(self).wf(),
        ensures
            final(self).wf(),
            match result {
                CommandResult::Finished { pane_id, output, exit_code } => final(self)@ == if pane_id
                    < old(self)@.panes.len() {
                    AppView {
                        panes: old(self)@.panes.update(
                            pane_id as int,
                            finished_pane(old(self)@.panes[pane_id as int], output@, exit_code, now_ms, wall_ms),
                        ),
                        ..old(self)@
                    }
                } else {
                    old(self)@
                },
                CommandResult::Failed { pane_id, error } => final(self)@ == if pane_id < old(
                    self,
                )@.panes.len() {
                    AppView {
                        panes: old(self)@.panes.update(
                            pane_id as int,
                            failed_pane(old(self)@.panes[pane_id as int], error@, now_ms, wall_ms),
                        ),
                        ..old(self)@
                    }
                } else {
                    old(self)@
                },
            },
    {
        match result {
            CommandResult::Finished { pane_id, output, exit_code } => {
                if pane_id < self.panes.len() {
                    let elapsed_ms = match self.panes[pane_id].run_started_at {
                        Some(t) => Some(
                            if now_ms >= t {
                                now_ms - t
                            } else {
                                0
                            },
                        ),
                        None => None,
                    };
                    if self.panes[pane_id].long_running_latched {
                        self.panes[pane_id].last_long_running_ms = elapsed_ms;
                    }
                    self.panes[pane_id].running = false;
                    self.panes[pane_id].run_started_at = None;
                    self.panes[pane_id].last_finished = Some(wall_ms);
                    self.panes[pane_id].last_exit_code = Some(exit_code);
                    self.panes[pane_id].set_output(output);
                    proof {
                        lemma_output_lines_len(output@);
                    }
                    assert(self@.panes =~= old(self)@.panes.update(
                        pane_id as int,
                        finished_pane(old(self)@.panes[pane_id as int], output@, exit_code, now_ms, wall_ms),
                    ));
                }
            },
            CommandResult::Failed { pane_id, error } => {
                if pane_id < self.panes.len() {
                    let elapsed_ms = match self.panes[pane_id].run_started_at {
                        Some(t) => Some(
                            if now_ms >= t {
                                now_ms - t
                            } else {
                                0
                            },
                        ),
                        None => None,
                    };
                    if self.panes[pane_id].long_running_latched {
                        self.panes[pane_id].last_long_running_ms = elapsed_ms;
                    }
                    self.panes[pane_id].running = false;
                    self.panes[pane_id].run_started_at = None;
                    self.panes[pane_id].last_finished = Some(wall_ms);
                    self.panes[pane_id].last_error = Some(error.clone());
                    self.panes[pane_id].last_exit_code = None;
                    self.panes[pane_id].set_output(error);
                    proof {
                        lemma_output_lines_len(error@);
                    }
                    assert(self@.panes =~= old(self)@.panes.update(
                        pane_id as int,
                        failed_pane(old(self)@.panes[pane_id as int], error@, now_ms, wall_ms),
                    ));
                }
            },
        }
    }

    /// Fills each variable field's value in for its `{{name}}` in every
    /// pane's title and command, closes the dialog and reruns every pane.
    pub fn apply_vars(&mut self, now_ms: u64)
        requires
            old(self).wf(),
        ensures
            final(self).wf(),
            final(self)@ == all_rerun(
                AppView {
                    panes: old(self)@.panes.map_values(
                        |p: PaneView|
                            PaneView {
                                title: filled(p.title, old(self)@.vars_fields),
                                cmd: filled(p.cmd, old(self)@.vars_fields),
                                ..p
                            },
                    ),
                    mode: Mode::Normal,
                    ..old(self)@
                },
                now_ms,
            ),
    {
        let n = self.panes.len();
        let ghost fs = old(self)@.vars_fields;
        let mut i: usize = 0;
        while i < n
            invariant
                i <= n,
                n == self.panes@.len(),
                fs == self@.vars_fields,
                self.wf(),
                self@ == (AppView { panes: self@.panes, ..old(self)@ }),
                forall|j: int|
                    0 <= j < i ==> (#[trigger] self.panes@[j])@ == (PaneView {
                        title: filled(old(self).panes@[j]@.title, fs),
                        cmd: filled(old(self).panes@[j]@.cmd, fs),
                        ..old(self).panes@[j]@
                    }),
                forall|j: int| i <= j < n ==> #[trigger] self.panes@[j] == old(self).panes@[j],
            decreases n - i,
        {
            let ghost p0 = self.panes@[i as int]@;
            let mut k: usize = 0;
            assert(fs.skip(0) =~= fs);
            while k < self.vars_fields.len()
                invariant
                    k <= self.vars_fields@.len(),
                    i < n,
                    n == self.panes@.len(),
                    fs == self@.vars_fields,
                    self.wf(),
                    self@ == (AppView { panes: self@.panes, ..old(self)@ }),
                    forall|j: int|
                        0 <= j < i ==> (#[trigger] self.panes@[j])@ == (PaneView {
                            title: filled(old(self).panes@[j]@.title, fs),
                            cmd: filled(old(self).panes@[j]@.cmd, fs),
                            ..old(self).panes@[j]@
                        }),
                    forall|j: int| i < j < n ==> #[trigger] self.panes@[j] == old(self).panes@[j],
                    p0 == old(self).panes@[i as int]@,
                    filled(p0.title, fs) == filled(self.panes@[i as int]@.title, fs.skip(k as int)),
                    filled(p0.cmd, fs) == filled(self.panes@[i as int]@.cmd, fs.skip(k as int)),
                    self.panes@[i as int]@ == (PaneView {
                        title: self.panes@[i as int]@.title,
                        cmd: self.panes@[i as int]@.cmd,
                        ..p0
                    }),
                decreases self.vars_fields@.len() - k,
            {
                let pat = needle_chars(self.vars_fields[k].name.as_str());
                let rep = chars_of(self.vars_fields[k].input.value.as_str());
                let title = replace_text(self.panes[i].title.as_str(), &pat, &rep);
                let cmd = replace_text(self.panes[i].cmd.as_str(), &pat, &rep);
                proof {
                    assert(fs[k as int] == self.vars_fields@[k as int]@);
                    assert(fs.skip(k as int)[0] == fs[k as int]);
                    assert(fs.skip(k as int).drop_first() =~= fs.skip(k + 1));
                }
                self.panes[i].title = title;
                self.panes[i].cmd = cmd;
                k += 1;
            }
            assert(fs.skip(fs.len() as int) =~= Seq::<VarFieldView>::empty());
            i += 1;
        }
        self.mode = Mode::Normal;
        proof {
            let want = AppView {
                panes: old(self)@.panes.map_values(
                    |p: PaneView| PaneView { title: filled(p.title, fs), cmd: filled(p.cmd, fs), ..p },
                ),
                mode: Mode::Normal,
                ..old(self)@
            };
            assert(self@.panes =~= want.panes);
            assert(self@ == want);
        }
        self.rerun_all(now_ms);
    }

    /// Every pane stops counting as running (the caller kills the commands).
    pub fn kill_running_commands(&mut self)
        requires
            old(self).wf(),
        ensures
            final(self).wf(),
            final(self)@ == (AppView {
                panes: old(self)@.panes.map_values(
                    |p: PaneView| PaneView { running: false, run_started_at: None, ..p },
                ),
                ..old(self)@
            }),
    {
        let n = self.panes.len();
        let mut i: usize = 0;
        while i < n
            invariant
                i <= n,
                n == self.panes@.len(),
                self.wf(),
                self@ == (AppView { panes: self@.panes, ..old(self)@ }),
                forall|j: int|
                    0 <= j < i ==> (#[trigger] self.panes@[j])@ == (PaneView {
                        running: false,
                        run_started_at: None,
                        ..old(self).panes@[j]@
                    }),
                forall|j: int| i <= j < n ==> #[trigger] self.panes@[j] == old(self).panes@[j],
            decreases n - i,
        {
            self.panes[i].running = false;
            self.panes[i].run_started_at = None;
            i += 1;
        }
        assert(self@.panes =~= old(self)@.panes.map_values(
            |p: PaneView| PaneView { running: false, run_started_at: None, ..p },
        ));
    }

    /// Closes the save dialog after a save under `name`; a non-empty name
    /// gets a message that the preset was saved.
    pub fn finish_save(&mut self, name: &str, now_ms: u64)
        requires
            old(self).wf(),
        ensures
            final(self).wf(),
            final(self)@ == (AppView {
                mode: Mode::Normal,
                toast: if name@.len() == 0 {
                    old(self)@.toast
                } else {
                    toast_at(saved_message(name@), ToastLevel::Success, now_ms)
                },
                ..old(self)@
            }),
    {
        self.mode = Mode::Normal;
        if chars_of(name).len() > 0 {
            let message = concat(concat("saved preset `", name).as_str(), "`");
            self.toast = Some(Toast { message, level: ToastLevel::Success, created_ms: now_ms });
        }
    }
}

} // verus!
