//! Preset variables: the `{{name}}` reference syntax, name rules and substitution.
use vstd::prelude::*;
use crate::names::{has_key, insert_name, keys_of, names_view, value_of, VarMap};
use crate::order::strictly_sorted;
use crate::text::{all_ws, chars_of, is_blank, is_whitespace, is_ws, string_of};

verus! {

/// An ASCII letter or `_`: what a variable name may start with.
pub open spec fn is_name_start(c: char) -> bool {
    ||| 'a' <= c <= 'z'
    ||| 'A' <= c <= 'Z'
    ||| c == '_'
}

/// An ASCII letter, digit or `_`: what the rest of a variable name is made of.
pub open spec fn is_name_char(c: char) -> bool {
    is_name_start(c) || '0' <= c <= '9'
}

/// A valid variable name: a letter or `_`, then letters, digits and `_`.
pub open spec fn valid_name(s: Seq<char>) -> bool {
    &&& s.len() > 0
    &&& is_name_start(s[0])
    &&& forall|i: int| 1 <= i < s.len() ==> is_name_char(#[trigger] s[i])
}

fn name_start_char(c: char) -> (b: bool)
    ensures
        b == is_name_start(c),
{
    ('a' <= c && c <= 'z') || ('A' <= c && c <= 'Z') || c == '_'
}

fn name_char(c: char) -> (b: bool)
    ensures
        b == is_name_char(c),
{
    name_start_char(c) || ('0' <= c && c <= '9')
}

/// Whether `name` follows the variable naming rule.
pub fn is_valid_var_name(name: &str) -> (b: bool)
    ensures
        b == valid_name(name@),
{
    let cs = chars_of(name);
    if cs.len() == 0 || !name_start_char(cs[0]) {
        return false;
    }
    let mut i: usize = 1;
    while i < cs.len()
        invariant
            1 <= i <= cs.len(),
            cs@ == name@,
            forall|k: int| 1 <= k < i ==> is_name_char(#[trigger] cs@[k]),
        decreases cs.len() - i,
    {
        if !name_char(cs[i]) {
            return false;
        }
        i += 1;
    }
    true
}

/// First position at or after `j` that is not blank (or the end).
pub open spec fn ws_end(s: Seq<char>, j: int) -> int
    decreases s.len() - j,
{
    if 0 <= j < s.len() && is_ws(s[j]) {
        ws_end(s, j + 1)
    } else {
        j
    }
}

/// First position at or after `j` that is not a name character (or the end).
pub open spec fn name_end(s: Seq<char>, j: int) -> int
    decreases s.len() - j,
{
    if 0 <= j < s.len() && is_name_char(s[j]) {
        name_end(s, j + 1)
    } else {
        j
    }
}

pub proof fn lemma_ws_end(s: Seq<char>, j: int)
    requires
        0 <= j <= s.len(),
    ensures
        j <= ws_end(s, j) <= s.len(),
        forall|k: int| j <= k < ws_end(s, j) ==> is_ws(#[trigger] s[k]),
        ws_end(s, j) < s.len() ==> !is_ws(s[ws_end(s, j)]),
    decreases s.len() - j,
{
    if j < s.len() && is_ws(s[j]) {
        lemma_ws_end(s, j + 1);
    }
}

pub proof fn lemma_name_end(s: Seq<char>, j: int)
    requires
        0 <= j <= s.len(),
    ensures
        j <= name_end(s, j) <= s.len(),
        forall|k: int| j <= k < name_end(s, j) ==> is_name_char(#[trigger] s[k]),
        name_end(s, j) < s.len() ==> !is_name_char(s[name_end(s, j)]),
    decreases s.len() - j,
{
    if j < s.len() && is_name_char(s[j]) {
        lemma_name_end(s, j + 1);
    }
}

/// A reference `{{ name }}` starting at position `i` of `s`: the position just
/// after it and where the name begins and ends. Blanks may surround the name.
pub open spec fn ref_at(s: Seq<char>, i: int) -> Option<(int, int, int)> {
    if 0 <= i && i + 1 < s.len() && s[i] == '{' && s[i + 1] == '{' {
        let ns = ws_end(s, i + 2);
        if 0 <= ns < s.len() && is_name_start(s[ns]) {
            let ne = name_end(s, ns + 1);
            let c = ws_end(s, ne);
            if 0 <= c && c + 1 < s.len() && s[c] == '}' && s[c + 1] == '}' {
                Some((c + 2, ns, ne))
            } else {
                None
            }
        } else {
            None
        }
    } else {
        None
    }
}

pub proof fn lemma_ref_at(s: Seq<char>, i: int)
    requires
        ref_at(s, i) is Some,
    ensures
        ({
            let (e, ns, ne) = ref_at(s, i)->0;
            &&& i + 2 <= ns < ne <= e - 2
            &&& e <= s.len()
            &&& valid_name(s.subrange(ns, ne))
        }),
{
    lemma_ws_end(s, i + 2);
    let ns = ws_end(s, i + 2);
    lemma_name_end(s, ns + 1);
    let ne = name_end(s, ns + 1);
    lemma_ws_end(s, ne);
    let nm = s.subrange(ns, ne);
    assert forall|k: int| 1 <= k < nm.len() implies is_name_char(#[trigger] nm[k]) by {
        assert(nm[k] == s[ns + k]);
    }
}

/// The references of `s` from position `i` on, as the non-overlapping
/// leftmost matches found scanning left to right: (start, end, name start, name end).
pub open spec fn refs_from(s: Seq<char>, i: int) -> Seq<(int, int, int, int)>
    decreases s.len() - i,
{
    if i < 0 || i >= s.len() {
        Seq::empty()
    } else {
        match ref_at(s, i) {
            Some((e, ns, ne)) => {
                if e > i {
                    seq![(i, e, ns, ne)] + refs_from(s, e)
                } else {
                    Seq::empty()
                }
            },
            None => refs_from(s, i + 1),
        }
    }
}

/// The names referenced in `s`, in order of appearance (with repeats).
pub open spec fn ref_names(s: Seq<char>) -> Seq<Seq<char>> {
    refs_from(s, 0).map_values(|r: (int, int, int, int)| s.subrange(r.2, r.3))
}

/// Why a substitution fails: a referenced variable is not declared, or is empty.
#[derive(Debug, PartialEq, Eq)]
pub enum SubstError {
    MissingVariable(String),
    EmptyVariable(String),
}

/// The ghost counterpart of `SubstError`.
pub enum SubstFailure {
    Missing(Seq<char>),
    Empty(Seq<char>),
}

impl SubstError {
    pub open spec fn failure(self) -> SubstFailure {
        match self {
            SubstError::MissingVariable(n) => SubstFailure::Missing(n@),
            SubstError::EmptyVariable(n) => SubstFailure::Empty(n@),
        }
    }
}

/// `s` from position `i` on with every reference replaced by its value; the
/// first reference (from the left) that is undeclared or empty makes it fail.
pub open spec fn render_from(s: Seq<char>, i: int, vars: Seq<(Seq<char>, Seq<char>)>) -> Result<
    Seq<char>,
    SubstFailure,
>
    decreases s.len() - i,
{
    if i < 0 || i >= s.len() {
        Ok(Seq::empty())
    } else {
        match ref_at(s, i) {
            Some((e, ns, ne)) => {
                let name = s.subrange(ns, ne);
                if !has_key(vars, name) {
                    Err(SubstFailure::Missing(name))
                } else if value_of(vars, name).len() == 0 {
                    Err(SubstFailure::Empty(name))
                } else if e > i {
                    match render_from(s, e, vars) {
                        Ok(rest) => Ok(value_of(vars, name) + rest),
                        Err(f) => Err(f),
                    }
                } else {
                    Ok(Seq::empty())
                }
            },
            None => match render_from(s, i + 1, vars) {
                Ok(rest) => Ok(seq![s[i]] + rest),
                Err(f) => Err(f),
            },
        }
    }
}

/// `out` put in front of a rendering result.
pub open spec fn prepend(out: Seq<char>, r: Result<Seq<char>, SubstFailure>) -> Result<
    Seq<char>,
    SubstFailure,
> {
    match r {
        Ok(rest) => Ok(out + rest),
        Err(f) => Err(f),
    }
}

/// The reference starting at `i`, if any: (end, name start, name end).
fn match_ref_at(s: &Vec<char>, i: usize) -> (r: Option<(usize, usize, usize)>)
    requires
        i < s.len(),
    ensures
        r matches Some(m) ==> ref_at(s@, i as int) == Some((m.0 as int, m.1 as int, m.2 as int)),
        r is None ==> ref_at(s@, i as int) is None,
{
    let n = s.len();
    if !(i + 1 < n && s[i] == '{' && s[i + 1] == '{') {
        return None;
    }
    let mut ns = i + 2;
    while ns < n && is_whitespace(s[ns])
        invariant
            i + 2 <= ns <= n,
            n == s.len(),
            ws_end(s@, i + 2) == ws_end(s@, ns as int),
        decreases n - ns,
    {
        ns += 1;
    }
    if !(ns < n && name_start_char(s[ns])) {
        return None;
    }
    let mut ne = ns + 1;
    while ne < n && name_char(s[ne])
        invariant
            ns + 1 <= ne <= n,
            n == s.len(),
            name_end(s@, ns + 1) == name_end(s@, ne as int),
        decreases n - ne,
    {
        ne += 1;
    }
    let mut c = ne;
    while c < n && is_whitespace(s[c])
        invariant
            ne <= c <= n,
            n == s.len(),
            ws_end(s@, ne as int) == ws_end(s@, c as int),
        decreases n - c,
    {
        c += 1;
    }
    if c < n && c + 1 < n && s[c] == '}' && s[c + 1] == '}' {
        Some((c + 2, ns, ne))
    } else {
        None
    }
}

/// `value` with every `{{name}}` replaced by the value of `name` in `vars`.
/// Fails on the first reference (from the left) to a variable that is not
/// declared, or whose value is empty.
pub fn substitute(value: &str, vars: &VarMap) -> (r: Result<String, SubstError>)
    requires
        vars.wf(),
    ensures
        match (r, render_from(value@, 0, vars@)) {
            (Ok(out), Ok(expected)) => out@ == expected,
            (Err(e), Err(f)) => e.failure() == f,
            _ => false,
        },
{
    let s = chars_of(value);
    let mut out: Vec<char> = Vec::new();
    let mut i: usize = 0;
    while i < s.len()
        invariant
            i <= s.len(),
            s@ == value@,
            vars.wf(),
            render_from(s@, 0, vars@) == prepend(out@, render_from(s@, i as int, vars@)),
        decreases s.len() - i,
    {
        match match_ref_at(&s, i) {
            Some((e, ns, ne)) => {
                proof {
                    lemma_ref_at(s@, i as int);
                }
                let mut name_chars: Vec<char> = Vec::new();
                let mut k: usize = ns;
                while k < ne
                    invariant
                        ns <= k <= ne,
                        ne <= s.len(),
                        name_chars@ == s@.subrange(ns as int, k as int),
                    decreases ne - k,
                {
                    name_chars.push(s[k]);
                    assert(s@.subrange(ns as int, k + 1) =~= s@.subrange(ns as int, k as int).push(
                        s@[k as int],
                    ));
                    k += 1;
                }
                let name = string_of(&name_chars);
                match vars.get(name.as_str()) {
                    None => {
                        return Err(SubstError::MissingVariable(name));
                    },
                    Some(rep) => {
                        let rc = chars_of(rep.as_str());
                        if rc.len() == 0 {
                            return Err(SubstError::EmptyVariable(name));
                        }
                        let ghost before = out@;
                        let mut j: usize = 0;
                        while j < rc.len()
                            invariant
                                j <= rc.len(),
                                out@ == before + rc@.take(j as int),
                            decreases rc.len() - j,
                        {
                            out.push(rc[j]);
                            assert(rc@.take(j + 1) =~= rc@.take(j as int).push(rc@[j as int]));
                            j += 1;
                        }
                        assert(rc@.take(rc.len() as int) =~= rc@);
                        proof {
                            match render_from(s@, e as int, vars@) {
                                Ok(rest) => {
                                    assert(before + (rc@ + rest) =~= out@ + rest);
                                },
                                Err(_) => {},
                            }
                        }
                        i = e;
                    },
                }
            },
            None => {
                let ghost before = out@;
                out.push(s[i]);
                proof {
                    match render_from(s@, i + 1, vars@) {
                        Ok(rest) => {
                            assert(before + (seq![s@[i as int]] + rest) =~= out@ + rest);
                        },
                        Err(_) => {},
                    }
                }
                i += 1;
            },
        }
    }
    assert(render_from(s@, i as int, vars@) == Ok::<Seq<char>, SubstFailure>(Seq::empty()));
    assert(out@ + Seq::<char>::empty() =~= out@);
    Ok(string_of(&out))
}

/// The characters `s[a..b]` as a string.
fn substring(s: &Vec<char>, a: usize, b: usize) -> (r: String)
    requires
        a <= b <= s.len(),
    ensures
        r@ == s@.subrange(a as int, b as int),
{
    let mut cs: Vec<char> = Vec::new();
    let mut k: usize = a;
    while k < b
        invariant
            a <= k <= b,
            b <= s.len(),
            cs@ == s@.subrange(a as int, k as int),
        decreases b - k,
    {
        cs.push(s[k]);
        assert(s@.subrange(a as int, k + 1) =~= s@.subrange(a as int, k as int).push(s@[k as int]));
        k += 1;
    }
    string_of(&cs)
}

/// The names referenced in `value`, in order of appearance.
fn ref_name_list(value: &str) -> (r: Vec<String>)
    ensures
        names_view(r@) == ref_names(value@),
{
    let s = chars_of(value);
    let mut r: Vec<String> = Vec::new();
    let mut i: usize = 0;
    let ghost mut done: Seq<(int, int, int, int)> = Seq::empty();
    while i < s.len()
        invariant
            i <= s.len(),
            s@ == value@,
            refs_from(s@, 0) == done + refs_from(s@, i as int),
            names_view(r@) == done.map_values(|m: (int, int, int, int)| s@.subrange(m.2, m.3)),
        decreases s.len() - i,
    {
        match match_ref_at(&s, i) {
            Some((e, ns, ne)) => {
                proof {
                    lemma_ref_at(s@, i as int);
                }
                let name = substring(&s, ns, ne);
                let ghost old_names = names_view(r@);
                r.push(name);
                proof {
                    let m = (i as int, e as int, ns as int, ne as int);
                    assert(names_view(r@) =~= old_names.push(s@.subrange(ns as int, ne as int)));
                    assert(done + refs_from(s@, i as int) =~= done.push(m) + refs_from(s@, e as int));
                    done = done.push(m);
                    assert(names_view(r@) =~= done.map_values(
                        |m: (int, int, int, int)| s@.subrange(m.2, m.3),
                    ));
                }
                i = e;
            },
            None => {
                i += 1;
            },
        }
    }
    assert(done =~= refs_from(s@, 0));
    r
}

/// The distinct names referenced in `value`, sorted.
pub fn references_in(value: &str) -> (r: Vec<String>)
    ensures
        strictly_sorted(names_view(r@)),
        names_view(r@).to_set() == ref_names(value@).to_set(),
{
    let all = ref_name_list(value);
    let mut r: Vec<String> = Vec::new();
    let mut i: usize = 0;
    while i < all.len()
        invariant
            i <= all.len(),
            strictly_sorted(names_view(r@)),
            names_view(r@).to_set() == names_view(all@).take(i as int).to_set(),
        decreases all.len() - i,
    {
        insert_name(&mut r, all[i].clone());
        assert(names_view(all@).take(i + 1) =~= names_view(all@).take(i as int).push(all@[i as int]@));
        proof {
            names_view(all@).take(i as int).lemma_push_to_set_commute(all@[i as int]@);
        }
        i += 1;
    }
    assert(names_view(all@).take(all.len() as int) =~= names_view(all@));
    r
}

/// The names referenced in some of `values` that `declared` does not declare.
pub open spec fn missing_set(values: Seq<Seq<char>>, declared: Seq<(Seq<char>, Seq<char>)>) -> Set<
    Seq<char>,
> {
    Set::new(
        |n: Seq<char>|
            (exists|i: int| 0 <= i < values.len() && ref_names(#[trigger] values[i]).contains(n))
                && !has_key(declared, n),
    )
}

/// The distinct names referenced in `values` that are not declared, sorted.
pub fn missing_vars(values: &[String], declared: &VarMap) -> (r: Vec<String>)
    requires
        declared.wf(),
    ensures
        strictly_sorted(names_view(r@)),
        names_view(r@).to_set() == missing_set(names_view(values@), declared@),
{
    let mut r: Vec<String> = Vec::new();
    let mut i: usize = 0;
    let ghost vs = names_view(values@);
    while i < values.len()
        invariant
            i <= values.len(),
            vs == names_view(values@),
            declared.wf(),
            strictly_sorted(names_view(r@)),
            names_view(r@).to_set() == missing_set(vs.take(i as int), declared@),
        decreases values.len() - i,
    {
        let refs = ref_name_list(values[i].as_str());
        let ghost before = names_view(r@).to_set();
        let mut j: usize = 0;
        while j < refs.len()
            invariant
                j <= refs.len(),
                declared.wf(),
                strictly_sorted(names_view(r@)),
                names_view(r@).to_set() == before.union(
                    Set::new(
                        |n: Seq<char>| names_view(refs@).take(j as int).contains(n) && !has_key(declared@, n),
                    ),
                ),
            decreases refs.len() - j,
        {
            let ghost prev = names_view(r@).to_set();
            if !declared.contains_key(refs[j].as_str()) {
                insert_name(&mut r, refs[j].clone());
            }
            assert(names_view(refs@).take(j + 1) =~= names_view(refs@).take(j as int).push(
                refs@[j as int]@,
            ));
            assert(names_view(r@).to_set() =~= before.union(
                Set::new(
                    |n: Seq<char>| names_view(refs@).take(j + 1).contains(n) && !has_key(declared@, n),
                ),
            )) by {
                assert forall|n: Seq<char>|
                    names_view(refs@).take(j + 1).contains(n) implies names_view(refs@).take(
                    j as int,
                ).contains(n) || n == refs@[j as int]@ by {
                    let k = choose|k: int|
                        0 <= k < j + 1 && #[trigger] names_view(refs@).take(j + 1)[k] == n;
                    if k < j {
                        assert(names_view(refs@).take(j as int)[k] == n);
                    }
                }
                assert forall|n: Seq<char>|
                    names_view(refs@).take(j as int).contains(n) implies names_view(refs@).take(
                    j + 1,
                ).contains(n) by {
                    let k = choose|k: int|
                        0 <= k < j && #[trigger] names_view(refs@).take(j as int)[k] == n;
                    assert(names_view(refs@).take(j + 1)[k] == n);
                }
                assert(names_view(refs@).take(j + 1)[j as int] == refs@[j as int]@);
            }
            j += 1;
        }
        assert(names_view(refs@).take(refs.len() as int) =~= names_view(refs@));
        assert(vs.take(i + 1) =~= vs.take(i as int).push(vs[i as int]));
        assert(names_view(r@).to_set() =~= missing_set(vs.take(i + 1), declared@)) by {
            assert forall|n: Seq<char>|
                missing_set(vs.take(i + 1), declared@).contains(n) implies names_view(
                r@,
            ).to_set().contains(n) by {
                let k = choose|k: int|
                    0 <= k < vs.take(i + 1).len() && ref_names(#[trigger] vs.take(i + 1)[k]).contains(
                        n,
                    );
                if k < i {
                    assert(vs.take(i as int)[k] == vs.take(i + 1)[k]);
                    assert(missing_set(vs.take(i as int), declared@).contains(n));
                } else {
                    assert(vs.take(i + 1)[k] == values@[i as int]@);
                }
            }
            assert forall|n: Seq<char>|
                names_view(r@).to_set().contains(n) implies missing_set(
                vs.take(i + 1),
                declared@,
            ).contains(n) by {
                if before.contains(n) {
                    let k = choose|k: int|
                        0 <= k < vs.take(i as int).len() && ref_names(
                            #[trigger] vs.take(i as int)[k],
                        ).contains(n);
                    assert(vs.take(i + 1)[k] == vs.take(i as int)[k]);
                } else {
                    assert(vs.take(i + 1)[i as int] == values@[i as int]@);
                }
            }
        }
        i += 1;
    }
    assert(vs.take(values.len() as int) =~= vs);
    r
}

/// The declared names that break the naming rule, sorted.
pub fn invalid_var_names(declared: &VarMap) -> (r: Vec<String>)
    requires
        declared.wf(),
    ensures
        strictly_sorted(names_view(r@)),
        names_view(r@).to_set() == keys_of(declared@).to_set().filter(
            |k: Seq<char>| !valid_name(k),
        ),
{
    let n = declared.len();
    let mut r: Vec<String> = Vec::new();
    let mut i: usize = 0;
    while i < n
        invariant
            i <= n,
            n == declared@.len(),
            declared.wf(),
            strictly_sorted(names_view(r@)),
            names_view(r@).to_set() == keys_of(declared@).take(i as int).to_set().filter(
                |k: Seq<char>| !valid_name(k),
            ),
        decreases n - i,
    {
        let k = declared.key_at(i);
        assert(keys_of(declared@).take(i + 1) =~= keys_of(declared@).take(i as int).push(k@));
        proof {
            keys_of(declared@).take(i as int).lemma_push_to_set_commute(k@);
        }
        if !is_valid_var_name(k.as_str()) {
            insert_name(&mut r, k.clone());
        }
        assert(names_view(r@).to_set() =~= keys_of(declared@).take(i + 1).to_set().filter(
            |k: Seq<char>| !valid_name(k),
        ));
        i += 1;
    }
    assert(keys_of(declared@).take(n as int) =~= keys_of(declared@));
    r
}

/// The declared names whose value is blank, sorted.
pub fn required_empty_vars(declared: &VarMap) -> (r: Vec<String>)
    requires
        declared.wf(),
    ensures
        strictly_sorted(names_view(r@)),
        names_view(r@).to_set() == keys_of(declared@).to_set().filter(
            |k: Seq<char>| all_ws(value_of(declared@, k)),
        ),
{
    let n = declared.len();
    let mut r: Vec<String> = Vec::new();
    let mut i: usize = 0;
    while i < n
        invariant
            i <= n,
            n == declared@.len(),
            declared.wf(),
            strictly_sorted(keys_of(declared@)),
            strictly_sorted(names_view(r@)),
            names_view(r@).to_set() == keys_of(declared@).take(i as int).to_set().filter(
                |k: Seq<char>| all_ws(value_of(declared@, k)),
            ),
        decreases n - i,
    {
        let k = declared.key_at(i);
        let v = declared.value_at(i);
        proof {
            crate::names::lemma_value_at(declared@, i as int);
            keys_of(declared@).take(i as int).lemma_push_to_set_commute(k@);
        }
        assert(keys_of(declared@).take(i + 1) =~= keys_of(declared@).take(i as int).push(k@));
        if is_blank(v.as_str()) {
            insert_name(&mut r, k.clone());
        }
        assert(names_view(r@).to_set() =~= keys_of(declared@).take(i + 1).to_set().filter(
            |k: Seq<char>| all_ws(value_of(declared@, k)),
        ));
        i += 1;
    }
    assert(keys_of(declared@).take(n as int) =~= keys_of(declared@));
    r
}

} // verus!
