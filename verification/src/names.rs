//! Ordered maps and sets of names, kept sorted and free of duplicates.
use vstd::prelude::*;
use crate::order::{
    chars_lt, compare_chars, lemma_lt_asymmetric, lemma_lt_irreflexive, lemma_lt_total,
    lemma_lt_transitive, strictly_sorted,
};
use crate::text::chars_of;

verus! {

/// The keys of an entry sequence, in order.
pub open spec fn keys_of(es: Seq<(Seq<char>, Seq<char>)>) -> Seq<Seq<char>> {
    es.map_values(|e: (Seq<char>, Seq<char>)| e.0)
}

/// Some entry has key `k`.
pub open spec fn has_key(es: Seq<(Seq<char>, Seq<char>)>, k: Seq<char>) -> bool {
    exists|i: int| 0 <= i < es.len() && (#[trigger] es[i]).0 == k
}

/// The value stored under `k` (meaningful when `has_key(es, k)`).
pub open spec fn value_of(es: Seq<(Seq<char>, Seq<char>)>, k: Seq<char>) -> Seq<char> {
    es[key_index(es, k)].1
}

/// The position of an entry with key `k` (meaningful when `has_key(es, k)`).
pub open spec fn key_index(es: Seq<(Seq<char>, Seq<char>)>, k: Seq<char>) -> int {
    choose|i: int| 0 <= i < es.len() && (#[trigger] es[i]).0 == k
}

/// In an entry sequence with strictly sorted keys, the entry at `i` is the one
/// `value_of` reads for its key.
pub proof fn lemma_value_at(es: Seq<(Seq<char>, Seq<char>)>, i: int)
    requires
        strictly_sorted(keys_of(es)),
        0 <= i < es.len(),
    ensures
        has_key(es, es[i].0),
        value_of(es, es[i].0) == es[i].1,
        key_index(es, es[i].0) == i,
{
    let k = es[i].0;
    assert(keys_of(es)[i] == k);
    assert(has_key(es, k));
    let j = key_index(es, k);
    assert(keys_of(es)[j] == k);
    if j != i {
        if j < i {
            assert(chars_lt(keys_of(es)[j], keys_of(es)[i]));
        } else {
            assert(chars_lt(keys_of(es)[i], keys_of(es)[j]));
        }
        lemma_lt_irreflexive(k);
    }
    assert(value_of(es, k) == es[j].1);
}

/// The character sequences of a list of strings.
pub open spec fn names_view(v: Seq<String>) -> Seq<Seq<char>> {
    v.map_values(|s: String| s@)
}

/// Adds `n` to a strictly sorted list of names, keeping it strictly sorted.
pub fn insert_name(v: &mut Vec<String>, n: String)
    requires
        strictly_sorted(names_view(old(v)@)),
    ensures
        strictly_sorted(names_view(final(v)@)),
        names_view(final(v)@).to_set() == names_view(old(v)@).to_set().insert(n@),
{
    let nc = chars_of(n.as_str());
    let ghost old_v = names_view(v@);
    let mut i: usize = 0;
    while i < v.len()
        invariant
            i <= v.len(),
            names_view(v@) == old_v,
            strictly_sorted(old_v),
            nc@ == n@,
            forall|j: int| 0 <= j < i ==> chars_lt(#[trigger] old_v[j], nc@),
        ensures
            i <= v.len(),
            names_view(v@) == old_v,
            forall|j: int| 0 <= j < i ==> chars_lt(#[trigger] old_v[j], nc@),
            i < v.len() ==> chars_lt(nc@, old_v[i as int]),
        decreases v.len() - i,
    {
        let cur = chars_of(v[i].as_str());
        let c = compare_chars(&cur, &nc);
        assert(cur@ == old_v[i as int]);
        if c == 0 {
            assert(old_v.to_set() =~= old_v.to_set().insert(n@)) by {
                assert(old_v[i as int] == n@);
                assert(old_v.contains(n@));
            }
            return;
        }
        if c > 0 {
            break;
        }
        i += 1;
    }
    assert(i < v.len() ==> chars_lt(nc@, old_v[i as int]));
    v.insert(i, n);
    let ghost new_v = names_view(v@);
    assert(new_v =~= old_v.insert(i as int, nc@));
    assert forall|a: int, b: int| 0 <= a < b < new_v.len() implies chars_lt(
        #[trigger] new_v[a],
        #[trigger] new_v[b],
    ) by {
        if b < i {
        } else if b == i {
        } else if a == i {
            if b - 1 > i {
                lemma_lt_transitive(nc@, old_v[i as int], old_v[b - 1]);
            }
        } else if a < i {
            assert(new_v[b] == old_v[b - 1]);
            if b - 1 == i {
                lemma_lt_transitive(old_v[a], nc@, old_v[i as int]);
            } else {
                lemma_lt_transitive(old_v[a], nc@, old_v[i as int]);
                lemma_lt_transitive(old_v[a], old_v[i as int], old_v[b - 1]);
            }
        } else {
            assert(new_v[a] == old_v[a - 1]);
            assert(new_v[b] == old_v[b - 1]);
        }
    }
    assert(new_v.to_set() =~= old_v.to_set().insert(n@)) by {
        assert forall|x: Seq<char>| new_v.contains(x) implies old_v.to_set().insert(n@).contains(
            x,
        ) by {
            let j = choose|j: int| 0 <= j < new_v.len() && new_v[j] == x;
            if j < i {
                assert(old_v[j] == x);
            } else if j > i {
                assert(old_v[j - 1] == x);
            }
        }
        assert forall|x: Seq<char>| old_v.to_set().insert(n@).contains(x) implies new_v.contains(
            x,
        ) by {
            if x == n@ {
                assert(new_v[i as int] == x);
            } else {
                let j = choose|j: int| 0 <= j < old_v.len() && old_v[j] == x;
                if j < i {
                    assert(new_v[j] == x);
                } else {
                    assert(new_v[j + 1] == x);
                }
            }
        }
    }
}

/// A map from variable names to values, iterated in increasing name order
/// (the order of a `BTreeMap<String, String>`).
#[derive(Debug)]
pub struct VarMap {
    entries: Vec<(String, String)>,
}

impl View for VarMap {
    type V = Seq<(Seq<char>, Seq<char>)>;

    closed spec fn view(&self) -> Seq<(Seq<char>, Seq<char>)> {
        self.entries@.map_values(|e: (String, String)| (e.0@, e.1@))
    }
}

impl VarMap {
    /// A copy of this map.
    pub fn duplicate(&self) -> (r: VarMap)
        ensures
            r@ == self@,
            self.wf() ==> r.wf(),
    {
        let mut entries: Vec<(String, String)> = Vec::new();
        let mut i: usize = 0;
        while i < self.entries.len()
            invariant
                i <= self.entries.len(),
                entries@.map_values(|e: (String, String)| (e.0@, e.1@)) =~= self@.take(i as int),
            decreases self.entries.len() - i,
        {
            let k = self.entries[i].0.clone();
            let v = self.entries[i].1.clone();
            let ghost before = entries@;
            entries.push((k, v));
            assert(entries@.map_values(|e: (String, String)| (e.0@, e.1@)) =~= before.map_values(
                |e: (String, String)| (e.0@, e.1@),
            ).push(self@[i as int]));
            assert(self@.take(i + 1) =~= self@.take(i as int).push(self@[i as int]));
            i += 1;
        }
        let r = VarMap { entries };
        assert(r@ =~= self@);
        r
    }

    /// The keys are strictly increasing.
    pub closed spec fn wf(&self) -> bool {
        strictly_sorted(keys_of(self@))
    }

    /// An empty map.
    pub fn new() -> (m: Self)
        ensures
            m@ == Seq::<(Seq<char>, Seq<char>)>::empty(),
            m.wf(),
    {
        let m = VarMap { entries: Vec::new() };
        assert(m@ =~= Seq::<(Seq<char>, Seq<char>)>::empty());
        m
    }

    /// Number of entries; also exposes that the keys are sorted.
    pub fn len(&self) -> (n: usize)
        requires
            self.wf(),
        ensures
            n == self@.len(),
            strictly_sorted(keys_of(self@)),
    {
        self.entries.len()
    }

    pub fn is_empty(&self) -> (b: bool)
        ensures
            b == (self@.len() == 0),
    {
        self.entries.len() == 0
    }

    /// The key of the `i`-th entry in increasing order.
    pub fn key_at(&self, i: usize) -> (k: &String)
        requires
            i < self@.len(),
        ensures
            k@ == self@[i as int].0,
    {
        &self.entries[i].0
    }

    /// The value of the `i`-th entry in increasing key order.
    pub fn value_at(&self, i: usize) -> (v: &String)
        requires
            i < self@.len(),
        ensures
            v@ == self@[i as int].1,
    {
        &self.entries[i].1
    }

    /// Position at which `k` is stored or would be inserted: the number of keys
    /// below `k`; `found` tells whether the key there equals `k`.
    fn position(&self, k: &Vec<char>) -> (r: (usize, bool))
        requires
            self.wf(),
        ensures
            r.0 <= self@.len(),
            forall|j: int| 0 <= j < r.0 ==> chars_lt(#[trigger] self@[j].0, k@),
            r.1 ==> r.0 < self@.len() && self@[r.0 as int].0 == k@,
            !r.1 ==> forall|j: int| r.0 <= j < self@.len() ==> chars_lt(k@, #[trigger] self@[j].0),
    {
        let mut i: usize = 0;
        while i < self.entries.len()
            invariant
                self.wf(),
                i <= self@.len(),
                self@.len() == self.entries.len(),
                forall|j: int| 0 <= j < i ==> chars_lt(#[trigger] self@[j].0, k@),
            decreases self.entries.len() - i,
        {
            let key = chars_of(self.entries[i].0.as_str());
            let c = compare_chars(&key, k);
            assert(key@ == self@[i as int].0);
            if c == 0 {
                return (i, true);
            }
            if c > 0 {
                proof {
                    assert forall|j: int| i <= j < self@.len() implies chars_lt(
                        k@,
                        #[trigger] self@[j].0,
                    ) by {
                        if j > i {
                            assert(keys_of(self@)[i as int] == self@[i as int].0);
                            assert(keys_of(self@)[j] == self@[j].0);
                            lemma_lt_transitive(k@, self@[i as int].0, self@[j].0);
                        }
                    }
                }
                return (i, false);
            }
            i += 1;
        }
        (i, false)
    }

    /// Whether `k` is a key.
    pub fn contains_key(&self, k: &str) -> (b: bool)
        requires
            self.wf(),
        ensures
            b == has_key(self@, k@),
    {
        let kc = chars_of(k);
        let (p, found) = self.position(&kc);
        if !found {
            assert forall|j: int| 0 <= j < self@.len() implies (#[trigger] self@[j]).0 != k@ by {
                if j < p {
                    lemma_lt_asymmetric(self@[j].0, k@);
                } else {
                    lemma_lt_asymmetric(k@, self@[j].0);
                }
            }
        }
        found
    }

    /// The value stored under `k`, if any.
    pub fn get(&self, k: &str) -> (r: Option<&String>)
        requires
            self.wf(),
        ensures
            r is Some <==> has_key(self@, k@),
            r matches Some(v) ==> v@ == value_of(self@, k@),
    {
        let kc = chars_of(k);
        let (p, found) = self.position(&kc);
        if found {
            proof {
                lemma_value_at(self@, p as int);
            }
            Some(&self.entries[p].1)
        } else {
            assert forall|j: int| 0 <= j < self@.len() implies (#[trigger] self@[j]).0 != k@ by {
                if j < p {
                    lemma_lt_asymmetric(self@[j].0, k@);
                } else {
                    lemma_lt_asymmetric(k@, self@[j].0);
                }
            }
            None
        }
    }

    /// Stores `v` under `k`, replacing any previous value.
    pub fn insert(&mut self, k: String, v: String)
        requires
            old(self).wf(),
        ensures
            final(self).wf(),
            forall|x: Seq<char>| has_key(final(self)@, x) <==> (has_key(old(self)@, x) || x == k@),
            value_of(final(self)@, k@) == v@,
            has_key(old(self)@, k@) ==> final(self)@ == old(self)@.update(
                key_index(old(self)@, k@),
                (k@, v@),
            ),
            forall|x: Seq<char>|
                x != k@ && has_key(old(self)@, x) ==> value_of(final(self)@, x) == value_of(
                    old(self)@,
                    x,
                ),
    {
        let kc = chars_of(k.as_str());
        let (p, found) = self.position(&kc);
        let ghost old_v = self@;
        if found {
            proof {
                lemma_value_at(old_v, p as int);
            }
            self.entries.set(p, (k, v));
            assert(self@ =~= old_v.update(p as int, (kc@, v@)));
            assert(keys_of(self@) =~= keys_of(old_v));
        } else {
            assert(!has_key(old_v, kc@)) by {
                assert forall|j: int| 0 <= j < old_v.len() implies (#[trigger] old_v[j]).0 != kc@ by {
                    if j < p {
                        lemma_lt_asymmetric(old_v[j].0, kc@);
                    } else {
                        lemma_lt_asymmetric(kc@, old_v[j].0);
                    }
                }
            }
            self.entries.insert(p, (k, v));
            assert(self@ =~= old_v.insert(p as int, (kc@, v@)));
            assert forall|i: int, j: int| 0 <= i < j < self@.len() implies chars_lt(
                #[trigger] keys_of(self@)[i],
                #[trigger] keys_of(self@)[j],
            ) by {
                assert(keys_of(self@)[i] == self@[i].0);
                assert(keys_of(self@)[j] == self@[j].0);
                if j < p {
                    assert(keys_of(old_v)[i] == old_v[i].0);
                    assert(keys_of(old_v)[j] == old_v[j].0);
                } else if j == p {
                    assert(self@[i] == old_v[i]);
                } else if i == p {
                    assert(self@[j] == old_v[j - 1]);
                } else if i < p {
                    assert(self@[j] == old_v[j - 1]);
                    lemma_lt_transitive(old_v[i].0, kc@, old_v[j - 1].0);
                } else {
                    assert(keys_of(old_v)[i - 1] == old_v[i - 1].0);
                    assert(keys_of(old_v)[j - 1] == old_v[j - 1].0);
                }
            }
        }
        let ghost new_v = self@;
        assert(strictly_sorted(keys_of(new_v)));
        assert forall|x: Seq<char>| has_key(new_v, x) <==> (has_key(old_v, x) || x == kc@) by {
            if has_key(new_v, x) {
                let i = choose|i: int| 0 <= i < new_v.len() && (#[trigger] new_v[i]).0 == x;
                if x != kc@ {
                    if found {
                        assert(old_v[i].0 == x);
                    } else if i < p {
                        assert(old_v[i].0 == x);
                    } else {
                        assert(old_v[i - 1].0 == x);
                    }
                }
            }
            if has_key(old_v, x) {
                let i = choose|i: int| 0 <= i < old_v.len() && (#[trigger] old_v[i]).0 == x;
                if found {
                    if i == p {
                        assert(new_v[i].0 == x);
                    } else {
                        assert(new_v[i].0 == x);
                    }
                } else if i < p {
                    assert(new_v[i].0 == x);
                } else {
                    assert(new_v[i + 1].0 == x);
                }
            }
            if x == kc@ {
                assert(new_v[p as int].0 == x);
            }
        }
        proof {
            lemma_value_at(new_v, p as int);
        }
        assert forall|x: Seq<char>| x != kc@ && has_key(old_v, x) implies value_of(new_v, x)
            == value_of(old_v, x) by {
            let i = choose|i: int| 0 <= i < old_v.len() && (#[trigger] old_v[i]).0 == x;
            lemma_value_at(old_v, i);
            if found || i < p {
                assert(new_v[i] == old_v[i]);
                lemma_value_at(new_v, i);
            } else {
                assert(new_v[i + 1] == old_v[i]);
                lemma_value_at(new_v, i + 1);
            }
        }
    }
}

} // verus!
