//! Which pane a finished command belongs to, while panes come and go: each
//! pane has a token that stays with it, and a command reports back with the
//! token of the pane that started it.
use vstd::prelude::*;

verus! {

/// The tokens of the panes, in pane order, and the next token to hand out.
pub struct PaneTokens {
    tokens: Vec<usize>,
    next: usize,
}

impl View for PaneTokens {
    type V = (Seq<usize>, usize);

    closed spec fn view(&self) -> (Seq<usize>, usize) {
        (self.tokens@, self.next)
    }
}

impl PaneTokens {
    /// The tokens increase along the panes and are all below the next one,
    /// so no two panes share a token.
    pub open spec fn wf(&self) -> bool {
        &&& forall|i: int, j: int| 0 <= i < j < self@.0.len() ==> self@.0[i] < self@.0[j]
        &&& forall|i: int| 0 <= i < self@.0.len() ==> self@.0[i] < self@.1
    }

    /// Tokens for `count` panes: `0..count`.
    pub fn new(count: usize) -> (t: Self)
        ensures
            t.wf(),
            t@ == (Seq::new(count as nat, |i: int| i as usize), count),
    {
        let mut tokens: Vec<usize> = Vec::new();
        let mut i: usize = 0;
        while i < count
            invariant
                i <= count,
                tokens@ == Seq::new(i as nat, |k: int| k as usize),
            decreases count - i,
        {
            tokens.push(i);
            i += 1;
            assert(tokens@ =~= Seq::new(i as nat, |k: int| k as usize));
        }
        PaneTokens { tokens, next: count }
    }

    /// The number of panes with a token.
    pub fn len(&self) -> (n: usize)
        ensures
            n == self@.0.len(),
    {
        self.tokens.len()
    }

    /// The next token to hand out.
    pub fn next_token(&self) -> (n: usize)
        ensures
            n == self@.1,
    {
        self.next
    }

    /// The token of the pane at `index`.
    pub fn token(&self, index: usize) -> (t: usize)
        requires
            index < self@.0.len(),
        ensures
            t == self@.0[index as int],
    {
        self.tokens[index]
    }

    /// New panes at the end, up to `count`, each with a fresh token.
    pub fn grow_to(&mut self, count: usize)
        requires
            old(self).wf(),
            old(self)@.1 + count <= usize::MAX,
        ensures
            final(self).wf(),
            final(self)@ == if count <= old(self)@.0.len() {
                old(self)@
            } else {
                let added = count - old(self)@.0.len();
                (
                    old(self)@.0 + Seq::new(added as nat, |i: int| (old(self)@.1 + i) as usize),
                    (old(self)@.1 + added) as usize,
                )
            },
    {
        let ghost start = self.tokens@;
        let ghost first = self.next;
        while self.tokens.len() < count
            invariant
                start.len() <= self.tokens@.len() <= if count < start.len() {
                    start.len() as int
                } else {
                    count as int
                },
                first + count <= usize::MAX,
                self.next == first + (self.tokens@.len() - start.len()),
                self.tokens@ == start + Seq::new(
                    (self.tokens@.len() - start.len()) as nat,
                    |i: int| (first + i) as usize,
                ),
                forall|i: int, j: int| 0 <= i < j < start.len() ==> start[i] < start[j],
                forall|i: int| 0 <= i < start.len() ==> start[i] < first,
            decreases count - self.tokens@.len(),
        {
            let ghost before = self.tokens@;
            self.tokens.push(self.next);
            self.next = self.next + 1;
            assert(self.tokens@ =~= start + Seq::new(
                (self.tokens@.len() - start.len()) as nat,
                |i: int| (first + i) as usize,
            ));
        }
        assert(forall|i: int, j: int| 0 <= i < j < self@.0.len() ==> self@.0[i] < self@.0[j]) by {
            assert forall|i: int, j: int| 0 <= i < j < self@.0.len() implies self@.0[i] < self@.0[j] by {
                if j >= start.len() && i < start.len() {
                    assert(self@.0[i] == start[i]);
                }
            }
        }
    }

    /// The pane at `index` is gone; the panes after it move up one place.
    pub fn close(&mut self, index: usize)
        requires
            old(self).wf(),
            index < old(self)@.0.len(),
        ensures
            final(self).wf(),
            final(self)@ == (old(self)@.0.remove(index as int), old(self)@.1),
    {
        let _gone = self.tokens.remove(index);
        assert forall|i: int, j: int| 0 <= i < j < self@.0.len() implies self@.0[i] < self@.0[j] by {
            let oi = if i < index { i } else { i + 1 };
            let oj = if j < index { j } else { j + 1 };
            assert(self@.0[i] == old(self)@.0[oi]);
            assert(self@.0[j] == old(self)@.0[oj]);
        }
        assert forall|i: int| 0 <= i < self@.0.len() implies self@.0[i] < self@.1 by {
            let oi = if i < index { i } else { i + 1 };
            assert(self@.0[i] == old(self)@.0[oi]);
        }
    }

    /// Where the pane holding `token` now is, if it is still there.
    pub fn index_of(&self, token: usize) -> (r: Option<usize>)
        requires
            self.wf(),
        ensures
            match r {
                Some(i) => i < self@.0.len() && self@.0[i as int] == token,
                None => !self@.0.contains(token),
            },
    {
        let mut i: usize = 0;
        while i < self.tokens.len()
            invariant
                i <= self@.0.len(),
                forall|k: int| 0 <= k < i ==> self@.0[k] != token,
            decreases self@.0.len() - i,
        {
            if self.tokens[i] == token {
                return Some(i);
            }
            i += 1;
        }
        None
    }
}

} // verus!
