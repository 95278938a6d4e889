//! A text field whose cursor moves between characters; it may span lines.
use vstd::prelude::*;
use vstd::utf8::{encode_scalar, encode_utf8};
use crate::text::{byte_length, chars_of, string_of};

verus! {

/// The number of UTF-8 bytes of `c`.
pub open spec fn char_len(c: char) -> nat {
    encode_scalar(c as u32).len()
}

/// The number of UTF-8 bytes of `s` (what `str::len` gives).
pub open spec fn byte_len(s: Seq<char>) -> nat {
    encode_utf8(s).len()
}

pub proof fn lemma_char_len_bounds(c: char)
    ensures
        1 <= char_len(c) <= 4,
{
    vstd::utf8::char_is_scalar(c);
}

pub proof fn lemma_encode_add(a: Seq<char>, b: Seq<char>)
    ensures
        encode_utf8(a + b) == encode_utf8(a) + encode_utf8(b),
    decreases a.len(),
{
    if a.len() == 0 {
        assert(a + b =~= b);
        assert(encode_utf8(a) =~= Seq::<u8>::empty());
        assert(encode_utf8(a) + encode_utf8(b) =~= encode_utf8(b));
    } else {
        assert((a + b).drop_first() =~= a.drop_first() + b);
        assert((a + b)[0] == a[0]);
        lemma_encode_add(a.drop_first(), b);
        assert(encode_scalar(a[0] as u32) + (encode_utf8(a.drop_first()) + encode_utf8(b))
            =~= (encode_scalar(a[0] as u32) + encode_utf8(a.drop_first())) + encode_utf8(b));
    }
}

pub proof fn lemma_byte_len_add(a: Seq<char>, b: Seq<char>)
    ensures
        byte_len(a + b) == byte_len(a) + byte_len(b),
{
    lemma_encode_add(a, b);
}

pub proof fn lemma_byte_len_push(s: Seq<char>, c: char)
    ensures
        byte_len(s.push(c)) == byte_len(s) + char_len(c),
{
    lemma_encode_add(s, seq![c]);
    assert(s.push(c) =~= s + seq![c]);
    assert(seq![c].drop_first() =~= Seq::<char>::empty());
    assert(encode_utf8(Seq::<char>::empty()) =~= Seq::<u8>::empty());
    assert(encode_utf8(seq![c]) == encode_scalar(seq![c][0] as u32) + encode_utf8(
        seq![c].drop_first(),
    ));
    assert(encode_utf8(seq![c]) =~= encode_scalar(c as u32));
}

/// The byte offsets of char prefixes grow strictly with the prefix length.
pub proof fn lemma_prefix_bytes_increase(s: Seq<char>, i: int, j: int)
    requires
        0 <= i < j <= s.len(),
    ensures
        byte_len(s.take(i)) < byte_len(s.take(j)),
    decreases j - i,
{
    assert(s.take(j) =~= s.take(j - 1).push(s[j - 1]));
    lemma_byte_len_push(s.take(j - 1), s[j - 1]);
    lemma_char_len_bounds(s[j - 1]);
    if i < j - 1 {
        lemma_prefix_bytes_increase(s, i, j - 1);
    }
}

pub proof fn lemma_prefix_bytes_le(s: Seq<char>, i: int)
    requires
        0 <= i <= s.len(),
    ensures
        byte_len(s.take(i)) <= byte_len(s),
{
    if i < s.len() {
        lemma_prefix_bytes_increase(s, i, s.len() as int);
    }
    assert(s.take(s.len() as int) =~= s);
}

/// `cursor` is the byte offset of the boundary before character `col` of `s`.
pub open spec fn is_boundary(s: Seq<char>, cursor: int, col: int) -> bool {
    0 <= col <= s.len() && byte_len(s.take(col)) == cursor
}

/// The character index of a byte offset that lies on a character boundary.
pub open spec fn col_of(s: Seq<char>, cursor: int) -> int {
    choose|col: int| is_boundary(s, cursor, col)
}

pub proof fn lemma_col_of(s: Seq<char>, col: int)
    requires
        0 <= col <= s.len(),
    ensures
        col_of(s, byte_len(s.take(col)) as int) == col,
{
    let b = byte_len(s.take(col)) as int;
    assert(is_boundary(s, b, col));
    let c = col_of(s, b);
    if c < col {
        lemma_prefix_bytes_increase(s, c, col);
    } else if c > col {
        lemma_prefix_bytes_increase(s, col, c);
    }
}

/// Number of line breaks in `s`.
pub open spec fn count_newlines(s: Seq<char>) -> nat
    decreases s.len(),
{
    if s.len() == 0 {
        0
    } else {
        count_newlines(s.drop_last()) + if s.last() == '\n' {
            1nat
        } else {
            0nat
        }
    }
}

/// Position just after the last line break of `s` (0 when there is none).
pub open spec fn last_line_start(s: Seq<char>) -> nat
    decreases s.len(),
{
    if s.len() == 0 {
        0
    } else if s.last() == '\n' {
        s.len()
    } else {
        last_line_start(s.drop_last())
    }
}

/// The lines of `s`, split at each line break (`str::split('\n')`).
pub open spec fn lines(s: Seq<char>) -> Seq<Seq<char>>
    decreases s.len(),
{
    if s.len() == 0 {
        seq![Seq::empty()]
    } else if s.last() == '\n' {
        lines(s.drop_last()).push(Seq::empty())
    } else {
        let ls = lines(s.drop_last());
        ls.update(ls.len() - 1, ls.last().push(s.last()))
    }
}

/// Where line `k` of `s` begins: just after its `k`-th line break.
pub open spec fn line_start(s: Seq<char>, k: int) -> int
    decreases s.len(),
{
    if k <= 0 || s.len() == 0 {
        0
    } else if s.last() == '\n' && count_newlines(s.drop_last()) == k - 1 {
        s.len() as int
    } else {
        line_start(s.drop_last(), k)
    }
}

/// `t` up to (not including) its first line break.
pub open spec fn first_line(t: Seq<char>) -> Seq<char>
    decreases t.len(),
{
    if t.len() == 0 || t[0] == '\n' {
        Seq::empty()
    } else {
        seq![t[0]] + first_line(t.drop_first())
    }
}

/// The text of line `k` of `s` (lines are separated by line breaks).
pub open spec fn line_text(s: Seq<char>, k: int) -> Seq<char> {
    first_line(s.skip(line_start(s, k)))
}

/// The character position a vertical move lands on: column `col` of line
/// `line`, or the end of that line when it is shorter.
pub open spec fn line_col_position(s: Seq<char>, line: int, col: int) -> int {
    let len = line_text(s, line).len() as int;
    line_start(s, line) + if col < len {
        col
    } else {
        len
    }
}

/// The line and column of character position `col` of `s`.
pub open spec fn line_col_of(s: Seq<char>, col: int) -> (int, int) {
    (count_newlines(s.take(col)) as int, col - last_line_start(s.take(col)))
}

proof fn lemma_count_take_step(s: Seq<char>, i: int)
    requires
        0 <= i < s.len(),
    ensures
        count_newlines(s.take(i + 1)) == count_newlines(s.take(i)) + if s[i] == '\n' {
            1nat
        } else {
            0nat
        },
        last_line_start(s.take(i + 1)) == if s[i] == '\n' {
            (i + 1) as nat
        } else {
            last_line_start(s.take(i))
        },
{
    assert(s.take(i + 1).drop_last() =~= s.take(i));
    assert(s.take(i + 1).last() == s[i]);
}

pub proof fn lemma_count_prefix_le(s: Seq<char>, i: int, j: int)
    requires
        0 <= i <= j <= s.len(),
    ensures
        count_newlines(s.take(i)) <= count_newlines(s.take(j)),
    decreases j - i,
{
    if i < j {
        lemma_count_take_step(s, j - 1);
        lemma_count_prefix_le(s, i, j - 1);
    }
}

proof fn lemma_line_start_take_step(s: Seq<char>, i: int, k: int)
    requires
        0 <= i < s.len(),
        k > 0,
    ensures
        line_start(s.take(i + 1), k) == if s[i] == '\n' && count_newlines(s.take(i)) == k - 1 {
            i + 1
        } else {
            line_start(s.take(i), k)
        },
{
    assert(s.take(i + 1).drop_last() =~= s.take(i));
    assert(s.take(i + 1).last() == s[i]);
}

/// Once the `k`-th line break is in a prefix, longer prefixes agree on where
/// line `k` starts.
proof fn lemma_line_start_stable(s: Seq<char>, p: int, k: int)
    requires
        0 <= p <= s.len(),
        count_newlines(s.take(p)) >= k,
    ensures
        line_start(s, k) == line_start(s.take(p), k),
    decreases s.len() - p,
{
    if p < s.len() {
        if k > 0 {
            lemma_line_start_take_step(s, s.len() - 1, k);
            lemma_count_prefix_le(s, p, s.len() - 1);
            assert(s.take(s.len() as int) =~= s);
            let t = s.take(s.len() - 1);
            assert(t.take(p) =~= s.take(p));
            lemma_line_start_stable(t, p, k);
        } else {
            assert(line_start(s, k) == 0);
        }
    } else {
        assert(s.take(p) =~= s);
    }
}

/// A text field: its contents and a cursor, a byte offset that lies on a
/// character boundary of the contents.
#[derive(Debug, Clone)]
pub struct TextInput {
    pub value: String,
    pub cursor: usize,
}

impl View for TextInput {
    /// The characters and the cursor's character position.
    type V = (Seq<char>, int);

    open spec fn view(&self) -> (Seq<char>, int) {
        (self.value@, col_of(self.value@, self.cursor as int))
    }
}

proof fn lemma_line_start_le(s: Seq<char>, k: int)
    ensures
        0 <= line_start(s, k) <= s.len(),
    decreases s.len(),
{
    if k > 0 && s.len() > 0 {
        lemma_line_start_le(s.drop_last(), k);
    }
}

proof fn lemma_count_le_len(s: Seq<char>)
    ensures
        count_newlines(s) <= s.len(),
    decreases s.len(),
{
    if s.len() > 0 {
        lemma_count_le_len(s.drop_last());
    }
}

proof fn lemma_first_line_step(s: Seq<char>, st: int, j: int)
    requires
        0 <= st <= j < s.len(),
        s[j] != '\n',
        first_line(s.skip(st)) == s.subrange(st, j) + first_line(s.skip(j)),
    ensures
        first_line(s.skip(st)) == s.subrange(st, j + 1) + first_line(s.skip(j + 1)),
{
    let t = s.skip(j);
    assert(t[0] == s[j]);
    assert(t.drop_first() =~= s.skip(j + 1));
    assert(first_line(t) == seq![s[j]] + first_line(s.skip(j + 1)));
    assert(s.subrange(st, j) + (seq![s[j]] + first_line(s.skip(j + 1))) =~= s.subrange(st, j + 1)
        + first_line(s.skip(j + 1)));
}

proof fn lemma_first_line_prefix(t: Seq<char>)
    ensures
        first_line(t).len() <= t.len(),
        first_line(t) =~= t.take(first_line(t).len() as int),
    decreases t.len(),
{
    if t.len() > 0 && t[0] != '\n' {
        lemma_first_line_prefix(t.drop_first());
        let r = first_line(t.drop_first());
        assert(t.take(r.len() + 1 as int) =~= seq![t[0]] + t.drop_first().take(r.len() as int));
    }
}

/// The UTF-8 length of a character.
fn utf8_len(c: char) -> (n: usize)
    ensures
        n == char_len(c),
        1 <= n <= 4,
{
    proof {
        vstd::utf8::char_is_scalar(c);
        lemma_char_len_bounds(c);
    }
    let u = c as u32;
    if u <= 0x7F {
        1
    } else if u <= 0x7FF {
        2
    } else if u <= 0xFFFF {
        3
    } else {
        4
    }
}

/// The byte offset of character position `k` of `cs`.
fn prefix_bytes(cs: &Vec<char>, k: usize) -> (n: usize)
    requires
        k <= cs.len(),
        byte_len(cs@) <= usize::MAX,
    ensures
        n == byte_len(cs@.take(k as int)),
{
    let mut acc: usize = 0;
    let mut i: usize = 0;
    assert(cs@.take(0) =~= Seq::<char>::empty());
    assert(encode_utf8(Seq::<char>::empty()) =~= Seq::<u8>::empty());
    while i < k
        invariant
            i <= k <= cs.len(),
            byte_len(cs@) <= usize::MAX,
            acc == byte_len(cs@.take(i as int)),
        decreases k - i,
    {
        proof {
            assert(cs@.take(i + 1) =~= cs@.take(i as int).push(cs@[i as int]));
            lemma_byte_len_push(cs@.take(i as int), cs@[i as int]);
            lemma_prefix_bytes_le(cs@, i + 1);
        }
        acc = acc + utf8_len(cs[i]);
        i += 1;
    }
    acc
}

/// Where line `k` of `cs` starts.
fn line_start_at(cs: &Vec<char>, k: usize) -> (p: usize)
    ensures
        p == line_start(cs@, k as int),
        p <= cs.len(),
{
    proof {
        lemma_line_start_le(cs@, k as int);
    }
    if k == 0 {
        return 0;
    }
    let mut nl: usize = 0;
    let mut i: usize = 0;
    assert(cs@.take(0) =~= Seq::<char>::empty());
    while i < cs.len()
        invariant
            i <= cs.len(),
            k > 0,
            nl < k,
            count_newlines(cs@.take(i as int)) == nl,
            line_start(cs@.take(i as int), k as int) == 0,
        decreases cs.len() - i,
    {
        proof {
            lemma_count_take_step(cs@, i as int);
            lemma_line_start_take_step(cs@, i as int, k as int);
        }
        if cs[i] == '\n' {
            if nl + 1 == k {
                proof {
                    lemma_line_start_stable(cs@, i + 1, k as int);
                }
                return i + 1;
            }
            nl += 1;
        }
        i += 1;
    }
    assert(cs@.take(i as int) =~= cs@);
    0
}

/// The length of line `k` of `cs`, which starts at `st`.
fn line_len_from(cs: &Vec<char>, st: usize) -> (n: usize)
    requires
        st <= cs.len(),
    ensures
        n == first_line(cs@.skip(st as int)).len(),
        st + n <= cs.len(),
{
    let mut j: usize = st;
    assert(cs@.subrange(st as int, st as int) =~= Seq::<char>::empty());
    assert(first_line(cs@.skip(st as int)) =~= cs@.subrange(st as int, st as int) + first_line(
        cs@.skip(st as int),
    ));
    while j < cs.len() && cs[j] != '\n'
        invariant
            st <= j <= cs.len(),
            first_line(cs@.skip(st as int)) == cs@.subrange(st as int, j as int) + first_line(
                cs@.skip(j as int),
            ),
        decreases cs.len() - j,
    {
        proof {
            lemma_first_line_step(cs@, st as int, j as int);
        }
        j += 1;
    }
    proof {
        if j < cs.len() {
            assert(cs@.skip(j as int)[0] == cs@[j as int]);
        } else {
            assert(cs@.skip(j as int).len() == 0);
        }
        assert(first_line(cs@.skip(j as int)) =~= Seq::<char>::empty());
        assert(first_line(cs@.skip(st as int)) =~= cs@.subrange(st as int, j as int));
    }
    j - st
}

/// The line and column of character position `col` of `cs`.
fn line_col_at(cs: &Vec<char>, col: usize) -> (r: (usize, usize))
    requires
        col <= cs.len(),
    ensures
        (r.0 as int, r.1 as int) == line_col_of(cs@, col as int),
{
    let mut line: usize = 0;
    let mut start: usize = 0;
    let mut i: usize = 0;
    assert(cs@.take(0) =~= Seq::<char>::empty());
    while i < col
        invariant
            i <= col <= cs.len(),
            start <= i,
            line <= i,
            count_newlines(cs@.take(i as int)) == line,
            last_line_start(cs@.take(i as int)) == start,
        decreases col - i,
    {
        proof {
            lemma_count_take_step(cs@, i as int);
        }
        if cs[i] == '\n' {
            line += 1;
            start = i + 1;
        }
        i += 1;
    }
    (line, col - start)
}

/// The character position for column `col` of line `line` (or the end of a
/// shorter line).
fn position_for(cs: &Vec<char>, line: usize, col: usize) -> (p: usize)
    ensures
        p == line_col_position(cs@, line as int, col as int),
        p <= cs.len(),
{
    let st = line_start_at(cs, line);
    let len = line_len_from(cs, st);
    if col < len {
        st + col
    } else {
        st + len
    }
}

impl TextInput {
    /// The cursor lies on a character boundary of the contents.
    pub open spec fn wf(&self) -> bool {
        exists|col: int| is_boundary(self.value@, self.cursor as int, col)
    }

    /// A field holding `value`, with the cursor at its end.
    pub fn new(value: String) -> (t: Self)
        ensures
            t.wf(),
            t@ == (value@, value@.len() as int),
    {
        let cursor = byte_length(value.as_str());
        proof {
            assert(value@.take(value@.len() as int) =~= value@);
            assert(is_boundary(value@, cursor as int, value@.len() as int));
            lemma_col_of(value@, value@.len() as int);
        }
        let t = TextInput { value, cursor };
        assert(is_boundary(t.value@, t.cursor as int, t.value@.len() as int));
        t
    }

    /// The cursor's character position, found by walking the contents.
    fn col(&self, cs: &Vec<char>) -> (c: usize)
        requires
            self.wf(),
            cs@ == self.value@,
        ensures
            c == self@.1,
            c <= cs.len(),
            byte_len(cs@) <= usize::MAX,
    {
        // The contents fit in memory, so their length in bytes fits in a usize.
        let _bytes = byte_length(self.value.as_str());
        let ghost target = col_of(self.value@, self.cursor as int);
        proof {
            lemma_col_of(cs@, target);
            lemma_prefix_bytes_le(cs@, target);
        }
        let mut acc: usize = 0;
        let mut i: usize = 0;
        assert(cs@.take(0) =~= Seq::<char>::empty());
        assert(encode_utf8(Seq::<char>::empty()) =~= Seq::<u8>::empty());
        while acc < self.cursor
            invariant
                i <= target <= cs.len(),
                is_boundary(cs@, self.cursor as int, target),
                acc == byte_len(cs@.take(i as int)),
            decreases target - i,
        {
            proof {
                if i == target {
                    assert(false);
                }
                assert(cs@.take(i + 1) =~= cs@.take(i as int).push(cs@[i as int]));
                lemma_byte_len_push(cs@.take(i as int), cs@[i as int]);
                if i + 1 < target {
                    lemma_prefix_bytes_increase(cs@, i + 1, target);
                }
            }
            acc = acc + utf8_len(cs[i]);
            i += 1;
        }
        proof {
            if i < target {
                lemma_prefix_bytes_increase(cs@, i as int, target);
            }
        }
        i
    }

    /// Replaces the contents by `cs` with the cursor at character `col`.
    fn store(&mut self, cs: &Vec<char>, col: usize)
        requires
            col <= cs.len(),
            byte_len(cs@) <= usize::MAX,
        ensures
            final(self).wf(),
            final(self)@ == (cs@, col as int),
    {
        let cursor = prefix_bytes(cs, col);
        self.value = string_of(cs);
        self.cursor = cursor;
        proof {
            assert(is_boundary(cs@, cursor as int, col as int));
            lemma_col_of(cs@, col as int);
            assert(is_boundary(self.value@, self.cursor as int, col as int));
        }
    }

    /// Inserts `ch` at the cursor and moves the cursor past it.
    pub fn insert(&mut self, ch: char)
        requires
            old(self).wf(),
            byte_len(old(self)@.0) + char_len(ch) <= usize::MAX,
        ensures
            final(self).wf(),
            final(self)@ == (old(self)@.0.insert(old(self)@.1, ch), old(self)@.1 + 1),
    {
        let mut cs = chars_of(self.value.as_str());
        let col = self.col(&cs);
        cs.insert(col, ch);
        proof {
            let old_s = old(self)@.0;
            assert(cs@ =~= old_s.take(col as int).push(ch) + old_s.skip(col as int));
            assert(old_s =~= old_s.take(col as int) + old_s.skip(col as int));
            lemma_byte_len_add(old_s.take(col as int).push(ch), old_s.skip(col as int));
            lemma_byte_len_add(old_s.take(col as int), old_s.skip(col as int));
            lemma_byte_len_push(old_s.take(col as int), ch);
        }
        self.store(&cs, col + 1);
    }

    /// Deletes the character before the cursor, if any.
    pub fn backspace(&mut self)
        requires
            old(self).wf(),
        ensures
            final(self).wf(),
            old(self)@.1 == 0 ==> *final(self) == *old(self),
            old(self)@.1 > 0 ==> final(self)@ == (
                old(self)@.0.remove(old(self)@.1 - 1),
                old(self)@.1 - 1,
            ),
    {
        let mut cs = chars_of(self.value.as_str());
        let col = self.col(&cs);
        if col == 0 {
            return;
        }
        let total = byte_length(self.value.as_str());
        cs.remove(col - 1);
        proof {
            let old_s = old(self)@.0;
            assert(old_s =~= cs@.take(col - 1).push(old_s[col - 1]) + cs@.skip(col - 1));
            assert(cs@ =~= cs@.take(col - 1) + cs@.skip(col - 1));
            lemma_byte_len_add(cs@.take(col - 1).push(old_s[col - 1]), cs@.skip(col - 1));
            lemma_byte_len_add(cs@.take(col - 1), cs@.skip(col - 1));
            lemma_byte_len_push(cs@.take(col - 1), old_s[col - 1]);
        }
        self.store(&cs, col - 1);
    }

    /// Moves the cursor one character left, if it can.
    pub fn move_left(&mut self)
        requires
            old(self).wf(),
        ensures
            final(self).wf(),
            final(self)@ == (old(self)@.0, if old(self)@.1 > 0 {
                old(self)@.1 - 1
            } else {
                0
            }),
    {
        let cs = chars_of(self.value.as_str());
        let col = self.col(&cs);
        if col == 0 {
            return;
        }
        proof {
            lemma_prefix_bytes_le(cs@, col - 1);
        }
        let cursor = prefix_bytes(&cs, col - 1);
        self.cursor = cursor;
        proof {
            assert(is_boundary(cs@, cursor as int, col - 1));
            lemma_col_of(cs@, col - 1);
            assert(is_boundary(self.value@, self.cursor as int, col - 1));
        }
    }

    /// Moves the cursor one character right, if it can.
    pub fn move_right(&mut self)
        requires
            old(self).wf(),
        ensures
            final(self).wf(),
            final(self)@ == (old(self)@.0, if old(self)@.1 < old(self)@.0.len() {
                old(self)@.1 + 1
            } else {
                old(self)@.1
            }),
    {
        let cs = chars_of(self.value.as_str());
        let col = self.col(&cs);
        if col >= cs.len() {
            return;
        }
        proof {
            lemma_prefix_bytes_le(cs@, col + 1);
        }
        let cursor = prefix_bytes(&cs, col + 1);
        self.cursor = cursor;
        proof {
            assert(is_boundary(cs@, cursor as int, col + 1));
            lemma_col_of(cs@, col + 1);
            assert(is_boundary(self.value@, self.cursor as int, col + 1));
        }
    }

    /// The cursor's position in characters.
    pub fn cursor_col(&self) -> (c: usize)
        requires
            self.wf(),
        ensures
            c == self@.1,
    {
        let cs = chars_of(self.value.as_str());
        self.col(&cs)
    }

    /// Inserts a line break at the cursor.
    pub fn insert_newline(&mut self)
        requires
            old(self).wf(),
            byte_len(old(self)@.0) + 1 <= usize::MAX,
        ensures
            final(self).wf(),
            final(self)@ == (old(self)@.0.insert(old(self)@.1, '\n'), old(self)@.1 + 1),
    {
        proof {
            assert(char_len('\n') == 1) by {
                assert(encode_scalar('\n' as u32).len() == 1);
            }
        }
        self.insert('\n');
    }

    /// The cursor's line and column (columns count characters).
    pub fn cursor_line_col(&self) -> (r: (usize, usize))
        requires
            self.wf(),
        ensures
            (r.0 as int, r.1 as int) == line_col_of(self@.0, self@.1),
    {
        let cs = chars_of(self.value.as_str());
        let col = self.col(&cs);
        line_col_at(&cs, col)
    }

    /// The number of lines: one more than the number of line breaks.
    pub fn line_count(&self) -> (n: usize)
        requires
            self@.0.len() < usize::MAX,
        ensures
            n == count_newlines(self@.0) + 1,
    {
        let cs = chars_of(self.value.as_str());
        let mut n: usize = 0;
        let mut i: usize = 0;
        assert(cs@.take(0) =~= Seq::<char>::empty());
        while i < cs.len()
            invariant
                i <= cs.len(),
                cs.len() < usize::MAX,
                n <= i,
                count_newlines(cs@.take(i as int)) == n,
            decreases cs.len() - i,
        {
            proof {
                lemma_count_take_step(cs@, i as int);
            }
            if cs[i] == '\n' {
                n += 1;
            }
            i += 1;
        }
        assert(cs@.take(i as int) =~= cs@);
        n + 1
    }

    /// The text of line `line_index`, or an empty string past the last line.
    pub fn line_at(&self, line_index: usize) -> (r: String)
        ensures
            r@ == if line_index <= count_newlines(self@.0) {
                line_text(self@.0, line_index as int)
            } else {
                Seq::empty()
            },
    {
        let cs = chars_of(self.value.as_str());
        let mut n: usize = 0;
        let mut i: usize = 0;
        assert(cs@.take(0) =~= Seq::<char>::empty());
        while i < cs.len()
            invariant
                i <= cs.len(),
                n <= i,
                count_newlines(cs@.take(i as int)) == n,
            decreases cs.len() - i,
        {
            proof {
                lemma_count_take_step(cs@, i as int);
            }
            if cs[i] == '\n' {
                n += 1;
            }
            i += 1;
        }
        assert(cs@.take(i as int) =~= cs@);
        if line_index > n {
            return String::new();
        }
        let st = line_start_at(&cs, line_index);
        let len = line_len_from(&cs, st);
        let mut out: Vec<char> = Vec::new();
        let mut k: usize = st;
        while k < st + len
            invariant
                st <= k <= st + len,
                st + len <= cs.len(),
                out@ == cs@.subrange(st as int, k as int),
            decreases st + len - k,
        {
            out.push(cs[k]);
            assert(cs@.subrange(st as int, k + 1) =~= cs@.subrange(st as int, k as int).push(
                cs@[k as int],
            ));
            k += 1;
        }
        proof {
            let fl = first_line(cs@.skip(st as int));
            assert(fl.len() == len);
            lemma_first_line_prefix(cs@.skip(st as int));
            assert(out@ =~= fl);
        }
        string_of(&out)
    }

    /// Moves the cursor to the same column of the line above (or the end of
    /// that line when it is shorter); does nothing on the first line.
    pub fn move_up(&mut self)
        requires
            old(self).wf(),
        ensures
            final(self).wf(),
            final(self)@.0 == old(self)@.0,
            ({
                let (line, col) = line_col_of(old(self)@.0, old(self)@.1);
                final(self)@.1 == if line == 0 {
                    old(self)@.1
                } else {
                    line_col_position(old(self)@.0, line - 1, col)
                }
            }),
    {
        let cs = chars_of(self.value.as_str());
        let col = self.col(&cs);
        let (line, c) = line_col_at(&cs, col);
        if line == 0 {
            return;
        }
        let p = position_for(&cs, line - 1, c);
        let cursor = prefix_bytes(&cs, p);
        self.cursor = cursor;
        proof {
            assert(is_boundary(cs@, cursor as int, p as int));
            lemma_col_of(cs@, p as int);
            assert(is_boundary(self.value@, self.cursor as int, p as int));
        }
    }

    /// Moves the cursor to the same column of the line below (or the end of
    /// that line when it is shorter); does nothing on the last line.
    pub fn move_down(&mut self)
        requires
            old(self).wf(),
        ensures
            final(self).wf(),
            final(self)@.0 == old(self)@.0,
            ({
                let (line, col) = line_col_of(old(self)@.0, old(self)@.1);
                final(self)@.1 == if line + 1 >= count_newlines(old(self)@.0) + 1 {
                    old(self)@.1
                } else {
                    line_col_position(old(self)@.0, line + 1, col)
                }
            }),
    {
        let cs = chars_of(self.value.as_str());
        let col = self.col(&cs);
        let (line, c) = line_col_at(&cs, col);
        let mut n: usize = 0;
        let mut i: usize = 0;
        assert(cs@.take(0) =~= Seq::<char>::empty());
        while i < cs.len()
            invariant
                i <= cs.len(),
                n <= i,
                count_newlines(cs@.take(i as int)) == n,
            decreases cs.len() - i,
        {
            proof {
                lemma_count_take_step(cs@, i as int);
            }
            if cs[i] == '\n' {
                n += 1;
            }
            i += 1;
        }
        assert(cs@.take(i as int) =~= cs@);
        if line >= n {
            return;
        }
        let p = position_for(&cs, line + 1, c);
        let cursor = prefix_bytes(&cs, p);
        self.cursor = cursor;
        proof {
            assert(is_boundary(cs@, cursor as int, p as int));
            lemma_col_of(cs@, p as int);
            assert(is_boundary(self.value@, self.cursor as int, p as int));
        }
    }
}

} // verus!
