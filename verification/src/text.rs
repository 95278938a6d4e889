//! Character-level string helpers shared by the rest of the crate.
use vstd::prelude::*;

verus! {

/// Appends one character to a string (std's `String::push`).
#[verifier::external_body]
pub(crate) fn push_char(s: &mut String, c: char)
    ensures
        final(s)@ == old(s)@.push(c),
{
    s.push(c)
}

/// The length of a string in bytes (std's `str::len`): the length of its
/// UTF-8 encoding.
#[verifier::external_body]
pub(crate) fn byte_length(s: &str) -> (n: usize)
    ensures
        n == vstd::utf8::encode_utf8(s@).len(),
{
    s.len()
}

/// The characters of a string slice, in order.
pub fn chars_of(s: &str) -> (v: Vec<char>)
    ensures
        v@ == s@,
{
    let mut v: Vec<char> = Vec::new();
    for c in it: s.chars()
        invariant
            v@ == it.seq().take(it.index() as int),
    {
        v.push(c);
    }
    v
}

/// A string made of the given characters.
pub fn string_of(cs: &Vec<char>) -> (s: String)
    ensures
        s@ == cs@,
{
    let mut s = String::new();
    let mut i: usize = 0;
    while i < cs.len()
        invariant
            i <= cs.len(),
            s@ == cs@.take(i as int),
        decreases cs.len() - i,
    {
        push_char(&mut s, cs[i]);
        assert(cs@.take(i as int).push(cs@[i as int]) =~= cs@.take(i + 1));
        i += 1;
    }
    assert(cs@.take(cs.len() as int) =~= cs@);
    s
}

/// Unicode `White_Space`: the characters that `char::is_whitespace`, `str::trim`
/// and a `\s` pattern treat as blank.
pub open spec fn is_ws(c: char) -> bool {
    let u = c as u32;
    ||| 0x9 <= u <= 0xD
    ||| u == 0x20
    ||| u == 0x85
    ||| u == 0xA0
    ||| u == 0x1680
    ||| 0x2000 <= u <= 0x200A
    ||| u == 0x2028
    ||| u == 0x2029
    ||| u == 0x202F
    ||| u == 0x205F
    ||| u == 0x3000
}

pub fn is_whitespace(c: char) -> (b: bool)
    ensures
        b == is_ws(c),
{
    let u = c as u32;
    (0x9 <= u && u <= 0xD) || u == 0x20 || u == 0x85 || u == 0xA0 || u == 0x1680 || (0x2000 <= u
        && u <= 0x200A) || u == 0x2028 || u == 0x2029 || u == 0x202F || u == 0x205F || u == 0x3000
}

/// `s` without its leading blanks.
pub open spec fn trim_start(s: Seq<char>) -> Seq<char>
    decreases s.len(),
{
    if s.len() > 0 && is_ws(s[0]) {
        trim_start(s.drop_first())
    } else {
        s
    }
}

/// `s` without its trailing blanks.
pub open spec fn trim_end(s: Seq<char>) -> Seq<char>
    decreases s.len(),
{
    if s.len() > 0 && is_ws(s.last()) {
        trim_end(s.drop_last())
    } else {
        s
    }
}

/// `s` without leading and trailing blanks, as `str::trim` gives it.
pub open spec fn trim(s: Seq<char>) -> Seq<char> {
    trim_end(trim_start(s))
}

/// Every character of `s` is blank.
pub open spec fn all_ws(s: Seq<char>) -> bool {
    forall|i: int| 0 <= i < s.len() ==> is_ws(#[trigger] s[i])
}

proof fn lemma_trim_start_skip(s: Seq<char>, i: int)
    requires
        0 <= i <= s.len(),
        all_ws(s.take(i)),
    ensures
        trim_start(s) == trim_start(s.skip(i)),
    decreases i,
{
    if i > 0 {
        assert(is_ws(s.take(i)[0]));
        assert(s.drop_first().take(i - 1) =~= s.take(i).drop_first());
        lemma_trim_start_skip(s.drop_first(), i - 1);
        assert(s.drop_first().skip(i - 1) =~= s.skip(i));
    } else {
        assert(s.skip(0) =~= s);
    }
}

proof fn lemma_trim_end_take(s: Seq<char>, j: int)
    requires
        0 <= j <= s.len(),
        all_ws(s.skip(j)),
    ensures
        trim_end(s) == trim_end(s.take(j)),
    decreases s.len() - j,
{
    if j < s.len() {
        assert(is_ws(s.skip(j)[s.len() - j - 1]));
        assert(s.drop_last().skip(j) =~= s.skip(j).drop_last());
        lemma_trim_end_take(s.drop_last(), j);
        assert(s.drop_last().take(j) =~= s.take(j));
    } else {
        assert(s.take(j) =~= s);
    }
}

pub proof fn lemma_trim_empty_iff_blank(s: Seq<char>)
    ensures
        trim(s).len() == 0 <==> all_ws(s),
        trim_start(s).len() == 0 <==> all_ws(s),
    decreases s.len(),
{
    if s.len() > 0 {
        lemma_trim_empty_iff_blank(s.drop_first());
        if is_ws(s[0]) {
            assert(all_ws(s) <==> all_ws(s.drop_first())) by {
                if all_ws(s.drop_first()) {
                    assert forall|i: int| 0 <= i < s.len() implies is_ws(#[trigger] s[i]) by {
                        if i > 0 {
                            assert(s[i] == s.drop_first()[i - 1]);
                        }
                    }
                }
                if all_ws(s) {
                    assert forall|i: int| 0 <= i < s.drop_first().len() implies is_ws(
                        #[trigger] s.drop_first()[i],
                    ) by {
                        assert(s.drop_first()[i] == s[i + 1]);
                    }
                }
            }
        } else {
            assert(!all_ws(s)) by {
                assert(!is_ws(s[0]));
            }
            assert(trim_start(s) == s);
            assert(trim_end(s).len() > 0) by {
                lemma_trim_end_keeps_first(s);
            }
        }
    }
}

proof fn lemma_trim_end_keeps_first(s: Seq<char>)
    requires
        s.len() > 0,
        !is_ws(s[0]),
    ensures
        trim_end(s).len() > 0,
    decreases s.len(),
{
    if is_ws(s.last()) {
        assert(s.len() > 1);
        assert(s.drop_last()[0] == s[0]);
        lemma_trim_end_keeps_first(s.drop_last());
    }
}

/// The characters of `s` without leading and trailing blanks.
pub fn trim_chars(s: &Vec<char>) -> (r: Vec<char>)
    ensures
        r@ == trim(s@),
{
    let mut lo: usize = 0;
    while lo < s.len() && is_whitespace(s[lo])
        invariant
            lo <= s.len(),
            all_ws(s@.take(lo as int)),
        decreases s.len() - lo,
    {
        assert(s@.take(lo + 1) =~= s@.take(lo as int).push(s@[lo as int]));
        lo += 1;
    }
    proof {
        lemma_trim_start_skip(s@, lo as int);
    }
    let ghost rest = s@.skip(lo as int);
    assert(lo == s.len() || !is_ws(rest[0]));
    assert(trim_start(s@) == rest);
    let mut hi: usize = s.len();
    while hi > lo && is_whitespace(s[hi - 1])
        invariant
            lo <= hi <= s.len(),
            all_ws(s@.skip(hi as int)),
        decreases hi,
    {
        assert(s@.skip(hi - 1) =~= seq![s@[hi - 1]] + s@.skip(hi as int));
        hi -= 1;
    }
    proof {
        assert(rest.skip(hi - lo) =~= s@.skip(hi as int));
        lemma_trim_end_take(rest, hi - lo);
        assert(rest.take(hi - lo) =~= s@.subrange(lo as int, hi as int));
        let t = rest.take(hi - lo);
        if t.len() > 0 {
            assert(t.last() == s@[hi - 1]);
        }
        assert(trim_end(t) == t);
    }
    let mut r: Vec<char> = Vec::new();
    let mut k: usize = lo;
    while k < hi
        invariant
            lo <= k <= hi,
            hi <= s.len(),
            r@ == s@.subrange(lo as int, k as int),
        decreases hi - k,
    {
        r.push(s[k]);
        assert(s@.subrange(lo as int, k + 1) =~= s@.subrange(lo as int, k as int).push(s@[k as int]));
        k += 1;
    }
    r
}

/// `str::trim` on a string.
pub fn trim_str(s: &str) -> (r: String)
    ensures
        r@ == trim(s@),
{
    let cs = chars_of(s);
    let t = trim_chars(&cs);
    string_of(&t)
}

/// `s.trim().is_empty()`.
pub fn is_blank(s: &str) -> (b: bool)
    ensures
        b == (trim(s@).len() == 0),
        b == all_ws(s@),
{
    let cs = chars_of(s);
    let t = trim_chars(&cs);
    proof {
        lemma_trim_empty_iff_blank(s@);
    }
    t.len() == 0
}

/// The decimal digit character for `d < 10`.
pub open spec fn digit_char(d: nat) -> char {
    ((48 + d) as u32) as char
}

/// `c` is one of `0`..`9`.
pub open spec fn is_digit(c: char) -> bool {
    48 <= (c as u32) <= 57
}

/// The value of a decimal digit character.
pub open spec fn digit_value(c: char) -> nat {
    ((c as u32) - 48) as nat
}

/// The decimal representation of `n`, without sign or leading zeros.
pub open spec fn decimal(n: nat) -> Seq<char>
    decreases n,
{
    if n < 10 {
        seq![digit_char(n)]
    } else {
        decimal(n / 10).push(digit_char(n % 10))
    }
}

/// The value of a sequence of decimal digits (0 for the empty sequence).
pub open spec fn digits_value(d: Seq<char>) -> nat
    decreases d.len(),
{
    if d.len() == 0 {
        0
    } else {
        digits_value(d.drop_last()) * 10 + digit_value(d.last())
    }
}

/// What the standard unsigned-integer parser accepts: an optional `+`
/// followed by one or more decimal digits (leading zeros allowed);
/// gives the value, before any range check.
pub open spec fn unsigned_literal(s: Seq<char>) -> Option<nat> {
    if literal_digits(s).len() > 0 && (forall|i: int|
        0 <= i < literal_digits(s).len() ==> is_digit(#[trigger] literal_digits(s)[i])) {
        Some(digits_value(literal_digits(s)))
    } else {
        None
    }
}

/// The digits part of an unsigned literal: `s` without one leading `+`.
pub open spec fn literal_digits(s: Seq<char>) -> Seq<char> {
    if s.len() > 0 && s[0] == '+' {
        s.drop_first()
    } else {
        s
    }
}

/// `n.to_string()` for an unsigned integer.
pub fn decimal_string(n: u64) -> (s: String)
    ensures
        s@ == decimal(n as nat),
{
    let mut rev: Vec<char> = Vec::new();
    let mut m: u64 = n;
    let ghost mut tail: Seq<char> = Seq::empty();
    loop
        invariant_except_break
            decimal(n as nat) == decimal(m as nat) + tail,
            rev@ == tail.reverse(),
        invariant
            m <= n,
        ensures
            decimal(n as nat) == tail,
            rev@ == tail.reverse(),
        decreases m,
    {
        let d = m % 10;
        let c = ((48u8 + d as u8) as char);
        assert(c == digit_char(d as nat)) by {
            assert((48u8 + d as u8) as u32 == 48 + d);
        }
        if m < 10 {
            rev.push(c);
            proof {
                assert(decimal(m as nat) == seq![c]);
                assert(decimal(n as nat) =~= seq![c] + tail);
                tail = seq![c] + tail;
                assert(rev@ =~= tail.reverse());
            }
            break;
        }
        rev.push(c);
        proof {
            assert(decimal(m as nat) == decimal((m / 10) as nat).push(c));
            assert(decimal((m / 10) as nat).push(c) + tail =~= decimal((m / 10) as nat) + (
            seq![c] + tail));
            tail = seq![c] + tail;
            assert(rev@ =~= tail.reverse());
        }
        m = m / 10;
    }
    assert(decimal(n as nat) =~= tail);
    let mut out: Vec<char> = Vec::new();
    let mut i: usize = rev.len();
    while i > 0
        invariant
            i <= rev.len(),
            rev@ == tail.reverse(),
            out@ == tail.take(rev.len() - i),
        decreases i,
    {
        i -= 1;
        out.push(rev[i]);
        assert(out@ =~= tail.take(rev.len() - i));
    }
    assert(out@ =~= tail);
    string_of(&out)
}

proof fn lemma_digits_value_push(d: Seq<char>, c: char)
    ensures
        digits_value(d.push(c)) == digits_value(d) * 10 + digit_value(c),
{
    assert(d.push(c).drop_last() =~= d);
}

/// The standard parser for an unsigned integer of at most `max`: `Some`
/// exactly when `unsigned_literal` accepts `s` and the value fits.
pub fn parse_unsigned(s: &Vec<char>, max: u64) -> (r: Option<u64>)
    ensures
        r matches Some(v) ==> unsigned_literal(s@) == Some(v as nat) && v <= max,
        r is None ==> (unsigned_literal(s@) is None || unsigned_literal(s@)->0 > max),
{
    let start: usize = if s.len() > 0 && s[0] == '+' { 1 } else { 0 };
    let ghost d = literal_digits(s@);
    assert(d =~= s@.skip(start as int));
    if start >= s.len() {
        return None;
    }
    let mut i: usize = start;
    let mut acc: u64 = 0;
    let mut overflow = false;
    while i < s.len()
        invariant
            start <= i <= s.len(),
            d == literal_digits(s@),
            d =~= s@.skip(start as int),
            forall|k: int| 0 <= k < i - start ==> is_digit(#[trigger] d[k]),
            !overflow ==> acc as nat == digits_value(d.take(i - start)) && acc <= max,
            overflow ==> digits_value(d.take(i - start)) > max,
        decreases s.len() - i,
    {
        let c = s[i];
        let u = c as u32;
        if u < 48 || u > 57 {
            assert(literal_digits(s@)[i - start] == c);
            assert(!is_digit(literal_digits(s@)[i - start]));
            assert(unsigned_literal(s@) is None);
            return None;
        }
        let dv = (u - 48) as u64;
        proof {
            assert(d.take(i + 1 - start) =~= d.take(i - start).push(c));
            lemma_digits_value_push(d.take(i - start), c);
            assert(digit_value(c) == dv);
        }
        if !overflow {
            let next: u128 = (acc as u128) * 10 + dv as u128;
            if next > max as u128 {
                overflow = true;
            } else {
                acc = next as u64;
            }
        } else {
            assert(digits_value(d.take(i - start)) * 10 + dv >= digits_value(d.take(i - start)))
                by (nonlinear_arith);
        }
        i += 1;
    }
    assert(d.take(i - start) =~= d);
    if overflow {
        None
    } else {
        Some(acc)
    }
}

/// Whether two strings hold the same characters.
pub fn same_text(a: &str, b: &str) -> (r: bool)
    ensures
        r == (a@ == b@),
{
    let x = chars_of(a);
    let y = chars_of(b);
    crate::order::compare_chars(&x, &y) == 0
}

/// `a` followed by `b`.
pub fn concat(a: &str, b: &str) -> (r: String)
    ensures
        r@ == a@ + b@,
{
    let mut out = chars_of(a);
    let bs = chars_of(b);
    let ghost pre = out@;
    let mut i: usize = 0;
    while i < bs.len()
        invariant
            i <= bs.len(),
            out@ == pre + bs@.take(i as int),
        decreases bs.len() - i,
    {
        out.push(bs[i]);
        assert(bs@.take(i + 1) =~= bs@.take(i as int).push(bs@[i as int]));
        i += 1;
    }
    assert(bs@.take(bs.len() as int) =~= bs@);
    string_of(&out)
}

} // verus!
