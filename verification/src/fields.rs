//! What part of a text field is shown in a given width, and where its
//! cursor appears.
use vstd::prelude::*;
use crate::app::joined_lines;
use crate::geometry::{sat_sub, Rect};
use crate::input::{
    byte_len, char_len, count_newlines, line_col_of, line_text, TextInput,
};
use crate::text::{chars_of, string_of};
use crate::ui::fits;

verus! {

/// The ellipsis put where text is cut.
pub open spec fn ellipsis() -> char {
    '\u{2026}'
}

/// `v` cut to `width` characters, its last shown character replaced by an
/// ellipsis when it is cut.
pub open spec fn truncated(v: Seq<char>, width: int) -> Seq<char> {
    if v.len() == 0 || width == 0 {
        Seq::empty()
    } else if v.len() <= width {
        v
    } else {
        v.take(width - 1).push(ellipsis())
    }
}

/// `value` cut to `width` characters (see [`truncated`]).
pub fn truncate(value: &str, width: usize) -> (r: String)
    ensures
        r@ == truncated(value@, width as int),
{
    let cs = chars_of(value);
    if cs.len() == 0 || width == 0 {
        return String::new();
    }
    if cs.len() <= width {
        return string_of(&cs);
    }
    let mut out: Vec<char> = Vec::new();
    let mut i: usize = 0;
    while i < width - 1
        invariant
            i <= width - 1,
            width - 1 < cs.len(),
            out@ == cs@.take(i as int),
        decreases width - 1 - i,
    {
        out.push(cs[i]);
        assert(cs@.take(i + 1) =~= cs@.take(i as int).push(cs@[i as int]));
        i += 1;
    }
    out.push('\u{2026}');
    string_of(&out)
}

/// The first character shown of a `len`-character text `width` wide with
/// the cursor at `cursor`: the window ends at the cursor, but never runs
/// past the end of the text.
pub open spec fn slice_start(len: int, cursor: int, width: int) -> int {
    let s = sat_sub(cursor, width - 1);
    if s + width > len {
        len - width
    } else {
        s
    }
}

/// What a `width`-character window shows of `v` with the cursor at
/// `cursor`: all of `v` when it fits, else a window around the cursor whose
/// first (last) character becomes an ellipsis when text is hidden before
/// (after) it.
pub open spec fn visible(v: Seq<char>, cursor: int, width: int) -> Seq<char> {
    if width == 0 {
        Seq::empty()
    } else if v.len() <= width {
        v
    } else {
        let st = slice_start(v.len() as int, cursor, width);
        let en = if st + width < v.len() {
            st + width
        } else {
            v.len() as int
        };
        let r = v.subrange(st, en);
        let r1 = if st > 0 {
            r.update(0, ellipsis())
        } else {
            r
        };
        if en < v.len() {
            r1.update(r1.len() - 1, ellipsis())
        } else {
            r1
        }
    }
}

/// Building the window fails: the ellipsis goes over the window's first
/// character by its first byte, which is not a whole character when that
/// character takes more than one byte.
pub open spec fn slice_panics(v: Seq<char>, cursor: int, width: int) -> bool {
    width > 0 && v.len() > width && slice_start(v.len() as int, cursor, width) > 0 && char_len(
        v[slice_start(v.len() as int, cursor, width)],
    ) != 1
}

fn start_of(len: usize, cursor: usize, width: usize) -> (s: usize)
    requires
        0 < width < len,
    ensures
        s == slice_start(len as int, cursor as int, width as int),
        s + width <= len,
{
    let s = if cursor > width - 1 {
        cursor - (width - 1)
    } else {
        0
    };
    if s > len - width {
        len - width
    } else {
        s
    }
}

fn one_byte(c: char) -> (b: bool)
    ensures
        b == (char_len(c) == 1),
{
    proof {
        vstd::utf8::char_is_scalar(c);
    }
    (c as u32) < 0x80
}

/// Whether building the window of `value` fails (see [`slice_panics`]).
pub fn visible_slice_panics(value: &str, cursor_col: usize, width: usize) -> (b: bool)
    ensures
        b == slice_panics(value@, cursor_col as int, width as int),
{
    let cs = chars_of(value);
    if width == 0 || cs.len() <= width {
        return false;
    }
    let st = start_of(cs.len(), cursor_col, width);
    st > 0 && !one_byte(cs[st])
}

/// What a `width`-character window shows of `value` (see [`visible`]).
pub fn visible_slice(value: &str, cursor_col: usize, width: usize) -> (r: String)
    requires
        !slice_panics(value@, cursor_col as int, width as int),
    ensures
        r@ == visible(value@, cursor_col as int, width as int),
{
    let cs = chars_of(value);
    if width == 0 {
        return String::new();
    }
    if cs.len() <= width {
        return string_of(&cs);
    }
    let st = start_of(cs.len(), cursor_col, width);
    let en = st + width;
    let mut out: Vec<char> = Vec::new();
    let mut i: usize = st;
    while i < en
        invariant
            st <= i <= en,
            en <= cs.len(),
            out@ == cs@.subrange(st as int, i as int),
        decreases en - i,
    {
        out.push(cs[i]);
        assert(cs@.subrange(st as int, i + 1) =~= cs@.subrange(st as int, i as int).push(
            cs@[i as int],
        ));
        i += 1;
    }
    if st > 0 {
        out.set(0, '\u{2026}');
    }
    if en < cs.len() {
        let last = out.len() - 1;
        out.set(last, '\u{2026}');
    }
    string_of(&out)
}

/// The column at which the cursor shows in a `width`-character window over
/// a `total`-character text.
pub open spec fn cursor_x(total: int, cursor: int, width: int) -> int {
    if width == 0 {
        0
    } else if total <= width {
        if cursor < width - 1 {
            cursor
        } else {
            width - 1
        }
    } else {
        let v = sat_sub(cursor, slice_start(total, cursor, width));
        if v < width - 1 {
            v
        } else {
            width - 1
        }
    }
}

fn cursor_x_of(total: usize, cursor: usize, width: usize) -> (x: usize)
    ensures
        x == cursor_x(total as int, cursor as int, width as int),
{
    if width == 0 {
        return 0;
    }
    if total <= width {
        return if cursor < width - 1 {
            cursor
        } else {
            width - 1
        };
    }
    let st = start_of(total, cursor, width);
    let v = if cursor > st {
        cursor - st
    } else {
        0
    };
    if v < width - 1 {
        v
    } else {
        width - 1
    }
}

/// The column at which a field's cursor shows in a `width`-wide window.
pub fn input_cursor_x(input: &TextInput, width: usize) -> (x: usize)
    requires
        input.wf(),
    ensures
        x == cursor_x(input@.0.len() as int, input@.1, width as int),
{
    let total = chars_of(input.value.as_str()).len();
    let cursor = input.cursor_col();
    cursor_x_of(total, cursor, width)
}

/// The column at which the cursor at `cursor_col` of `line` shows in a
/// `width`-wide window.
pub fn input_cursor_x_for_line(line: &str, cursor_col: usize, width: usize) -> (x: usize)
    ensures
        x == cursor_x(line@.len() as int, cursor_col as int, width as int),
{
    let total = chars_of(line).len();
    cursor_x_of(total, cursor_col, width)
}

/// The first line shown of a `total`-line text `height` lines high with the
/// cursor on line `cursor_line`.
pub open spec fn first_shown_line(total: int, cursor_line: int, height: int) -> int {
    let s = sat_sub(cursor_line, sat_sub(height, 1));
    if s + height > total {
        sat_sub(total, height)
    } else {
        s
    }
}

/// The rows a `width` by `height` view of a multi-line field shows: the
/// lines around the cursor line, each cut to the width (around the cursor on
/// the cursor's line), padded with empty rows.
pub open spec fn text_area_rows(t: (Seq<char>, int), width: int, height: int) -> Seq<Seq<char>> {
    let (cl, cc) = line_col_of(t.0, t.1);
    let total = (count_newlines(t.0) + 1) as int;
    let st = first_shown_line(total, cl, height);
    let en = if st + height < total {
        st + height
    } else {
        total
    };
    Seq::new(
        height as nat,
        |k: int|
            if st + k < en {
                visible(
                    line_text(t.0, st + k),
                    if st + k == cl {
                        cc
                    } else {
                        0
                    },
                    width,
                )
            } else {
                Seq::empty()
            },
    )
}

/// Row `k` of the view of a multi-line field cannot be built (see
/// [`slice_panics`]).
pub open spec fn row_panics(t: (Seq<char>, int), width: int, height: int, k: int) -> bool {
    let (cl, cc) = line_col_of(t.0, t.1);
    let total = (count_newlines(t.0) + 1) as int;
    let st = first_shown_line(total, cl, height);
    let col = if st + k == cl {
        cc
    } else {
        0
    };
    st + k < total && slice_panics(line_text(t.0, st + k), col, width)
}

/// Some row of the view of a multi-line field cannot be built.
pub open spec fn text_area_panics(t: (Seq<char>, int), width: int, height: int) -> bool {
    exists|k: int| 0 <= k < height && #[trigger] row_panics(t, width, height, k)
}

/// The text a `width` by `height` view of a multi-line field shows, rows
/// joined by line breaks.
pub fn visible_text_area(input: &TextInput, width: usize, height: usize) -> (r: String)
    requires
        input.wf(),
        input@.0.len() < usize::MAX,
        !text_area_panics(input@, width as int, height as int),
    ensures
        r@ == if width == 0 || height == 0 {
            Seq::empty()
        } else {
            joined_lines(text_area_rows(input@, width as int, height as int))
        },
{
    if width == 0 || height == 0 {
        return String::new();
    }
    let (cursor_line, cursor_col) = input.cursor_line_col();
    let total = input.line_count();
    let s0 = if cursor_line > height - 1 {
        cursor_line - (height - 1)
    } else {
        0
    };
    let st = if s0 > total || total - s0 < height {
        if total > height {
            total - height
        } else {
            0
        }
    } else {
        s0
    };
    let en = if st < total && total - st > height {
        st + height
    } else {
        total
    };
    let ghost rows = text_area_rows(input@, width as int, height as int);
    proof {
        assert(st == first_shown_line(total as int, cursor_line as int, height as int));
    }
    let mut out: Vec<char> = Vec::new();
    let mut k: usize = 0;
    while k < height
        invariant
            k <= height,
            height >= 1,
            st == first_shown_line(total as int, cursor_line as int, height as int),
            en == (if st + height < total {
                st + height
            } else {
                total as int
            }),
            total == count_newlines(input@.0) + 1,
            (cursor_line as int, cursor_col as int) == line_col_of(input@.0, input@.1),
            rows == text_area_rows(input@, width as int, height as int),
            !text_area_panics(input@, width as int, height as int),
            k > 0 ==> out@ == joined_lines(rows.take(k as int)),
            k == 0 ==> out@.len() == 0,
        decreases height - k,
    {
        let ghost row = rows[k as int];
        let line = if (st as u128) + (k as u128) < en as u128 {
            let idx = st + k;
            let text = input.line_at(idx);
            let col = if idx == cursor_line {
                cursor_col
            } else {
                0
            };
            proof {
                if slice_panics(text@, col as int, width as int) {
                    assert(row_panics(input@, width as int, height as int, k as int));
                }
            }
            visible_slice(text.as_str(), col, width)
        } else {
            String::new()
        };
        let lc = chars_of(line.as_str());
        assert(lc@ == row);
        if k > 0 {
            out.push('\n');
        }
        let ghost pre = out@;
        let mut j: usize = 0;
        while j < lc.len()
            invariant
                j <= lc.len(),
                out@ == pre + lc@.take(j as int),
            decreases lc.len() - j,
        {
            out.push(lc[j]);
            assert(lc@.take(j + 1) =~= lc@.take(j as int).push(lc@[j as int]));
            j += 1;
        }
        proof {
            assert(lc@.take(j as int) =~= lc@);
            let t = rows.take(k + 1);
            assert(t.drop_last() =~= rows.take(k as int));
            assert(t.last() == rows[k as int]);
            if k == 0 {
                assert(out@ =~= joined_lines(t));
            } else {
                assert(out@ =~= joined_lines(t));
            }
        }
        k += 1;
    }
    assert(rows.take(height as int) =~= rows);
    string_of(&out)
}

/// Where the cursor of a multi-line field shows inside its bordered `area`.
pub open spec fn text_area_cursor(area: Rect, t: (Seq<char>, int)) -> (int, int) {
    let width = sat_sub(area.width as int, 4);
    let height = sat_sub(area.height as int, 2);
    let (cl, cc) = line_col_of(t.0, t.1);
    let total = (count_newlines(t.0) + 1) as int;
    let st = first_shown_line(total, cl, height);
    let vl = sat_sub(cl, st);
    let visible_line = if vl < sat_sub(height, 1) {
        vl
    } else {
        sat_sub(height, 1)
    };
    let visible_col = cursor_x(line_text(t.0, cl).len() as int, cc, width);
    (area.x + 1 + visible_col, area.y + 1 + visible_line)
}

/// Where the cursor of a multi-line field shows inside its bordered `area`.
pub fn text_area_cursor_position(area: Rect, input: &TextInput) -> (r: (u16, u16))
    requires
        input.wf(),
        input@.0.len() < usize::MAX,
        fits(area),
        area.x < u16::MAX,
        area.y < u16::MAX,
    ensures
        (r.0 as int, r.1 as int) == text_area_cursor(area, input@),
{
    let width = area.width.saturating_sub(4) as usize;
    let height = area.height.saturating_sub(2) as usize;
    let (cursor_line, cursor_col) = input.cursor_line_col();
    let total = input.line_count();
    let hm1 = if height > 0 {
        height - 1
    } else {
        0
    };
    let s0 = if cursor_line > hm1 {
        cursor_line - hm1
    } else {
        0
    };
    let st = if s0 > total || total - s0 < height {
        if total > height {
            total - height
        } else {
            0
        }
    } else {
        s0
    };
    let vl = if cursor_line > st {
        cursor_line - st
    } else {
        0
    };
    let hmax = if height > 0 {
        height - 1
    } else {
        0
    };
    let visible_line = if vl < hmax {
        vl
    } else {
        hmax
    };
    proof {
        crate::input::lemma_count_prefix_le(input@.0, input@.1, input@.0.len() as int);
        assert(input@.0.take(input@.0.len() as int) =~= input@.0);
    }
    let line = input.line_at(cursor_line);
    let visible_col = input_cursor_x_for_line(line.as_str(), cursor_col, width);
    assert(line@ == line_text(input@.0, cursor_line as int));
    (area.x + 1 + visible_col as u16, area.y + 1 + visible_line as u16)
}

/// Whether some row of the view of a multi-line field cannot be built (see
/// [`text_area_panics`]).
pub fn text_area_fails(input: &TextInput, width: usize, height: usize) -> (b: bool)
    requires
        input.wf(),
        input@.0.len() < usize::MAX,
    ensures
        b == text_area_panics(input@, width as int, height as int),
{
    let (cursor_line, cursor_col) = input.cursor_line_col();
    let total = input.line_count();
    let hm1 = if height > 0 {
        height - 1
    } else {
        0
    };
    let s0 = if cursor_line > hm1 {
        cursor_line - hm1
    } else {
        0
    };
    let st = if s0 > total || total - s0 < height {
        if total > height {
            total - height
        } else {
            0
        }
    } else {
        s0
    };
    let mut k: usize = 0;
    while k < height
        invariant
            k <= height,
            st == first_shown_line(total as int, cursor_line as int, height as int),
            total == count_newlines(input@.0) + 1,
            (cursor_line as int, cursor_col as int) == line_col_of(input@.0, input@.1),
            forall|j: int| 0 <= j < k ==> !#[trigger] row_panics(input@, width as int, height as int, j),
        decreases height - k,
    {
        if (st as u128) + (k as u128) < total as u128 {
            let idx = st + k;
            let text = input.line_at(idx);
            let col = if idx == cursor_line {
                cursor_col
            } else {
                0
            };
            if visible_slice_panics(text.as_str(), col, width) {
                assert(row_panics(input@, width as int, height as int, k as int));
                return true;
            }
        }
        k += 1;
    }
    false
}

} // verus!
