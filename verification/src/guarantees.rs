//! What the dashboard's operations are for, stated over all inputs: the
//! colours that escape codes name, what the rerun-all key and the delete
//! button do, how startup variables are filled in and which names they may
//! have.
use vstd::prelude::*;
use crate::actions::{hit, ActionId};
use crate::app::{AppView, Mode, PaneView, VarFieldView};
use crate::geometry::Rect;
use crate::keys::{as_signed, focus_target, grid_of, key_step, lemma_grid_of, KeyCode, KeyEvent, Reply};
use crate::mouse::{mouse_step, MouseEvent, MouseKind};
use crate::runner::{filled, replace_all};
use crate::ui::centered;
use crate::vars::{is_name_char, name_end, ref_at, render_from, valid_name, ws_end, SubstFailure};
use crate::names::{has_key, value_of};
use crate::ansi::{
    apply_codes, basic_color_of, code_effect, csi_end, flushed, parsed_codes, scan, sgr_codes,
    split_on, start_state, ParseState, Style,
};
use crate::text::{digits_value, unsigned_literal};
use crate::theme::Color;

verus! {

// ----- styled output -----

/// The eight standard terminal colours, in the order of their codes.
pub open spec fn standard_colors() -> Seq<Color> {
    seq![
        Color::Black,
        Color::Red,
        Color::Green,
        Color::Yellow,
        Color::Blue,
        Color::Magenta,
        Color::Cyan,
        Color::Gray,
    ]
}

/// Text that is shown as it is: no escape, carriage return, tab or line
/// break.
pub open spec fn plain_text(t: Seq<char>) -> bool {
    forall|k: int|
        0 <= k < t.len() ==> #[trigger] t[k] != '\x1b' && t[k] != '\r' && t[k] != '\t' && t[k] != '\n'
}

proof fn lemma_scan_plain(cs: Seq<char>, base: Style, i: int, st: ParseState)
    requires
        0 <= i <= cs.len(),
        plain_text(cs.skip(i)),
    ensures
        scan(cs, base, i, st) == ({
            let f = flushed(ParseState { buf: st.buf + cs.skip(i), ..st });
            f.lines.push(f.spans)
        }),
    decreases cs.len() - i,
{
    if i < cs.len() {
        let c = cs[i];
        assert(cs.skip(i)[0] == c);
        assert(plain_text(cs.skip(i + 1))) by {
            assert forall|k: int| 0 <= k < cs.skip(i + 1).len() implies #[trigger] cs.skip(i + 1)[k]
                != '\x1b' && cs.skip(i + 1)[k] != '\r' && cs.skip(i + 1)[k] != '\t' && cs.skip(i + 1)[k]
                != '\n' by {
                assert(cs.skip(i + 1)[k] == cs.skip(i)[k + 1]);
            }
        }
        lemma_scan_plain(cs, base, i + 1, ParseState { buf: st.buf.push(c), ..st });
        assert(st.buf.push(c) + cs.skip(i + 1) =~= st.buf + cs.skip(i));
    } else {
        assert(st.buf + cs.skip(i) =~= st.buf);
    }
}

proof fn lemma_scan_run(cs: Seq<char>, base: Style, i: int, j: int, st: ParseState)
    requires
        0 <= i <= j <= cs.len(),
        forall|k: int| i <= k < j ==> #[trigger] cs[k] != '\x1b' && cs[k] != '\r' && cs[k] != '\t' && cs[k] != '\n',
    ensures
        scan(cs, base, i, st) == scan(cs, base, j, ParseState { buf: st.buf + cs.subrange(i, j), ..st }),
    decreases j - i,
{
    if i < j {
        let c = cs[i];
        lemma_scan_run(cs, base, i + 1, j, ParseState { buf: st.buf.push(c), ..st });
        assert(st.buf.push(c) + cs.subrange(i + 1, j) =~= st.buf + cs.subrange(i, j));
    } else {
        assert(st.buf + cs.subrange(i, j) =~= st.buf);
        assert(ParseState { buf: st.buf, ..st } == st);
    }
}

/// Plain output keeps its text and base style: a line break starts a new
/// line, a tab becomes four spaces, a carriage return is dropped.
pub proof fn law_plain_layout(a: Seq<char>, b: Seq<char>, base: Style)
    requires
        a.len() > 0,
        b.len() > 0,
        plain_text(a),
        plain_text(b),
    ensures
        scan(a + seq!['\n'] + b, base, 0, start_state(base)) == seq![seq![(a, base)], seq![(b, base)]],
        scan(a + seq!['\t'] + b, base, 0, start_state(base)) == seq![seq![(a + seq![' ', ' ', ' ', ' '] + b, base)]],
        scan(a + seq!['\r'] + b, base, 0, start_state(base)) == seq![seq![(a + b, base)]],
{
    let st = start_state(base);
    let n = a.len() as int;
    assert(Seq::<char>::empty() + a =~= a);
    // a line break
    let cs = a + seq!['\n'] + b;
    assert forall|k: int| 0 <= k < n implies #[trigger] cs[k] != '\x1b' && cs[k] != '\r' && cs[k] != '\t' && cs[k] != '\n' by {
        assert(cs[k] == a[k]);
    }
    lemma_scan_run(cs, base, 0, n, st);
    assert(cs.subrange(0, n) =~= a);
    let s1 = ParseState { buf: a, ..st };
    assert(cs[n] == '\n');
    let f1 = flushed(s1);
    let s2 = ParseState { spans: Seq::empty(), lines: f1.lines.push(f1.spans), ..f1 };
    assert(scan(cs, base, n, s1) == scan(cs, base, n + 1, s2));
    assert(cs.skip(n + 1) =~= b);
    lemma_scan_plain(cs, base, n + 1, s2);
    assert(Seq::<char>::empty() + b =~= b);
    // a tab
    let ct = a + seq!['\t'] + b;
    assert forall|k: int| 0 <= k < n implies #[trigger] ct[k] != '\x1b' && ct[k] != '\r' && ct[k] != '\t' && ct[k] != '\n' by {
        assert(ct[k] == a[k]);
    }
    lemma_scan_run(ct, base, 0, n, st);
    assert(ct.subrange(0, n) =~= a);
    assert(ct[n] == '\t');
    let t2 = ParseState { buf: a + seq![' ', ' ', ' ', ' '], ..st };
    assert(scan(ct, base, n, s1) == scan(ct, base, n + 1, t2));
    assert(ct.skip(n + 1) =~= b);
    lemma_scan_plain(ct, base, n + 1, t2);
    // a carriage return
    let cr = a + seq!['\r'] + b;
    assert forall|k: int| 0 <= k < n implies #[trigger] cr[k] != '\x1b' && cr[k] != '\r' && cr[k] != '\t' && cr[k] != '\n' by {
        assert(cr[k] == a[k]);
    }
    lemma_scan_run(cr, base, 0, n, st);
    assert(cr.subrange(0, n) =~= a);
    assert(cr[n] == '\r');
    assert(scan(cr, base, n, s1) == scan(cr, base, n + 1, s1));
    assert(cr.skip(n + 1) =~= b);
    lemma_scan_plain(cr, base, n + 1, s1);
}

proof fn lemma_osc_end(cs: Seq<char>, j: int, stop: int)
    requires
        0 <= j <= stop < cs.len(),
        forall|k: int| j <= k < stop ==> #[trigger] cs[k] != '\x07' && cs[k] != '\x1b',
        cs[stop] == '\x07',
    ensures
        crate::ansi::osc_end(cs, j) == stop,
    decreases stop - j,
{
    if j < stop {
        lemma_osc_end(cs, j + 1, stop);
    }
}

proof fn lemma_csi_end(cs: Seq<char>, j: int, stop: int)
    requires
        0 <= j <= stop < cs.len(),
        forall|k: int| j <= k < stop ==> !crate::ansi::csi_final(#[trigger] cs[k]),
        crate::ansi::csi_final(cs[stop]),
    ensures
        csi_end(cs, j) == stop,
    decreases stop - j,
{
    if j < stop {
        lemma_csi_end(cs, j + 1, stop);
    }
}

/// An OSC sequence (`ESC ]`, its body, BEL) and a CSI sequence that does not
/// set the style (`ESC [`, parameters, a final character other than `m`)
/// are dropped from the output: the text before and after comes out in the
/// base style, as two spans of one line.
pub proof fn law_other_sequences_dropped(
    a: Seq<char>,
    body: Seq<char>,
    fin: char,
    b: Seq<char>,
    base: Style,
)
    requires
        a.len() > 0,
        b.len() > 0,
        plain_text(a),
        plain_text(b),
        forall|k: int| 0 <= k < body.len() ==> #[trigger] body[k] != '\x07' && body[k] != '\x1b' && !(
        '@' <= body[k] <= '~'),
        '@' <= fin <= '~',
        fin != 'm',
    ensures
        scan(a + seq!['\x1b', ']'] + body + seq!['\x07'] + b, base, 0, start_state(base)) == seq![
            seq![(a, base), (b, base)],
        ],
        scan(a + seq!['\x1b', '['] + body + seq![fin] + b, base, 0, start_state(base)) == seq![
            seq![(a, base), (b, base)],
        ],
{
    let st = start_state(base);
    let n = a.len() as int;
    let m = body.len() as int;
    assert(Seq::<char>::empty() + a =~= a);
    assert(Seq::<char>::empty() + b =~= b);
    let s1 = ParseState { buf: a, ..st };
    let f = flushed(s1);
    assert(f.buf == Seq::<char>::empty());
    assert(f.spans == seq![(a, base)]);
    assert(f.style == base);
    assert(f.buf + b =~= b);
    let g = flushed(ParseState { buf: f.buf + b, ..f });
    assert(g.spans =~= seq![(a, base), (b, base)]);
    assert(g.lines.push(g.spans) =~= seq![seq![(a, base), (b, base)]]);
    // OSC
    let co = a + seq!['\x1b', ']'] + body + seq!['\x07'] + b;
    assert forall|k: int| 0 <= k < n implies #[trigger] co[k] != '\x1b' && co[k] != '\r' && co[k] != '\t' && co[k] != '\n' by {
        assert(co[k] == a[k]);
    }
    lemma_scan_run(co, base, 0, n, st);
    assert(co.subrange(0, n) =~= a);
    assert(co[n] == '\x1b' && co[n + 1] == ']');
    assert forall|k: int| n + 2 <= k < n + 2 + m implies #[trigger] co[k] != '\x07' && co[k] != '\x1b' by {
        assert(co[k] == body[k - n - 2]);
    }
    assert(co[n + 2 + m] == '\x07');
    lemma_osc_end(co, n + 2, n + 2 + m);
    assert(scan(co, base, n, s1) == scan(co, base, n + 3 + m, f));
    assert(co.skip(n + 3 + m) =~= b);
    lemma_scan_plain(co, base, n + 3 + m, f);
    // CSI
    let cc = a + seq!['\x1b', '['] + body + seq![fin] + b;
    assert forall|k: int| 0 <= k < n implies #[trigger] cc[k] != '\x1b' && cc[k] != '\r' && cc[k] != '\t' && cc[k] != '\n' by {
        assert(cc[k] == a[k]);
    }
    lemma_scan_run(cc, base, 0, n, st);
    assert(cc.subrange(0, n) =~= a);
    assert(cc[n] == '\x1b' && cc[n + 1] == '[');
    assert forall|k: int| n + 2 <= k < n + 2 + m implies !crate::ansi::csi_final(#[trigger] cc[k]) by {
        assert(cc[k] == body[k - n - 2]);
    }
    assert(cc[n + 2 + m] == fin);
    lemma_csi_end(cc, n + 2, n + 2 + m);
    assert(scan(cc, base, n, s1) == scan(cc, base, n + 3 + m, f));
    assert(cc.skip(n + 3 + m) =~= b);
    lemma_scan_plain(cc, base, n + 3 + m, f);
}

proof fn lemma_two_digit_codes(lead: char, d: char)
    requires
        '0' <= lead <= '9',
        '0' <= d <= '9',
    ensures
        sgr_codes(seq![lead, d]) == seq![((lead as int - '0' as int) * 10 + (d as int - '0' as int)) as u16],
{
    let x = seq![lead, d];
    reveal_with_fuel(split_on, 3);
    assert(x.drop_last() =~= seq![lead]);
    assert(seq![lead].drop_last() =~= Seq::<char>::empty());
    assert(split_on(seq![lead], ';') =~= seq![seq![lead]]);
    assert(d != ';');
    assert(seq![lead].push(d) =~= x);
    assert(split_on(x, ';') == split_on(seq![lead], ';').update(0, seq![lead].push(d)));
    assert(split_on(x, ';') =~= seq![x]);
    assert(unsigned_literal(x) == Some(((lead as int - '0' as int) * 10 + (d as int - '0' as int)) as nat)) by {
        reveal_with_fuel(digits_value, 3);
        assert(x.drop_last() =~= seq![lead]);
        assert(seq![lead].drop_last() =~= Seq::<char>::empty());
    }
    assert(seq![x].drop_last() =~= Seq::<Seq<char>>::empty());
    let v = ((lead as int - '0' as int) * 10 + (d as int - '0' as int)) as nat;
    assert(v <= 99);
    assert(parsed_codes(Seq::<Seq<char>>::empty()) == Seq::<u16>::empty());
    assert(parsed_codes(seq![x]) == Seq::<u16>::empty().push(v as u16));
    assert(parsed_codes(seq![x]) =~= seq![((lead as int - '0' as int) * 10 + (d as int - '0' as int)) as u16]);
}

/// Output that sets a standard colour (`ESC [ 3d m` for the text colour,
/// `ESC [ 4d m` for the background, `d` from 0 to 7) and then shows plain
/// text comes out as one line holding that text in the base style with that
/// colour: 0 black, 1 red, 2 green, 3 yellow, 4 blue, 5 magenta, 6 cyan,
/// 7 grey.
pub proof fn law_standard_colors(base: Style, lead: char, d: char, t: Seq<char>)
    requires
        lead == '3' || lead == '4',
        '0' <= d <= '7',
        t.len() > 0,
        plain_text(t),
    ensures
        ({
            let cs = seq!['\x1b', '[', lead, d, 'm'] + t;
            let color = standard_colors()[d as int - '0' as int];
            let styled = if lead == '3' {
                Style { fg: Some(color), ..base }
            } else {
                Style { bg: Some(color), ..base }
            };
            scan(cs, base, 0, start_state(base)) == seq![seq![(t, styled)]]
        }),
{
    let cs = seq!['\x1b', '[', lead, d, 'm'] + t;
    let k = d as int - '0' as int;
    let code = ((lead as int - '0' as int) * 10 + k) as u16;
    assert(cs[0] == '\x1b' && cs[1] == '[' && cs[2] == lead && cs[3] == d && cs[4] == 'm');
    assert(csi_end(cs, 4) == 4);
    assert(csi_end(cs, 3) == 4);
    assert(csi_end(cs, 2) == 4);
    assert(cs.subrange(2, 4) =~= seq![lead, d]);
    lemma_two_digit_codes(lead, d);
    let color = standard_colors()[k];
    assert(basic_color_of(k as u16, false) == color);
    let styled = if lead == '3' {
        Style { fg: Some(color), ..base }
    } else {
        Style { bg: Some(color), ..base }
    };
    assert(code_effect(base, base, code) == styled);
    assert(apply_codes(base, base, seq![code], 0) == styled) by {
        assert(apply_codes(styled, base, seq![code], 1) == styled);
    }
    let g = ParseState { style: styled, ..start_state(base) };
    assert(cs.skip(5) =~= t);
    lemma_scan_plain(cs, base, 5, g);
    assert(Seq::<char>::empty() + t =~= t);
}

/// The light forms of the eight standard colours, in the order of their
/// codes.
pub open spec fn bright_colors() -> Seq<Color> {
    seq![
        Color::DarkGray,
        Color::LightRed,
        Color::LightGreen,
        Color::LightYellow,
        Color::LightBlue,
        Color::LightMagenta,
        Color::LightCyan,
        Color::White,
    ]
}

/// The attribute that codes 1 to 9 switch on: bold, dim, italic,
/// underlined, slow blink, rapid blink, reversed, hidden, crossed out.
pub open spec fn attribute_bits() -> Seq<u16> {
    seq![0x1u16, 0x2, 0x4, 0x8, 0x10, 0x20, 0x40, 0x80, 0x100]
}

/// The attributes that codes 22 to 29 switch off (code 26 is not one):
/// bold, italic, underlined, both blinks, reversed, hidden, crossed out.
pub open spec fn removed_bits(c: u16) -> u16 {
    if c == 22 {
        0x1
    } else if c == 23 {
        0x4
    } else if c == 24 {
        0x8
    } else if c == 25 {
        0x30
    } else if c == 27 {
        0x40
    } else if c == 28 {
        0x80
    } else {
        0x100
    }
}

/// What one SGR code does to the style `s` (with `base` the style the text
/// started in): 0 goes back to `base`; 1 to 9 switch an attribute on (and
/// drop it from those switched off); 22 to 29 switch attributes off; 30 to
/// 37 and 90 to 97 set the text colour to a standard or light colour, 40 to
/// 47 and 100 to 107 the background; 39 and 49 put back the base's text
/// colour and background.
pub proof fn law_sgr_code(s: Style, base: Style, c: u16)
    requires
        c != 38 && c != 48,
    ensures
        ({
            let r = apply_codes(s, base, seq![c], 0);
            &&& c == 0 ==> r == base
            &&& 1 <= c <= 9 ==> {
                let m = attribute_bits()[c - 1];
                &&& r.fg == s.fg && r.bg == s.bg
                &&& r.add_modifier.bits & m == m
                &&& r.sub_modifier.bits & m == 0
                &&& r.add_modifier.bits == s.add_modifier.bits | m
            }
            &&& (22 <= c <= 29 && c != 26) ==> {
                let m = removed_bits(c);
                &&& r.fg == s.fg && r.bg == s.bg
                &&& r.add_modifier.bits & m == 0
                &&& r.sub_modifier.bits & m == m
                &&& r.sub_modifier.bits == s.sub_modifier.bits | m
            }
            &&& 30 <= c <= 37 ==> r == Style { fg: Some(standard_colors()[c - 30]), ..s }
            &&& 40 <= c <= 47 ==> r == Style { bg: Some(standard_colors()[c - 40]), ..s }
            &&& 90 <= c <= 97 ==> r == Style { fg: Some(bright_colors()[c - 90]), ..s }
            &&& 100 <= c <= 107 ==> r == Style { bg: Some(bright_colors()[c - 100]), ..s }
            &&& c == 39 ==> r == Style { fg: base.fg, ..s }
            &&& c == 49 ==> r == Style { bg: base.bg, ..s }
        }),
{
    let r = code_effect(s, base, c);
    assert(apply_codes(s, base, seq![c], 0) == r) by {
        assert(apply_codes(r, base, seq![c], 1) == r);
    }
    let a = s.add_modifier.bits;
    let b = s.sub_modifier.bits;
    if 1 <= c <= 9 {
        let m = attribute_bits()[c - 1];
        assert(m == (1u16 << ((c - 1) as u16)) as u16) by {
            assert(1u16 << 0u16 == 1u16) by (bit_vector);
            assert(1u16 << 1u16 == 2u16) by (bit_vector);
            assert(1u16 << 2u16 == 4u16) by (bit_vector);
            assert(1u16 << 3u16 == 8u16) by (bit_vector);
            assert(1u16 << 4u16 == 0x10u16) by (bit_vector);
            assert(1u16 << 5u16 == 0x20u16) by (bit_vector);
            assert(1u16 << 6u16 == 0x40u16) by (bit_vector);
            assert(1u16 << 7u16 == 0x80u16) by (bit_vector);
            assert(1u16 << 8u16 == 0x100u16) by (bit_vector);
        }
        assert((a | m) & m == m) by (bit_vector);
        assert((b & !m) & m == 0) by (bit_vector);
    }
    if 22 <= c <= 29 && c != 26 {
        let m = removed_bits(c);
        assert((a & !m) & m == 0) by (bit_vector);
        assert((b | m) & m == m) by (bit_vector);
    }
}

/// `38;5;n` and `48;5;n` pick palette colour `n` for the text and the
/// background; `38;2;r;g;b` and `48;2;r;g;b` a true colour; the codes after
/// them still apply.
pub proof fn law_extended_colors(s: Style, base: Style, n: u8, r: u8, g: u8, b: u8, rest: Seq<u16>)
    ensures
        apply_codes(s, base, seq![38u16, 5, n as u16] + rest, 0) == apply_codes(
            Style { fg: Some(Color::Indexed(n)), ..s },
            base,
            seq![38u16, 5, n as u16] + rest,
            3,
        ),
        apply_codes(s, base, seq![48u16, 5, n as u16] + rest, 0) == apply_codes(
            Style { bg: Some(Color::Indexed(n)), ..s },
            base,
            seq![48u16, 5, n as u16] + rest,
            3,
        ),
        apply_codes(s, base, seq![38u16, 2, r as u16, g as u16, b as u16] + rest, 0) == apply_codes(
            Style { fg: Some(Color::Rgb(r, g, b)), ..s },
            base,
            seq![38u16, 2, r as u16, g as u16, b as u16] + rest,
            5,
        ),
        apply_codes(s, base, seq![48u16, 2, r as u16, g as u16, b as u16] + rest, 0) == apply_codes(
            Style { bg: Some(Color::Rgb(r, g, b)), ..s },
            base,
            seq![48u16, 2, r as u16, g as u16, b as u16] + rest,
            5,
        ),
{
    let c1 = seq![38u16, 5, n as u16] + rest;
    assert(c1[0] == 38 && c1[1] == 5 && c1[2] == n as u16);
    assert((n as u16) as u8 == n);
    let c2 = seq![48u16, 5, n as u16] + rest;
    assert(c2[0] == 48 && c2[1] == 5 && c2[2] == n as u16);
    let c3 = seq![38u16, 2, r as u16, g as u16, b as u16] + rest;
    assert(c3[0] == 38 && c3[1] == 2 && c3[2] == r as u16 && c3[3] == g as u16 && c3[4] == b as u16);
    assert((r as u16) as u8 == r && (g as u16) as u8 == g && (b as u16) as u8 == b);
    let c4 = seq![48u16, 2, r as u16, g as u16, b as u16] + rest;
    assert(c4[0] == 48 && c4[1] == 2 && c4[2] == r as u16 && c4[3] == g as u16 && c4[4] == b as u16);
}

// ----- keys and clicks -----

/// `R` on the dashboard reruns every pane: each is due at once and scrolled
/// back to the top, and nothing else changes.
pub proof fn law_rerun_all_key(v: AppView, ctrl: bool, now: u64)
    requires
        v.mode == Mode::Normal,
    ensures
        ({
            let (w, reply) = key_step(v, KeyEvent { code: KeyCode::Char('R'), ctrl }, now);
            &&& reply == Reply::Nothing
            &&& w.panes.len() == v.panes.len()
            &&& forall|i: int|
                0 <= i < v.panes.len() ==> #[trigger] w.panes[i] == (PaneView {
                    next_run: now,
                    scroll: 0,
                    ..v.panes[i]
                })
            &&& w == (AppView { panes: w.panes, ..v })
        }),
{
}

/// The characters that do something on the dashboard.
pub open spec fn bound_char(c: char) -> bool {
    ||| c == 'h' || c == 'j' || c == 'k' || c == 'l'
    ||| c == 'i' || c == 't' || c == 'r' || c == 'R' || c == ' ' || c == 'p'
    ||| c == '+' || c == '=' || c == '-' || c == '_'
    ||| c == 's' || c == '?' || c == 'z' || c == 'q'
    ||| c == 'v' || c == 'b' || c == 'x' || c == 'H' || c == 'L' || c == 'K' || c == 'J'
}

/// What the plain keys do on the dashboard: `r` reruns the focused pane,
/// space pauses or resumes it, `p` pauses or resumes all panes, `?` opens
/// help, `t` the rename dialog with the pane's title, `i` the command dialog
/// with its command (pausing it), `+` and `-` move its interval by 50 ms
/// (never under 250 ms), `q` and Ctrl-C quit, `z` saves the view and quits;
/// `h`, `l`, `k`, `j` move the focus left, right, up and down; any other
/// character changes nothing.
pub proof fn law_normal_keys(v: AppView, c: char, ctrl: bool, now: u64)
    requires
        v.mode == Mode::Normal,
        v.focused < v.panes.len(),
    ensures
        ({
            let (w, reply) = key_step(v, KeyEvent { code: KeyCode::Char(c), ctrl }, now);
            let f = v.focused as int;
            let p = v.panes[f];
            let n = v.panes.len() as usize;
            &&& (ctrl && c == 'c') ==> w == v && reply == Reply::Quit
            &&& !(ctrl && c == 'c') ==> {
                &&& c == 'q' ==> w == v && reply == Reply::Quit
                &&& c == 'z' ==> w == v && reply == Reply::SaveResumeAndQuit
                &&& c == 'r' ==> w == AppView {
                    panes: v.panes.update(f, PaneView { next_run: now, scroll: 0, ..p }),
                    ..v
                }
                &&& c == ' ' ==> w == AppView {
                    panes: v.panes.update(f, PaneView { paused: !p.paused, ..p }),
                    ..v
                }
                &&& c == 'p' ==> w == AppView { global_paused: !v.global_paused, ..v }
                &&& c == '?' ==> w == AppView { mode: Mode::Help, ..v }
                &&& c == 't' ==> w == AppView {
                    title_input: (p.title, p.title.len() as int),
                    mode: Mode::TitleModal,
                    ..v
                }
                &&& c == 'i' ==> {
                    &&& w.mode == Mode::CommandModal
                    &&& w.command_input == (p.cmd, p.cmd.len() as int)
                    &&& w.panes == v.panes.update(f, PaneView { paused: true, ..p })
                }
                &&& (c == '+' || c == '=') && p.interval_ms + 50 <= i64::MAX ==> {
                    &&& w.panes.len() == v.panes.len()
                    &&& w.panes[f].interval_ms == if p.interval_ms + 50 < 250 {
                        250
                    } else {
                        p.interval_ms + 50
                    }
                    &&& forall|i: int| 0 <= i < v.panes.len() && i != f ==> #[trigger] w.panes[i] == v.panes[i]
                }
                &&& (c == '-' || c == '_') && p.interval_ms <= i64::MAX ==> {
                    &&& w.panes.len() == v.panes.len()
                    &&& w.panes[f].interval_ms == if p.interval_ms < 300 {
                        250
                    } else {
                        p.interval_ms - 50
                    }
                    &&& forall|i: int| 0 <= i < v.panes.len() && i != f ==> #[trigger] w.panes[i] == v.panes[i]
                }
                &&& c == 'h' ==> w == AppView { focused: focus_target(n, v.focused, 0, -1), ..v }
                &&& c == 'l' ==> w == AppView { focused: focus_target(n, v.focused, 0, 1), ..v }
                &&& c == 'k' ==> w == AppView { focused: focus_target(n, v.focused, -1, 0), ..v }
                &&& c == 'j' ==> w == AppView { focused: focus_target(n, v.focused, 1, 0), ..v }
                &&& !bound_char(c) ==> w == v && reply == Reply::Nothing
            }
        }),
{
    let f = v.focused as int;
    let p = v.panes[f];
    if (c == '+' || c == '=' || c == '-' || c == '_') && p.interval_ms <= i64::MAX {
        assert(as_signed(p.interval_ms) == p.interval_ms as int);
    }
}

/// The arrow keys move the focus as `h`, `l`, `k` and `j` do.
pub proof fn law_arrow_keys(v: AppView, ctrl: bool, now: u64)
    requires
        v.mode == Mode::Normal,
    ensures
        key_step(v, KeyEvent { code: KeyCode::Left, ctrl }, now) == key_step(v, KeyEvent { code: KeyCode::Char('h'), ctrl: false }, now),
        key_step(v, KeyEvent { code: KeyCode::Right, ctrl }, now) == key_step(v, KeyEvent { code: KeyCode::Char('l'), ctrl: false }, now),
        key_step(v, KeyEvent { code: KeyCode::Up, ctrl }, now) == key_step(v, KeyEvent { code: KeyCode::Char('k'), ctrl: false }, now),
        key_step(v, KeyEvent { code: KeyCode::Down, ctrl }, now) == key_step(v, KeyEvent { code: KeyCode::Char('j'), ctrl: false }, now),
{
}

/// Away from the three-pane arrangement, the focus moves on the grid: left
/// and right by one pane within a row, up and down by one row; at an edge it
/// stays, and a move past the last pane lands on the last pane.
pub proof fn law_focus_on_grid(len: usize, f: usize)
    requires
        len != 3,
        len >= 1,
        f < len,
    ensures
        ({
            let cols = grid_of(len).cols as int;
            let fi = f as int;
            &&& fi % cols > 0 ==> focus_target(len, f, 0, -1) == fi - 1
            &&& fi % cols == 0 ==> focus_target(len, f, 0, -1) == fi
            &&& fi % cols < cols - 1 && fi + 1 < len ==> focus_target(len, f, 0, 1) == fi + 1
            &&& fi >= cols ==> focus_target(len, f, -1, 0) == fi - cols
            &&& fi < cols ==> focus_target(len, f, -1, 0) == fi
            &&& fi + cols < len ==> focus_target(len, f, 1, 0) == fi + cols
        }),
{
    crate::laws::lemma_grid_exists(len);
    let g = grid_of(len);
    lemma_grid_of(len, g);
    crate::ui::lemma_grid_covers(len, g);
    let cols = g.cols as int;
    let rows = g.rows as int;
    let fi = f as int;
    let q = fi / cols;
    let m = fi % cols;
    assert(fi == q * cols + m && 0 <= m < cols && q >= 0) by (nonlinear_arith)
        requires
            cols >= 1,
            fi >= 0,
            q == fi / cols,
            m == fi % cols,
    ;
    assert(q < rows) by (nonlinear_arith)
        requires
            fi == q * cols + m,
            0 <= m,
            fi < len,
            len <= rows * cols,
            cols >= 1,
    ;
    assert((q - 1) * cols == q * cols - cols && (q + 1) * cols == q * cols + cols) by (nonlinear_arith);
    if fi + cols < len {
        assert(q + 1 < rows) by (nonlinear_arith)
            requires
                fi == q * cols + m,
                0 <= m < cols,
                fi + cols < len,
                len <= rows * cols,
                cols >= 1,
        ;
    }
}

/// A left click on the Delete button of the delete dialog clears the
/// focused pane's command and output and closes the dialog, just as
/// confirming with the keyboard does; the other panes stay as they were.
pub proof fn law_delete_click_clears(
    v: AppView,
    frame: Rect,
    rects: Seq<(usize, Rect)>,
    x: u16,
    y: u16,
    now: u64,
)
    requires
        v.mode == Mode::DeleteConfirm,
        v.focused < v.panes.len(),
        hit(
            seq![(ActionId::Cancel, "Cancel"@), (ActionId::Delete, "Delete"@)],
            centered(54, 7, frame),
            x,
            y,
        ) == Some(ActionId::Delete),
    ensures
        ({
            let w = mouse_step(v, MouseEvent { kind: MouseKind::LeftDown, column: x, row: y }, frame, rects, now);
            let f = v.focused as int;
            &&& w.mode == Mode::Normal
            &&& w.panes.len() == v.panes.len()
            &&& w.panes[f].cmd == Seq::<char>::empty()
            &&& w.panes[f].output == Seq::<Seq<char>>::empty()
            &&& !w.panes[f].running
            &&& w.panes[f].next_run == now
            &&& forall|i: int| 0 <= i < v.panes.len() && i != f ==> #[trigger] w.panes[i] == v.panes[i]
            &&& w == key_step(v, KeyEvent { code: KeyCode::Enter, ctrl: false }, now).0
        }),
{
}

/// The wheel scrolls the focused pane by three lines (stopping at the top
/// and at the largest offset), whatever dialog is open; nothing else moves.
pub proof fn law_wheel_scrolls(v: AppView, frame: Rect, rects: Seq<(usize, Rect)>, x: u16, y: u16, now: u64)
    requires
        v.focused < v.panes.len(),
    ensures
        ({
            let f = v.focused as int;
            let p = v.panes[f];
            let down = mouse_step(v, MouseEvent { kind: MouseKind::ScrollDown, column: x, row: y }, frame, rects, now);
            let up = mouse_step(v, MouseEvent { kind: MouseKind::ScrollUp, column: x, row: y }, frame, rects, now);
            &&& down == AppView {
                panes: v.panes.update(f, PaneView {
                    scroll: if p.scroll + 3 > u16::MAX { u16::MAX } else { (p.scroll + 3) as u16 },
                    ..p
                }),
                ..v
            }
            &&& up == AppView {
                panes: v.panes.update(f, PaneView {
                    scroll: if p.scroll < 3 { 0 } else { (p.scroll - 3) as u16 },
                    ..p
                }),
                ..v
            }
            &&& mouse_step(v, MouseEvent { kind: MouseKind::Other, column: x, row: y }, frame, rects, now) == v
        }),
{
}

/// On the dashboard, a left click inside a pane's cell, below the cell's
/// top border row, gives that pane the focus and changes nothing else.
pub proof fn law_click_focuses_pane(
    v: AppView,
    frame: Rect,
    rects: Seq<(usize, Rect)>,
    k: int,
    x: u16,
    y: u16,
    now: u64,
)
    requires
        v.mode == Mode::Normal,
        0 <= k < rects.len(),
        rects[k].0 < v.panes.len(),
        rects[k].1.x <= x < rects[k].1.x + rects[k].1.width,
        rects[k].1.y < y < rects[k].1.y + rects[k].1.height,
        forall|j: int|
            0 <= j < k ==> !(#[trigger] rects[j].1.x <= x < rects[j].1.x + rects[j].1.width && rects[j].1.y
                <= y < rects[j].1.y + rects[j].1.height),
    ensures
        mouse_step(v, MouseEvent { kind: MouseKind::LeftDown, column: x, row: y }, frame, rects, now) == (
        AppView { focused: rects[k].0, ..v }),
{
    lemma_pane_hit(rects, x, y, 0, k);
}

proof fn lemma_pane_hit(rects: Seq<(usize, Rect)>, x: u16, y: u16, from: int, k: int)
    requires
        0 <= from <= k < rects.len(),
        crate::mouse::in_rect(rects[k].1, x, y),
        forall|j: int|
            0 <= j < k ==> !(#[trigger] rects[j].1.x <= x < rects[j].1.x + rects[j].1.width && rects[j].1.y
                <= y < rects[j].1.y + rects[j].1.height),
    ensures
        crate::mouse::pane_hit(rects, x, y, from) == Some(k),
    decreases k - from,
{
    if from < k {
        assert(!crate::mouse::in_rect(rects[from].1, x, y));
        lemma_pane_hit(rects, x, y, from + 1, k);
    }
}

/// A left click on Cancel in the delete dialog only closes it, and one on
/// Quit in the help only closes the help.
pub proof fn law_dialog_cancel_clicks(v: AppView, frame: Rect, rects: Seq<(usize, Rect)>, x: u16, y: u16, now: u64)
    ensures
        ({
            let w = mouse_step(v, MouseEvent { kind: MouseKind::LeftDown, column: x, row: y }, frame, rects, now);
            &&& v.mode == Mode::DeleteConfirm && hit(
                seq![(ActionId::Cancel, "Cancel"@), (ActionId::Delete, "Delete"@)],
                centered(54, 7, frame),
                x,
                y,
            ) == Some(ActionId::Cancel) ==> w == AppView { mode: Mode::Normal, ..v }
            &&& v.mode == Mode::Help && hit(seq![(ActionId::Quit, "Quit"@)], centered(76, 16, frame), x, y)
                == Some(ActionId::Quit) ==> w == AppView { mode: Mode::Normal, ..v }
        }),
{
}

// ----- startup variables -----

/// `c` may start a variable name: an ASCII letter or `_`.
pub open spec fn letter_or_underscore(c: char) -> bool {
    ||| 'a' <= c <= 'z'
    ||| 'A' <= c <= 'Z'
    ||| c == '_'
}

/// `n` is a variable name by the naming rule, written out: an ASCII letter
/// or `_`, then ASCII letters, digits and `_`.
pub open spec fn name_by_rule(n: Seq<char>) -> bool {
    &&& n.len() > 0
    &&& letter_or_underscore(n[0])
    &&& forall|i: int| 1 <= i < n.len() ==> letter_or_underscore(#[trigger] n[i]) || '0' <= n[i] <= '9'
}

/// A variable name is valid exactly when it is an ASCII letter or `_`
/// followed by any number of ASCII letters, digits and `_`.
pub proof fn law_valid_names(n: Seq<char>)
    ensures
        valid_name(n) <==> name_by_rule(n),
{
}

proof fn lemma_replace_skips(a: Seq<char>, y: Seq<char>, pat: Seq<char>, rep: Seq<char>)
    requires
        pat.len() > 0,
        pat[0] == '{',
        forall|i: int| 0 <= i < a.len() ==> a[i] != '{',
    ensures
        replace_all(a + y, pat, rep) == a + replace_all(y, pat, rep),
    decreases a.len(),
{
    if a.len() > 0 {
        let s = a + y;
        lemma_replace_skips(a.drop_first(), y, pat, rep);
        if s.len() >= pat.len() {
            assert(s.take(pat.len() as int)[0] == a[0]);
            assert(s.skip(1) =~= a.drop_first() + y);
        } else {
            lemma_replace_short(s.skip(1), pat, rep);
            lemma_replace_short(y, pat, rep);
            assert(a.drop_first() + y =~= s.skip(1));
            assert(s =~= seq![a[0]] + s.skip(1));
        }
    }
}

proof fn lemma_replace_short(s: Seq<char>, pat: Seq<char>, rep: Seq<char>)
    requires
        pat.len() > 0,
        s.len() < pat.len(),
    ensures
        replace_all(s, pat, rep) == s,
{
}

proof fn lemma_replace_none(b: Seq<char>, pat: Seq<char>, rep: Seq<char>)
    requires
        pat.len() > 0,
        pat[0] == '{',
        forall|i: int| 0 <= i < b.len() ==> b[i] != '{',
    ensures
        replace_all(b, pat, rep) == b,
{
    lemma_replace_skips(b, Seq::empty(), pat, rep);
    assert(b + Seq::<char>::empty() =~= b);
}

/// A reference `{{name}}` to a field, in text with no other `{`, is
/// replaced by the field's value, and the text around it is kept.
pub proof fn law_fill_replaces_reference(a: Seq<char>, b: Seq<char>, f: VarFieldView)
    requires
        forall|i: int| 0 <= i < a.len() ==> a[i] != '{',
        forall|i: int| 0 <= i < b.len() ==> b[i] != '{',
    ensures
        filled(a + seq!['{', '{'] + f.name + seq!['}', '}'] + b, seq![f]) == a + f.input.0 + b,
{
    let pat = seq!['{', '{'] + f.name + seq!['}', '}'];
    assert(pat =~= "{{"@ + f.name + "}}"@) by {
        reveal_strlit("{{");
        reveal_strlit("}}");
    }
    let rest = pat + b;
    assert(a + seq!['{', '{'] + f.name + seq!['}', '}'] + b =~= a + rest);
    lemma_replace_skips(a, rest, pat, f.input.0);
    assert(rest.take(pat.len() as int) =~= pat);
    assert(rest.skip(pat.len() as int) =~= b);
    lemma_replace_none(b, pat, f.input.0);
    assert(crate::runner::needle(f.name) == pat);
    assert(pat.len() > 0 && rest.len() >= pat.len());
    assert(replace_all(rest, pat, f.input.0) == f.input.0 + b);
    assert(seq![f].drop_first() =~= Seq::<VarFieldView>::empty());
    let r = replace_all(a + rest, pat, f.input.0);
    assert(r == a + (f.input.0 + b));
    assert(filled(a + rest, seq![f]) == filled(r, Seq::<VarFieldView>::empty()));
    assert(a + (f.input.0 + b) =~= a + f.input.0 + b);
}

proof fn lemma_render_plain(s: Seq<char>, i: int, j: int, vars: Seq<(Seq<char>, Seq<char>)>)
    requires
        0 <= i <= j <= s.len(),
        forall|k: int| i <= k < j ==> s[k] != '{',
    ensures
        render_from(s, i, vars) == match render_from(s, j, vars) {
            Ok(rest) => Ok(s.subrange(i, j) + rest),
            Err(e) => Err::<Seq<char>, SubstFailure>(e),
        },
    decreases j - i,
{
    if i < j {
        lemma_render_plain(s, i + 1, j, vars);
        assert(ref_at(s, i) is None);
        match render_from(s, j, vars) {
            Ok(rest) => {
                assert(seq![s[i]] + (s.subrange(i + 1, j) + rest) =~= s.subrange(i, j) + rest);
            },
            Err(e) => {},
        }
    } else {
        match render_from(s, j, vars) {
            Ok(rest) => {
                assert(s.subrange(i, j) + rest =~= rest);
            },
            Err(e) => {},
        }
    }
}

proof fn lemma_name_end(s: Seq<char>, j: int, stop: int)
    requires
        0 <= j <= stop < s.len(),
        forall|k: int| j <= k < stop ==> is_name_char(#[trigger] s[k]),
        !is_name_char(s[stop]),
    ensures
        name_end(s, j) == stop,
    decreases stop - j,
{
    if j < stop {
        lemma_name_end(s, j + 1, stop);
    }
}

proof fn lemma_ws_end(s: Seq<char>, j: int, stop: int)
    requires
        0 <= j <= stop < s.len(),
        forall|k: int| j <= k < stop ==> crate::text::is_ws(#[trigger] s[k]),
        !crate::text::is_ws(s[stop]),
    ensures
        ws_end(s, j) == stop,
    decreases stop - j,
{
    if j < stop {
        lemma_ws_end(s, j + 1, stop);
    }
}

/// Spaces and tabs only.
pub open spec fn blanks(w: Seq<char>) -> bool {
    forall|i: int| 0 <= i < w.len() ==> #[trigger] w[i] == ' ' || w[i] == '\t'
}

/// A reference `{{n}}` (blanks allowed inside the braces) to a declared
/// variable with a value, where `n` follows the naming rule and the text
/// around it has no other `{`, is replaced by the variable's value and the
/// rest is kept.
pub proof fn law_reference_replaced(
    a: Seq<char>,
    w1: Seq<char>,
    n: Seq<char>,
    w2: Seq<char>,
    b: Seq<char>,
    vars: Seq<(Seq<char>, Seq<char>)>,
)
    requires
        forall|i: int| 0 <= i < a.len() ==> a[i] != '{',
        forall|i: int| 0 <= i < b.len() ==> b[i] != '{',
        blanks(w1),
        blanks(w2),
        name_by_rule(n),
        has_key(vars, n),
        value_of(vars, n).len() > 0,
    ensures
        render_from(a + seq!['{', '{'] + w1 + n + w2 + seq!['}', '}'] + b, 0, vars) == Ok::<
            Seq<char>,
            SubstFailure,
        >(a + value_of(vars, n) + b),
{
    let s = a + seq!['{', '{'] + w1 + n + w2 + seq!['}', '}'] + b;
    let i0 = a.len() as int;
    let ns = i0 + 2 + w1.len();
    let ne = ns + n.len();
    let c = ne + w2.len();
    let e = c + 2;
    assert(s.len() == e + b.len());
    assert forall|k: int| 0 <= k < i0 implies s[k] != '{' by {
        assert(s[k] == a[k]);
    }
    assert(s[i0] == '{' && s[i0 + 1] == '{');
    assert forall|k: int| i0 + 2 <= k < ns implies crate::text::is_ws(#[trigger] s[k]) by {
        assert(s[k] == w1[k - i0 - 2]);
    }
    assert(s[ns] == n[0]);
    lemma_ws_end(s, i0 + 2, ns);
    assert forall|k: int| ns + 1 <= k < ne implies is_name_char(#[trigger] s[k]) by {
        assert(s[k] == n[k - ns]);
    }
    assert(!is_name_char(s[ne])) by {
        if w2.len() > 0 {
            assert(s[ne] == w2[0]);
        } else {
            assert(s[ne] == '}');
        }
    }
    lemma_name_end(s, ns + 1, ne);
    assert forall|k: int| ne <= k < c implies crate::text::is_ws(#[trigger] s[k]) by {
        assert(s[k] == w2[k - ne]);
    }
    assert(s[c] == '}' && s[c + 1] == '}');
    lemma_ws_end(s, ne, c);
    assert(ref_at(s, i0) == Some((e, ns, ne)));
    assert(s.subrange(ns, ne) =~= n);
    assert forall|k: int| e <= k < s.len() implies s[k] != '{' by {
        assert(s[k] == b[k - e]);
    }
    lemma_render_plain(s, e, s.len() as int, vars);
    assert(s.subrange(e, s.len() as int) =~= b);
    assert(render_from(s, s.len() as int, vars) == Ok::<Seq<char>, SubstFailure>(Seq::empty()));
    assert(render_from(s, e, vars) == Ok::<Seq<char>, SubstFailure>(b)) by {
        assert(b + Seq::<char>::empty() =~= b);
    }
    assert(render_from(s, i0, vars) == Ok::<Seq<char>, SubstFailure>(value_of(vars, n) + b));
    lemma_render_plain(s, 0, i0, vars);
    assert(s.subrange(0, i0) =~= a);
    assert(a + (value_of(vars, n) + b) =~= a + value_of(vars, n) + b);
}

/// Filling in a field passes over text without `{` unchanged.
pub proof fn law_fill_keeps_plain_text(a: Seq<char>, t: Seq<char>, f: VarFieldView)
    requires
        forall|i: int| 0 <= i < a.len() ==> a[i] != '{',
    ensures
        filled(a + t, seq![f]) == a + filled(t, seq![f]),
{
    let pat = crate::runner::needle(f.name);
    assert(pat =~= seq!['{', '{'] + f.name + seq!['}', '}']) by {
        reveal_strlit("{{");
        reveal_strlit("}}");
    }
    assert(pat[0] == '{');
    lemma_replace_skips(a, t, pat, f.input.0);
    assert(seq![f].drop_first() =~= Seq::<VarFieldView>::empty());
    assert(filled(a + t, seq![f]) == filled(replace_all(a + t, pat, f.input.0), Seq::<VarFieldView>::empty()));
    assert(filled(t, seq![f]) == filled(replace_all(t, pat, f.input.0), Seq::<VarFieldView>::empty()));
}

/// Filling in a field replaces a reference to it, wherever it stands, by
/// its value, and goes on after it: every reference is replaced.
pub proof fn law_fill_replaces_each_reference(t: Seq<char>, f: VarFieldView)
    ensures
        filled(seq!['{', '{'] + f.name + seq!['}', '}'] + t, seq![f]) == f.input.0 + filled(t, seq![f]),
{
    let pat = crate::runner::needle(f.name);
    assert(pat =~= seq!['{', '{'] + f.name + seq!['}', '}']) by {
        reveal_strlit("{{");
        reveal_strlit("}}");
    }
    let s = pat + t;
    assert(s.take(pat.len() as int) =~= pat);
    assert(s.skip(pat.len() as int) =~= t);
    assert(seq![f].drop_first() =~= Seq::<VarFieldView>::empty());
    assert(replace_all(s, pat, f.input.0) == f.input.0 + replace_all(t, pat, f.input.0));
    assert(filled(s, seq![f]) == filled(replace_all(s, pat, f.input.0), Seq::<VarFieldView>::empty()));
    assert(filled(t, seq![f]) == filled(replace_all(t, pat, f.input.0), Seq::<VarFieldView>::empty()));
}

/// Filling in a list of fields is filling in its first part, then its
/// second part: every field is applied, one after the other.
pub proof fn law_fill_in_turn(s: Seq<char>, first: Seq<VarFieldView>, second: Seq<VarFieldView>)
    ensures
        filled(s, first + second) == filled(filled(s, first), second),
    decreases first.len(),
{
    if first.len() > 0 {
        let s1 = replace_all(s, crate::runner::needle(first[0].name), first[0].input.0);
        law_fill_in_turn(s1, first.drop_first(), second);
        assert((first + second).drop_first() =~= first.drop_first() + second);
        assert((first + second)[0] == first[0]);
    } else {
        assert(first + second =~= second);
    }
}

} // verus!
