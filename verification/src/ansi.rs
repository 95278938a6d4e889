//! Styled text from command output: SGR escape sequences become colours and
//! text attributes; other control sequences are dropped.
use vstd::prelude::*;
use crate::input::lines;
use crate::text::{parse_unsigned, unsigned_literal};
use crate::theme::Color;

verus! {

/// A set of text attributes, one bit each.
#[derive(Debug, Clone, Copy, PartialEq, Eq, Structural)]
pub struct Modifier {
    pub bits: u16,
}

impl Modifier {
    /// No attribute.
    pub fn empty() -> (m: Modifier)
        ensures
            m.bits == 0,
    {
        Modifier { bits: 0 }
    }

    /// Bold.
    pub fn bold() -> (m: Modifier)
        ensures
            m.bits == 0x1,
    {
        Modifier { bits: 0x1 }
    }

    /// Dim.
    pub fn dim() -> (m: Modifier)
        ensures
            m.bits == 0x2,
    {
        Modifier { bits: 0x2 }
    }

    /// Italic.
    pub fn italic() -> (m: Modifier)
        ensures
            m.bits == 0x4,
    {
        Modifier { bits: 0x4 }
    }

    /// Underlined.
    pub fn underlined() -> (m: Modifier)
        ensures
            m.bits == 0x8,
    {
        Modifier { bits: 0x8 }
    }

    /// Slow blink.
    pub fn slow_blink() -> (m: Modifier)
        ensures
            m.bits == 0x10,
    {
        Modifier { bits: 0x10 }
    }

    /// Rapid blink.
    pub fn rapid_blink() -> (m: Modifier)
        ensures
            m.bits == 0x20,
    {
        Modifier { bits: 0x20 }
    }

    /// Reversed.
    pub fn reversed() -> (m: Modifier)
        ensures
            m.bits == 0x40,
    {
        Modifier { bits: 0x40 }
    }

    /// Hidden.
    pub fn hidden() -> (m: Modifier)
        ensures
            m.bits == 0x80,
    {
        Modifier { bits: 0x80 }
    }

    /// Crossed out.
    pub fn crossed_out() -> (m: Modifier)
        ensures
            m.bits == 0x100,
    {
        Modifier { bits: 0x100 }
    }

    /// Every attribute of `other` is in `self`.
    pub fn contains(self, other: Modifier) -> (b: bool)
        ensures
            b == (self.bits & other.bits == other.bits),
    {
        self.bits & other.bits == other.bits
    }
}

/// Colours and attributes of a piece of text: attributes in `add_modifier`
/// are switched on, those in `sub_modifier` switched off.
#[derive(Debug, Clone, Copy, PartialEq, Eq)]
pub struct Style {
    pub fg: Option<Color>,
    pub bg: Option<Color>,
    pub add_modifier: Modifier,
    pub sub_modifier: Modifier,
}

/// A run of text in one style.
#[derive(Debug, Clone)]
pub struct Span {
    pub content: String,
    pub style: Style,
}

/// One line of styled text.
#[derive(Debug, Clone)]
pub struct Line {
    pub spans: Vec<Span>,
}

/// Styled text, line by line.
#[derive(Debug, Clone)]
pub struct Text {
    pub lines: Vec<Line>,
}

/// A span as values.
pub type SpanView = (Seq<char>, Style);

impl View for Text {
    type V = Seq<Seq<SpanView>>;

    open spec fn view(&self) -> Seq<Seq<SpanView>> {
        self.lines@.map_values(|l: Line| l.spans@.map_values(|s: Span| (s.content@, s.style)))
    }
}

/// The style with attribute bits `m` switched on.
pub open spec fn with_added(s: Style, m: u16) -> Style {
    Style {
        add_modifier: Modifier { bits: s.add_modifier.bits | m },
        sub_modifier: Modifier { bits: s.sub_modifier.bits & !m },
        ..s
    }
}

/// The style with attribute bits `m` switched off.
pub open spec fn with_removed(s: Style, m: u16) -> Style {
    Style {
        add_modifier: Modifier { bits: s.add_modifier.bits & !m },
        sub_modifier: Modifier { bits: s.sub_modifier.bits | m },
        ..s
    }
}

/// The eight basic colours (`bright` for their light forms).
pub open spec fn basic_color_of(index: u16, bright: bool) -> Color {
    if !bright {
        if index == 0 {
            Color::Black
        } else if index == 1 {
            Color::Red
        } else if index == 2 {
            Color::Green
        } else if index == 3 {
            Color::Yellow
        } else if index == 4 {
            Color::Blue
        } else if index == 5 {
            Color::Magenta
        } else if index == 6 {
            Color::Cyan
        } else if index == 7 {
            Color::Gray
        } else {
            Color::White
        }
    } else {
        if index == 0 {
            Color::DarkGray
        } else if index == 1 {
            Color::LightRed
        } else if index == 2 {
            Color::LightGreen
        } else if index == 3 {
            Color::LightYellow
        } else if index == 4 {
            Color::LightBlue
        } else if index == 5 {
            Color::LightMagenta
        } else if index == 6 {
            Color::LightCyan
        } else {
            Color::White
        }
    }
}

/// What one SGR code does to a style (codes 38 and 48 aside).
pub open spec fn code_effect(s: Style, base: Style, c: u16) -> Style {
    if c == 0 {
        base
    } else if 1 <= c <= 9 {
        with_added(s, (1u16 << ((c - 1) as u16)) as u16)
    } else if c == 22 {
        with_removed(s, 0x1)
    } else if c == 23 {
        with_removed(s, 0x4)
    } else if c == 24 {
        with_removed(s, 0x8)
    } else if c == 25 {
        with_removed(s, 0x30)
    } else if c == 27 {
        with_removed(s, 0x40)
    } else if c == 28 {
        with_removed(s, 0x80)
    } else if c == 29 {
        with_removed(s, 0x100)
    } else if 30 <= c <= 37 {
        Style { fg: Some(basic_color_of((c - 30) as u16, false)), ..s }
    } else if c == 39 {
        Style { fg: base.fg, ..s }
    } else if 40 <= c <= 47 {
        Style { bg: Some(basic_color_of((c - 40) as u16, false)), ..s }
    } else if c == 49 {
        Style { bg: base.bg, ..s }
    } else if 90 <= c <= 97 {
        Style { fg: Some(basic_color_of((c - 90) as u16, true)), ..s }
    } else if 100 <= c <= 107 {
        Style { bg: Some(basic_color_of((c - 100) as u16, true)), ..s }
    } else {
        s
    }
}

/// The colour that an extended colour code (after 38 or 48) at `j` names,
/// and how many codes it takes: `5;n` for palette entry `n`, `2;r;g;b` for
/// a true colour.
pub open spec fn extended_at(codes: Seq<u16>, j: int) -> Option<(Color, int)> {
    if j + 1 < codes.len() && codes[j] == 5 {
        Some((Color::Indexed(codes[j + 1] as u8), 2))
    } else if j + 3 < codes.len() && codes[j] == 2 {
        Some((Color::Rgb(codes[j + 1] as u8, codes[j + 2] as u8, codes[j + 3] as u8), 4))
    } else {
        None
    }
}

/// The style after SGR codes `codes[i..]`.
pub open spec fn apply_codes(s: Style, base: Style, codes: Seq<u16>, i: int) -> Style
    decreases codes.len() - i,
{
    if i < 0 || i >= codes.len() {
        s
    } else if codes[i] == 38 || codes[i] == 48 {
        match extended_at(codes, i + 1) {
            Some((color, used)) => apply_codes(
                if codes[i] == 38 {
                    Style { fg: Some(color), ..s }
                } else {
                    Style { bg: Some(color), ..s }
                },
                base,
                codes,
                i + 1 + used,
            ),
            None => apply_codes(s, base, codes, i + 1),
        }
    } else {
        apply_codes(code_effect(s, base, codes[i]), base, codes, i + 1)
    }
}

/// `s` split at each `sep` (`str::split` with one character).
pub open spec fn split_on(s: Seq<char>, sep: char) -> Seq<Seq<char>>
    decreases s.len(),
{
    if s.len() == 0 {
        seq![Seq::empty()]
    } else if s.last() == sep {
        split_on(s.drop_last(), sep).push(Seq::empty())
    } else {
        let ps = split_on(s.drop_last(), sep);
        ps.update(ps.len() - 1, ps.last().push(s.last()))
    }
}

/// The pieces that parse as `u16` numbers, in order.
pub open spec fn parsed_codes(pieces: Seq<Seq<char>>) -> Seq<u16>
    decreases pieces.len(),
{
    if pieces.len() == 0 {
        Seq::empty()
    } else {
        let rest = parsed_codes(pieces.drop_last());
        match unsigned_literal(pieces.last()) {
            Some(v) => if v <= u16::MAX {
                rest.push(v as u16)
            } else {
                rest
            },
            None => rest,
        }
    }
}

/// The codes of an SGR sequence's parameters: the `;`-separated numbers,
/// or a single 0 when there are none.
pub open spec fn sgr_codes(params: Seq<char>) -> Seq<u16> {
    if params.len() == 0 {
        seq![0u16]
    } else {
        parsed_codes(split_on(params, ';'))
    }
}

/// A character that ends a CSI sequence.
pub open spec fn csi_final(c: char) -> bool {
    '@' <= c <= '~'
}

/// Where the CSI sequence whose parameters start at `j` ends: at its final
/// character, or at the end of the text.
pub open spec fn csi_end(cs: Seq<char>, j: int) -> int
    decreases cs.len() - j,
{
    if j < 0 || j >= cs.len() {
        cs.len() as int
    } else if csi_final(cs[j]) {
        j
    } else {
        csi_end(cs, j + 1)
    }
}

/// The last character of the OSC sequence whose body starts at `j`: its BEL,
/// or the `\` of its `ESC \`; the end of the text if it has none.
pub open spec fn osc_end(cs: Seq<char>, j: int) -> int
    decreases cs.len() - j,
{
    if j < 0 || j >= cs.len() {
        cs.len() as int
    } else if cs[j] == '\x07' {
        j
    } else if cs[j] == '\x1b' && j + 1 < cs.len() && cs[j + 1] == '\\' {
        j + 1
    } else {
        osc_end(cs, j + 1)
    }
}

/// Where the parser is: the current style, the text not yet in a span, the
/// spans of the current line, the finished lines.
pub struct ParseState {
    pub style: Style,
    pub buf: Seq<char>,
    pub spans: Seq<SpanView>,
    pub lines: Seq<Seq<SpanView>>,
}

/// The pending text, if any, closed into a span.
pub open spec fn flushed(st: ParseState) -> ParseState {
    if st.buf.len() > 0 {
        ParseState { buf: Seq::empty(), spans: st.spans.push((st.buf, st.style)), ..st }
    } else {
        st
    }
}

/// The styled lines of `cs` from position `i` on, in state `st`: an escape
/// followed by `[` starts a CSI sequence (an SGR one, ending in `m`, sets the
/// style; others are dropped), by `]` an OSC sequence (dropped); an escape
/// before another character is dropped; every escape sequence closes the
/// pending span. A carriage return is dropped, a tab becomes four spaces, a
/// line break ends the line.
pub open spec fn scan(cs: Seq<char>, base: Style, i: int, st: ParseState) -> Seq<Seq<SpanView>>
    decreases cs.len() - i,
{
    if i < 0 || i >= cs.len() {
        let f = flushed(st);
        f.lines.push(f.spans)
    } else {
        let c = cs[i];
        if c == '\x1b' && i + 1 < cs.len() {
            let f = flushed(st);
            if cs[i + 1] == '[' {
                proof {
                    lemma_csi_end_bounds(cs, i + 2);
                }
                let e = csi_end(cs, i + 2);
                let g = if e < cs.len() && cs[e] == 'm' {
                    ParseState {
                        style: apply_codes(f.style, base, sgr_codes(cs.subrange(i + 2, e)), 0),
                        ..f
                    }
                } else {
                    f
                };
                scan(
                    cs,
                    base,
                    if e < cs.len() {
                        e + 1
                    } else {
                        cs.len() as int
                    },
                    g,
                )
            } else if cs[i + 1] == ']' {
                proof {
                    lemma_osc_end_bounds(cs, i + 2);
                }
                let e = osc_end(cs, i + 2);
                scan(
                    cs,
                    base,
                    if e < cs.len() {
                        e + 1
                    } else {
                        cs.len() as int
                    },
                    f,
                )
            } else {
                scan(cs, base, i + 1, f)
            }
        } else if c == '\r' {
            scan(cs, base, i + 1, st)
        } else if c == '\t' {
            scan(cs, base, i + 1, ParseState { buf: st.buf + seq![' ', ' ', ' ', ' '], ..st })
        } else if c == '\n' {
            let f = flushed(st);
            scan(
                cs,
                base,
                i + 1,
                ParseState { spans: Seq::empty(), lines: f.lines.push(f.spans), ..f },
            )
        } else {
            scan(cs, base, i + 1, ParseState { buf: st.buf.push(c), ..st })
        }
    }
}

/// The state the parser starts in.
pub open spec fn start_state(base: Style) -> ParseState {
    ParseState { style: base, buf: Seq::empty(), spans: Seq::empty(), lines: Seq::empty() }
}

pub proof fn lemma_csi_end_bounds(cs: Seq<char>, j: int)
    requires
        0 <= j,
    ensures
        j <= csi_end(cs, j) <= cs.len() || (j > cs.len() && csi_end(cs, j) == cs.len()),
        csi_end(cs, j) < cs.len() ==> csi_final(cs[csi_end(cs, j)]),
        forall|k: int| j <= k < csi_end(cs, j) ==> !csi_final(#[trigger] cs[k]),
    decreases cs.len() - j,
{
    if j < cs.len() && !csi_final(cs[j]) {
        lemma_csi_end_bounds(cs, j + 1);
    }
}

pub proof fn lemma_osc_end_bounds(cs: Seq<char>, j: int)
    requires
        0 <= j,
    ensures
        j <= osc_end(cs, j) <= cs.len() || (j > cs.len() && osc_end(cs, j) == cs.len()),
    decreases cs.len() - j,
{
    if j < cs.len() && cs[j] != '\x07' && !(cs[j] == '\x1b' && j + 1 < cs.len() && cs[j + 1]
        == '\\') {
        lemma_osc_end_bounds(cs, j + 1);
    }
}

fn basic_color(index: u16, bright: bool) -> (c: Color)
    ensures
        c == basic_color_of(index, bright),
{
    if !bright {
        if index == 0 {
            Color::Black
        } else if index == 1 {
            Color::Red
        } else if index == 2 {
            Color::Green
        } else if index == 3 {
            Color::Yellow
        } else if index == 4 {
            Color::Blue
        } else if index == 5 {
            Color::Magenta
        } else if index == 6 {
            Color::Cyan
        } else if index == 7 {
            Color::Gray
        } else {
            Color::White
        }
    } else {
        if index == 0 {
            Color::DarkGray
        } else if index == 1 {
            Color::LightRed
        } else if index == 2 {
            Color::LightGreen
        } else if index == 3 {
            Color::LightYellow
        } else if index == 4 {
            Color::LightBlue
        } else if index == 5 {
            Color::LightMagenta
        } else if index == 6 {
            Color::LightCyan
        } else {
            Color::White
        }
    }
}

fn add_bits(s: Style, m: u16) -> (r: Style)
    ensures
        r == with_added(s, m),
{
    Style {
        add_modifier: Modifier { bits: s.add_modifier.bits | m },
        sub_modifier: Modifier { bits: s.sub_modifier.bits & !m },
        ..s
    }
}

fn remove_bits(s: Style, m: u16) -> (r: Style)
    ensures
        r == with_removed(s, m),
{
    Style {
        add_modifier: Modifier { bits: s.add_modifier.bits & !m },
        sub_modifier: Modifier { bits: s.sub_modifier.bits | m },
        ..s
    }
}

fn effect(s: Style, base: Style, c: u16) -> (r: Style)
    ensures
        r == code_effect(s, base, c),
{
    if c == 0 {
        base
    } else if 1 <= c && c <= 9 {
        add_bits(s, 1u16 << (c - 1))
    } else if c == 22 {
        remove_bits(s, 0x1)
    } else if c == 23 {
        remove_bits(s, 0x4)
    } else if c == 24 {
        remove_bits(s, 0x8)
    } else if c == 25 {
        remove_bits(s, 0x30)
    } else if c == 27 {
        remove_bits(s, 0x40)
    } else if c == 28 {
        remove_bits(s, 0x80)
    } else if c == 29 {
        remove_bits(s, 0x100)
    } else if 30 <= c && c <= 37 {
        Style { fg: Some(basic_color(c - 30, false)), ..s }
    } else if c == 39 {
        Style { fg: base.fg, ..s }
    } else if 40 <= c && c <= 47 {
        Style { bg: Some(basic_color(c - 40, false)), ..s }
    } else if c == 49 {
        Style { bg: base.bg, ..s }
    } else if 90 <= c && c <= 97 {
        Style { fg: Some(basic_color(c - 90, true)), ..s }
    } else if 100 <= c && c <= 107 {
        Style { bg: Some(basic_color(c - 100, true)), ..s }
    } else {
        s
    }
}

/// The style after the SGR codes `codes`.
fn apply_sgr_codes(s: Style, base: Style, codes: &Vec<u16>) -> (r: Style)
    ensures
        r == apply_codes(s, base, codes@, 0),
{
    let n = codes.len();
    let mut style = s;
    let mut i: usize = 0;
    while i < n
        invariant
            i <= n,
            n == codes@.len(),
            apply_codes(s, base, codes@, 0) == apply_codes(style, base, codes@, i as int),
        decreases n - i,
    {
        let c = codes[i];
        if c == 38 || c == 48 {
            if n - i > 2 && codes[i + 1] == 5 {
                let color = Color::Indexed(codes[i + 2] as u8);
                style = if c == 38 {
                    Style { fg: Some(color), ..style }
                } else {
                    Style { bg: Some(color), ..style }
                };
                i = i + 3;
            } else if n - i > 4 && codes[i + 1] == 2 {
                let color = Color::Rgb(codes[i + 2] as u8, codes[i + 3] as u8, codes[i + 4] as u8);
                style = if c == 38 {
                    Style { fg: Some(color), ..style }
                } else {
                    Style { bg: Some(color), ..style }
                };
                i = i + 5;
            } else {
                i = i + 1;
            }
        } else {
            style = effect(style, base, c);
            i = i + 1;
        }
    }
    style
}

/// The codes of an SGR sequence's parameters (see [`sgr_codes`]).
fn sgr_code_list(params: &Vec<char>) -> (r: Vec<u16>)
    ensures
        r@ == sgr_codes(params@),
{
    let mut codes: Vec<u16> = Vec::new();
    if params.len() == 0 {
        codes.push(0);
        assert(codes@ =~= seq![0u16]);
        return codes;
    }
    let mut cur: Vec<char> = Vec::new();
    let mut i: usize = 0;
    assert(params@.take(0) =~= Seq::<char>::empty());
    while i < params.len()
        invariant
            i <= params.len(),
            codes@ == parsed_codes(split_on(params@.take(i as int), ';').drop_last()),
            cur@ == split_on(params@.take(i as int), ';').last(),
            split_on(params@.take(i as int), ';').len() >= 1,
        decreases params.len() - i,
    {
        let ghost t = params@.take(i + 1);
        let ghost ps = split_on(params@.take(i as int), ';');
        assert(t.drop_last() =~= params@.take(i as int));
        assert(t.last() == params@[i as int]);
        if params[i] == ';' {
            match parse_unsigned(&cur, 65535) {
                Some(v) => codes.push(v as u16),
                None => {},
            }
            cur = Vec::new();
            assert(split_on(t, ';') == ps.push(Seq::empty()));
            assert(split_on(t, ';').drop_last() =~= ps);
            assert(ps =~= ps.drop_last().push(ps.last()));
            assert(cur@ =~= split_on(t, ';').last());
        } else {
            cur.push(params[i]);
            assert(split_on(t, ';') == ps.update(ps.len() - 1, ps.last().push(params@[i as int])));
            assert(split_on(t, ';').drop_last() =~= ps.drop_last());
        }
        i += 1;
    }
    assert(params@.take(params.len() as int) =~= params@);
    let ghost ps = split_on(params@, ';');
    match parse_unsigned(&cur, 65535) {
        Some(v) => codes.push(v as u16),
        None => {},
    }
    assert(ps =~= ps.drop_last().push(ps.last()));
    codes
}

fn push_line(lines: &mut Vec<Line>, spans: Vec<Span>)
    ensures
        final(lines)@.map_values(|l: Line| l.spans@.map_values(|s: Span| (s.content@, s.style)))
            == old(lines)@.map_values(
            |l: Line| l.spans@.map_values(|s: Span| (s.content@, s.style)),
        ).push(spans@.map_values(|s: Span| (s.content@, s.style))),
{
    let ghost before = lines@.map_values(
        |l: Line| l.spans@.map_values(|s: Span| (s.content@, s.style)),
    );
    lines.push(Line { spans });
    assert(lines@.map_values(|l: Line| l.spans@.map_values(|s: Span| (s.content@, s.style)))
        =~= before.push(lines@[lines@.len() - 1].spans@.map_values(|s: Span| (s.content@, s.style))));
}

fn flush(buf: &mut Vec<char>, spans: &mut Vec<Span>, style: Style)
    ensures
        ({
            let f = flushed(
                ParseState {
                    style,
                    buf: old(buf)@,
                    spans: old(spans)@.map_values(|s: Span| (s.content@, s.style)),
                    lines: Seq::empty(),
                },
            );
            &&& final(buf)@ == f.buf
            &&& final(spans)@.map_values(|s: Span| (s.content@, s.style)) == f.spans
        }),
{
    if buf.len() > 0 {
        let ghost before = spans@.map_values(|s: Span| (s.content@, s.style));
        let content = crate::text::string_of(buf);
        spans.push(Span { content, style });
        *buf = Vec::new();
        assert(spans@.map_values(|s: Span| (s.content@, s.style)) =~= before.push((old(buf)@, style)));
        assert(buf@ =~= Seq::<char>::empty());
    }
}

/// The styled text of `input`, starting in style `base` (see [`scan`]).
#[verifier::rlimit(50)]
pub fn ansi_text(input: &str, base: Style) -> (t: Text)
    ensures
        t@ == scan(input@, base, 0, start_state(base)),
{
    let cs = crate::text::chars_of(input);
    let n = cs.len();
    let mut style = base;
    let mut buf: Vec<char> = Vec::new();
    let mut spans: Vec<Span> = Vec::new();
    let mut lines: Vec<Line> = Vec::new();
    let mut i: usize = 0;
    assert(lines@.map_values(|l: Line| l.spans@.map_values(|s: Span| (s.content@, s.style)))
        =~= Seq::<Seq<SpanView>>::empty());
    assert(spans@.map_values(|s: Span| (s.content@, s.style)) =~= Seq::<SpanView>::empty());
    while i < n
        invariant
            i <= n,
            n == cs@.len(),
            cs@ == input@,
            scan(cs@, base, 0, start_state(base)) == scan(
                cs@,
                base,
                i as int,
                ParseState {
                    style,
                    buf: buf@,
                    spans: spans@.map_values(|s: Span| (s.content@, s.style)),
                    lines: lines@.map_values(
                        |l: Line| l.spans@.map_values(|s: Span| (s.content@, s.style)),
                    ),
                },
            ),
        decreases n - i,
    {
        let ghost st = ParseState {
            style,
            buf: buf@,
            spans: spans@.map_values(|s: Span| (s.content@, s.style)),
            lines: lines@.map_values(|l: Line| l.spans@.map_values(|s: Span| (s.content@, s.style))),
        };
        let c = cs[i];
        if c == '\x1b' && i + 1 < n {
            flush(&mut buf, &mut spans, style);
            let ghost f = flushed(st);
            assert(f == ParseState {
                style,
                buf: buf@,
                spans: spans@.map_values(|s: Span| (s.content@, s.style)),
                lines: lines@.map_values(|l: Line| l.spans@.map_values(|s: Span| (s.content@, s.style))),
            });
            if cs[i + 1] == '[' {
                let (e, sgr) = csi_at(&cs, i + 2);
                if sgr {
                    let params = subrange_chars(&cs, i + 2, e);
                    let codes = sgr_code_list(&params);
                    style = apply_sgr_codes(style, base, &codes);
                }
                proof {
                    lemma_scan_csi(cs@, base, i as int, st);
                }
                i = if e < n {
                    e + 1
                } else {
                    n
                };
            } else if cs[i + 1] == ']' {
                let e = osc_at(&cs, i + 2);
                proof {
                    lemma_scan_osc(cs@, base, i as int, st);
                }
                i = if e < n {
                    e + 1
                } else {
                    n
                };
            } else {
                i = i + 1;
            }
        } else if c == '\r' {
            i = i + 1;
        } else if c == '\t' {
            let ghost before = buf@;
            buf.push(' ');
            buf.push(' ');
            buf.push(' ');
            buf.push(' ');
            assert(buf@ =~= before + seq![' ', ' ', ' ', ' ']);
            i = i + 1;
        } else if c == '\n' {
            flush(&mut buf, &mut spans, style);
            let done = spans;
            spans = Vec::new();
            push_line(&mut lines, done);
            assert(spans@.map_values(|s: Span| (s.content@, s.style)) =~= Seq::<SpanView>::empty());
            i = i + 1;
        } else {
            buf.push(c);
            i = i + 1;
        }
    }
    flush(&mut buf, &mut spans, style);
    push_line(&mut lines, spans);
    Text { lines }
}

/// Scans a CSI sequence whose parameters start at `j`: where it ends, and
/// whether it is an SGR sequence.
fn csi_at(cs: &Vec<char>, j: usize) -> (r: (usize, bool))
    requires
        j <= cs@.len(),
    ensures
        r.0 == csi_end(cs@, j as int),
        j <= r.0 <= cs@.len(),
        r.1 == (r.0 < cs@.len() && cs@[r.0 as int] == 'm'),
{
    let n = cs.len();
    let mut k = j;
    proof {
        lemma_csi_end_bounds(cs@, j as int);
    }
    while k < n && !('@' <= cs[k] && cs[k] <= '~')
        invariant
            j <= k <= n,
            n == cs@.len(),
            csi_end(cs@, j as int) == csi_end(cs@, k as int),
        decreases n - k,
    {
        k += 1;
    }
    (k, k < n && cs[k] == 'm')
}

/// Scans an OSC sequence whose body starts at `j`: its last character.
fn osc_at(cs: &Vec<char>, j: usize) -> (e: usize)
    requires
        j <= cs@.len(),
    ensures
        e == osc_end(cs@, j as int),
{
    let n = cs.len();
    let mut k = j;
    while k < n && cs[k] != '\x07' && !(cs[k] == '\x1b' && k + 1 < n && cs[k + 1] == '\\')
        invariant
            j <= k <= n,
            n == cs@.len(),
            osc_end(cs@, j as int) == osc_end(cs@, k as int),
        decreases n - k,
    {
        k += 1;
    }
    if k < n && cs[k] != '\x07' {
        k + 1
    } else {
        k
    }
}

/// The characters `cs[lo..hi]`.
fn subrange_chars(cs: &Vec<char>, lo: usize, hi: usize) -> (r: Vec<char>)
    requires
        lo <= hi <= cs@.len(),
    ensures
        r@ == cs@.subrange(lo as int, hi as int),
{
    let mut r: Vec<char> = Vec::new();
    let mut k = lo;
    while k < hi
        invariant
            lo <= k <= hi,
            hi <= cs@.len(),
            r@ == cs@.subrange(lo as int, k as int),
        decreases hi - k,
    {
        r.push(cs[k]);
        assert(cs@.subrange(lo as int, k + 1) =~= cs@.subrange(lo as int, k as int).push(cs@[k as int]));
        k += 1;
    }
    r
}

proof fn lemma_scan_csi(cs: Seq<char>, base: Style, i: int, st: ParseState)
    requires
        0 <= i,
        i + 1 < cs.len(),
        cs[i] == '\x1b',
        cs[i + 1] == '[',
    ensures
        ({
            let f = flushed(st);
            let e = csi_end(cs, i + 2);
            let g = if e < cs.len() && cs[e] == 'm' {
                ParseState {
                    style: apply_codes(f.style, base, sgr_codes(cs.subrange(i + 2, e)), 0),
                    ..f
                }
            } else {
                f
            };
            &&& scan(cs, base, i, st) == scan(cs, base, if e < cs.len() { e + 1 } else { cs.len() as int }, g)
            &&& i + 2 <= e <= cs.len()
        }),
{
    lemma_csi_end_bounds(cs, i + 2);
}

proof fn lemma_scan_osc(cs: Seq<char>, base: Style, i: int, st: ParseState)
    requires
        0 <= i,
        i + 1 < cs.len(),
        cs[i] == '\x1b',
        cs[i + 1] == ']',
    ensures
        ({
            let e = osc_end(cs, i + 2);
            &&& scan(cs, base, i, st) == scan(cs, base, if e < cs.len() { e + 1 } else { cs.len() as int }, flushed(st))
            &&& i + 2 <= e <= cs.len()
        }),
{
    lemma_osc_end_bounds(cs, i + 2);
}

} // verus!
