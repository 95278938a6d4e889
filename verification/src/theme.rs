//! Colour themes: the built-in palettes, and `#RRGGBB` colour parsing.
use vstd::prelude::*;
use crate::input::{byte_len, char_len};
use crate::text::{chars_of, same_text, trim, trim_chars};

verus! {

/// A terminal colour.
#[derive(Debug, Clone, Copy, PartialEq, Eq, Structural)]
pub enum Color {
    Reset,
    Black,
    Red,
    Green,
    Yellow,
    Blue,
    Magenta,
    Cyan,
    Gray,
    DarkGray,
    LightRed,
    LightGreen,
    LightYellow,
    LightBlue,
    LightMagenta,
    LightCyan,
    White,
    Rgb(u8, u8, u8),
    Indexed(u8),
}

/// Why a colour does not parse.
#[derive(Debug, Clone, Copy, PartialEq, Eq, Structural)]
pub enum ColorError {
    /// It does not start with `#`.
    MissingHash,
    /// What follows `#` is not six bytes long.
    WrongLength,
    /// A channel is not a hexadecimal number.
    InvalidDigit,
}

/// The value of a hexadecimal digit character.
pub open spec fn hex_value(c: char) -> Option<nat> {
    if '0' <= c <= '9' {
        Some(((c as u32) - 48) as nat)
    } else if 'a' <= c <= 'f' {
        Some(((c as u32) - 87) as nat)
    } else if 'A' <= c <= 'F' {
        Some(((c as u32) - 55) as nat)
    } else {
        None
    }
}

/// A two-character channel as the standard base-16 parser reads it: two
/// hex digits, or `+` and one hex digit.
pub open spec fn channel_value(a: char, b: char) -> Option<u8> {
    match (hex_value(a), hex_value(b)) {
        (Some(x), Some(y)) => Some((x * 16 + y) as u8),
        (None, Some(y)) => if a == '+' {
            Some(y as u8)
        } else {
            None
        },
        _ => None,
    }
}

/// The result of parsing `#RRGGBB` (surrounding blanks allowed).
#[verifier::opaque]
pub open spec fn parse_hex_spec(v: Seq<char>) -> Result<(u8, u8, u8), ColorError> {
    let t = trim(v);
    if !(t.len() > 0 && t[0] == '#') {
        Err(ColorError::MissingHash)
    } else {
        let h = t.drop_first();
        if byte_len(h) != 6 {
            Err(ColorError::WrongLength)
        } else if h.len() == 6 {
            match (channel_value(h[0], h[1]), channel_value(h[2], h[3]), channel_value(h[4], h[5])) {
                (Some(r), Some(g), Some(b)) => Ok((r, g, b)),
                _ => Err(ColorError::InvalidDigit),
            }
        } else {
            Err(ColorError::InvalidDigit)
        }
    }
}

/// Some prefix of `h` is exactly `n` bytes long.
pub open spec fn has_byte_boundary(h: Seq<char>, n: int) -> bool {
    exists|k: int| 0 <= k <= h.len() && byte_len(h.take(k)) == n
}

/// Parsing reads the channels as byte ranges `0..2`, `2..4` and `4..6` of the
/// text after `#`, one after the other; it aborts when such a range does not
/// start or end on a character boundary. This holds of the inputs on which it
/// would.
#[verifier::opaque]
pub open spec fn hex_slicing_fails(v: Seq<char>) -> bool {
    let t = trim(v);
    let h = t.drop_first();
    &&& t.len() > 0
    &&& t[0] == '#'
    &&& byte_len(h) == 6
    &&& (!has_byte_boundary(h, 2) || (h.len() >= 2 && channel_value(h[0], h[1]) is Some
        && !has_byte_boundary(h, 4)))
}

fn hex_digit(c: char) -> (r: Option<u8>)
    ensures
        r matches Some(d) ==> hex_value(c) == Some(d as nat),
        r is None ==> hex_value(c) is None,
{
    if '0' <= c && c <= '9' {
        Some((c as u32 - 48) as u8)
    } else if 'a' <= c && c <= 'f' {
        Some((c as u32 - 87) as u8)
    } else if 'A' <= c && c <= 'F' {
        Some((c as u32 - 55) as u8)
    } else {
        None
    }
}

fn channel(a: char, b: char) -> (r: Option<u8>)
    ensures
        r == channel_value(a, b),
{
    match (hex_digit(a), hex_digit(b)) {
        (Some(x), Some(y)) => Some(x * 16 + y),
        (None, Some(y)) => if a == '+' {
            Some(y)
        } else {
            None
        },
        _ => None,
    }
}

/// The UTF-8 size of `h`, or any value above 6 when it is larger than 6.
fn small_byte_len(h: &Vec<char>) -> (n: usize)
    ensures
        n <= 6 ==> n == byte_len(h@),
        n > 6 ==> byte_len(h@) > 6,
{
    let mut acc: usize = 0;
    let mut i: usize = 0;
    assert(h@.take(0) =~= Seq::<char>::empty());
    assert(vstd::utf8::encode_utf8(Seq::<char>::empty()) =~= Seq::<u8>::empty());
    while i < h.len()
        invariant
            i <= h.len(),
            acc <= 6,
            acc == byte_len(h@.take(i as int)),
        decreases h.len() - i,
    {
        let u = h[i] as u32;
        let w: usize = if u <= 0x7F {
            1
        } else if u <= 0x7FF {
            2
        } else if u <= 0xFFFF {
            3
        } else {
            4
        };
        proof {
            vstd::utf8::char_is_scalar(h@[i as int]);
            assert(w == char_len(h@[i as int]));
            assert(h@.take(i + 1) =~= h@.take(i as int).push(h@[i as int]));
            crate::input::lemma_byte_len_push(h@.take(i as int), h@[i as int]);
        }
        if acc + w > 6 {
            proof {
                if i + 1 < h.len() {
                    crate::input::lemma_prefix_bytes_le(h@, i + 1);
                } else {
                    assert(h@.take(i + 1) =~= h@);
                }
            }
            return 7;
        }
        acc = acc + w;
        i += 1;
    }
    assert(h@.take(i as int) =~= h@);
    acc
}

/// Parses `#RRGGBB` (blanks around it allowed) into a colour.
pub fn parse_hex(value: &str) -> (r: Result<Color, ColorError>)
    requires
        !hex_slicing_fails(value@),
    ensures
        match (r, parse_hex_spec(value@)) {
            (Ok(c), Ok((red, green, blue))) => c == Color::Rgb(red, green, blue),
            (Err(e), Err(f)) => e == f,
            _ => false,
        },
{
    reveal(parse_hex_spec);
    let cs = chars_of(value);
    let t = trim_chars(&cs);
    if !(t.len() > 0 && t[0] == '#') {
        return Err(ColorError::MissingHash);
    }
    let mut h: Vec<char> = Vec::new();
    let mut i: usize = 1;
    while i < t.len()
        invariant
            1 <= i <= t.len(),
            h@ == t@.subrange(1, i as int),
        decreases t.len() - i,
    {
        h.push(t[i]);
        assert(t@.subrange(1, i + 1) =~= t@.subrange(1, i as int).push(t@[i as int]));
        i += 1;
    }
    assert(h@ =~= t@.drop_first());
    let n = small_byte_len(&h);
    if n != 6 {
        return Err(ColorError::WrongLength);
    }
    if h.len() != 6 {
        return Err(ColorError::InvalidDigit);
    }
    match (channel(h[0], h[1]), channel(h[2], h[3]), channel(h[4], h[5])) {
        (Some(r), Some(g), Some(b)) => Ok(Color::Rgb(r, g, b)),
        _ => Err(ColorError::InvalidDigit),
    }
}

/// Whether parsing `value` as a colour would abort (see `hex_slicing_fails`).
pub fn hex_parse_aborts(value: &str) -> (b: bool)
    ensures
        b == hex_slicing_fails(value@),
{
    reveal(hex_slicing_fails);
    let cs = chars_of(value);
    let t = trim_chars(&cs);
    if !(t.len() > 0 && t[0] == '#') {
        return false;
    }
    let mut h: Vec<char> = Vec::new();
    let mut i: usize = 1;
    while i < t.len()
        invariant
            1 <= i <= t.len(),
            h@ == t@.subrange(1, i as int),
        decreases t.len() - i,
    {
        h.push(t[i]);
        assert(t@.subrange(1, i + 1) =~= t@.subrange(1, i as int).push(t@[i as int]));
        i += 1;
    }
    assert(h@ =~= t@.drop_first());
    if small_byte_len(&h) != 6 {
        return false;
    }
    let b2 = boundary_at(&h, 2);
    if !b2 {
        return true;
    }
    let first_ok = h.len() >= 2 && channel(h[0], h[1]).is_some();
    first_ok && !boundary_at(&h, 4)
}

/// Whether some prefix of `h` is exactly `n` bytes long, for `h` of six bytes.
fn boundary_at(h: &Vec<char>, n: usize) -> (b: bool)
    requires
        byte_len(h@) == 6,
        n <= 6,
    ensures
        b == has_byte_boundary(h@, n as int),
{
    let mut acc: usize = 0;
    let mut i: usize = 0;
    assert(h@.take(0) =~= Seq::<char>::empty());
    assert(vstd::utf8::encode_utf8(Seq::<char>::empty()) =~= Seq::<u8>::empty());
    while i < h.len() && acc < n
        invariant
            i <= h.len(),
            acc <= n,
            acc == byte_len(h@.take(i as int)),
            byte_len(h@) == 6,
            n <= 6,
        decreases h.len() - i,
    {
        proof {
            vstd::utf8::char_is_scalar(h@[i as int]);
            assert(h@.take(i + 1) =~= h@.take(i as int).push(h@[i as int]));
            crate::input::lemma_byte_len_push(h@.take(i as int), h@[i as int]);
            crate::input::lemma_prefix_bytes_le(h@, i + 1);
        }
        let u = h[i] as u32;
        let w: usize = if u <= 0x7F {
            1
        } else if u <= 0x7FF {
            2
        } else if u <= 0xFFFF {
            3
        } else {
            4
        };
        assert(w == char_len(h@[i as int]));
        if acc + w > n {
            proof {
                assert forall|k: int| 0 <= k <= h@.len() implies byte_len(#[trigger] h@.take(k))
                    != n by {
                    if k <= i {
                        if k < i {
                            crate::input::lemma_prefix_bytes_increase(h@, k, i as int);
                        }
                    } else {
                        if k > i + 1 {
                            crate::input::lemma_prefix_bytes_increase(h@, i + 1, k);
                        }
                    }
                }
            }
            return false;
        }
        acc = acc + w;
        i += 1;
    }
    if acc == n {
        assert(byte_len(h@.take(i as int)) == n);
        return true;
    }
    proof {
        assert(i == h.len());
        assert(h@.take(i as int) =~= h@);
        assert forall|k: int| 0 <= k <= h@.len() implies byte_len(#[trigger] h@.take(k)) != n by {
            if k < i {
                crate::input::lemma_prefix_bytes_increase(h@, k, i as int);
            }
        }
    }
    false
}

/// The colours of a theme as written in a theme file.
#[derive(Debug, Clone, PartialEq, Eq)]
pub struct ThemeFile {
    pub name: String,
    pub accent: String,
    pub accent_muted: String,
    pub foreground: String,
    pub muted: String,
    pub background: String,
    pub panel: String,
    pub border: String,
    pub border_focused: String,
    pub success: String,
    pub warning: String,
    pub error: String,
}

/// The colour entries of a theme file, in the order they are parsed.
pub open spec fn color_fields(f: ThemeFile) -> Seq<Seq<char>> {
    seq![
        f.accent@,
        f.accent_muted@,
        f.foreground@,
        f.muted@,
        f.background@,
        f.panel@,
        f.border@,
        f.border_focused@,
        f.success@,
        f.warning@,
        f.error@,
    ]
}

/// The colour `v` names (meaningful when it parses).
pub open spec fn spec_color(v: Seq<char>) -> Color {
    match parse_hex_spec(v) {
        Ok((r, g, b)) => Color::Rgb(r, g, b),
        Err(_) => Color::Reset,
    }
}

/// The error of the first entry of `fs` that does not parse, if any.
pub open spec fn first_color_error(fs: Seq<Seq<char>>) -> Option<ColorError>
    decreases fs.len(),
{
    if fs.len() == 0 {
        None
    } else {
        match parse_hex_spec(fs[0]) {
            Err(e) => Some(e),
            Ok(_) => first_color_error(fs.drop_first()),
        }
    }
}

/// Parsing the entries in order would abort at one of them (see
/// `hex_slicing_fails`) before any entry fails.
pub open spec fn theme_parse_aborts(fs: Seq<Seq<char>>) -> bool {
    exists|j: int|
        0 <= j < fs.len() && hex_slicing_fails(#[trigger] fs[j]) && forall|i: int|
            0 <= i < j ==> parse_hex_spec(#[trigger] fs[i]) is Ok
}

/// A theme: its file and the colours parsed from it.
#[derive(Debug, Clone)]
pub struct Theme {
    pub file: ThemeFile,
    pub accent: Color,
    pub accent_muted: Color,
    pub foreground: Color,
    pub muted: Color,
    pub background: Color,
    pub panel: Color,
    pub border: Color,
    pub border_focused: Color,
    pub success: Color,
    pub warning: Color,
    pub error: Color,
}

/// The colours of a theme, in the order of `color_fields`.
pub open spec fn theme_colors(t: Theme) -> Seq<Color> {
    seq![
        t.accent,
        t.accent_muted,
        t.foreground,
        t.muted,
        t.background,
        t.panel,
        t.border,
        t.border_focused,
        t.success,
        t.warning,
        t.error,
    ]
}

/// Why a theme cannot be had.
#[derive(Debug, Clone, PartialEq, Eq)]
pub enum ThemeError {
    UnknownTheme(String),
    BadColor(ColorError),
}

proof fn lemma_first_error_step(fs: Seq<Seq<char>>, j: int)
    requires
        0 <= j < fs.len(),
        forall|i: int| 0 <= i < j ==> parse_hex_spec(#[trigger] fs[i]) is Ok,
    ensures
        first_color_error(fs) == match parse_hex_spec(fs[j]) {
            Err(e) => Some(e),
            Ok(_) => first_color_error(fs.skip(j + 1)),
        },
    decreases j,
{
    if j > 0 {
        assert(parse_hex_spec(fs[0]) is Ok);
        assert forall|i: int| 0 <= i < j - 1 implies parse_hex_spec(
            #[trigger] fs.drop_first()[i],
        ) is Ok by {
            assert(fs.drop_first()[i] == fs[i + 1]);
        }
        lemma_first_error_step(fs.drop_first(), j - 1);
        assert(fs.drop_first().skip(j) =~= fs.skip(j + 1));
    }
}

/// The `k`-th colour entry of a theme file.
fn field_at(file: &ThemeFile, k: usize) -> (v: &String)
    requires
        k < 11,
    ensures
        v@ == color_fields(*file)[k as int],
{
    if k == 0 {
        &file.accent
    } else if k == 1 {
        &file.accent_muted
    } else if k == 2 {
        &file.foreground
    } else if k == 3 {
        &file.muted
    } else if k == 4 {
        &file.background
    } else if k == 5 {
        &file.panel
    } else if k == 6 {
        &file.border
    } else if k == 7 {
        &file.border_focused
    } else if k == 8 {
        &file.success
    } else if k == 9 {
        &file.warning
    } else {
        &file.error
    }
}

impl Theme {
    /// The theme whose colours are parsed from `file`; the first colour that
    /// does not parse (in the order of `color_fields`) gives the error.
    pub fn from_file(file: ThemeFile) -> (r: Result<Theme, ColorError>)
        requires
            !theme_parse_aborts(color_fields(file)),
        ensures
            match r {
                Ok(t) => first_color_error(color_fields(file)) is None && t.file == file
                    && theme_colors(t) == color_fields(file).map_values(|v: Seq<char>| spec_color(v)),
                Err(e) => first_color_error(color_fields(file)) == Some(e),
            },
    {
        let ghost fs = color_fields(file);
        let mut colors: Vec<Color> = Vec::new();
        let mut k: usize = 0;
        while k < 11
            invariant
                k <= 11,
                fs == color_fields(file),
                !theme_parse_aborts(fs),
                colors@.len() == k,
                forall|i: int| 0 <= i < k ==> parse_hex_spec(#[trigger] fs[i]) is Ok,
                forall|i: int| 0 <= i < k ==> #[trigger] colors@[i] == spec_color(fs[i]),
            decreases 11 - k,
        {
            let v = field_at(&file, k);
            assert(v@ == fs[k as int]);
            assert(!hex_slicing_fails(fs[k as int]));
            match parse_hex(v.as_str()) {
                Ok(c) => {
                    colors.push(c);
                },
                Err(e) => {
                    proof {
                        lemma_first_error_step(fs, k as int);
                    }
                    return Err(e);
                },
            }
            k += 1;
        }
        proof {
            lemma_first_error_step(fs, 10);
            assert(fs.skip(11).len() == 0);
        }
        let t = Theme {
            accent: colors[0],
            accent_muted: colors[1],
            foreground: colors[2],
            muted: colors[3],
            background: colors[4],
            panel: colors[5],
            border: colors[6],
            border_focused: colors[7],
            success: colors[8],
            warning: colors[9],
            error: colors[10],
            file,
        };
        assert(theme_colors(t) =~= fs.map_values(|v: Seq<char>| spec_color(v)));
        Ok(t)
    }

    /// Whether parsing the colours of `file` would abort (see
    /// `theme_parse_aborts`).
    pub fn file_aborts(file: &ThemeFile) -> (b: bool)
        ensures
            b == theme_parse_aborts(color_fields(*file)),
    {
        let ghost fs = color_fields(*file);
        let mut k: usize = 0;
        while k < 11
            invariant
                k <= 11,
                fs == color_fields(*file),
                forall|i: int| 0 <= i < k ==> parse_hex_spec(#[trigger] fs[i]) is Ok,
                forall|i: int| 0 <= i < k ==> !hex_slicing_fails(#[trigger] fs[i]),
            decreases 11 - k,
        {
            let v = field_at(file, k);
            if hex_parse_aborts(v.as_str()) {
                assert(hex_slicing_fails(fs[k as int]));
                return true;
            }
            match parse_hex(v.as_str()) {
                Ok(_) => {},
                Err(_) => {
                    assert forall|j: int| 0 <= j < fs.len() && hex_slicing_fails(#[trigger] fs[j])
                        implies !(forall|i: int| 0 <= i < j ==> parse_hex_spec(#[trigger] fs[i]) is Ok) by {
                        if j > k {
                            assert(parse_hex_spec(fs[k as int]) is Err);
                        }
                    }
                    return false;
                },
            }
            k += 1;
        }
        false
    }

    /// One of the built-in themes `default`, `catppuccin`, `nord`, `dracula`
    /// and `monochrome`; any other name is an error.
    pub fn named(name: &str) -> (r: Result<Theme, ThemeError>)
        ensures
            match builtin_colors(name@) {
                Some(cs) => r matches Ok(t) && t.file.name@ == name@ && color_fields(t.file) == cs
                    && theme_colors(t) == cs.map_values(|v: Seq<char>| spec_color(v)),
                None => r matches Err(ThemeError::UnknownTheme(n)) && n@ == name@,
            },
    {
        let file =     if same_text(name, "default") {
                proof {
                    reveal_strlit("default");
                    reveal_strlit("#7dd3fc");
                    reveal_strlit("#155e75");
                    reveal_strlit("#e2e8f0");
                    reveal_strlit("#94a3b8");
                    reveal_strlit("#0f172a");
                    reveal_strlit("#111827");
                    reveal_strlit("#334155");
                    reveal_strlit("#7dd3fc");
                    reveal_strlit("#86efac");
                    reveal_strlit("#fde68a");
                    reveal_strlit("#fca5a5");
                }
                ThemeFile {
                    name: "default".to_string(),
                    accent: "#7dd3fc".to_string(),
                    accent_muted: "#155e75".to_string(),
                    foreground: "#e2e8f0".to_string(),
                    muted: "#94a3b8".to_string(),
                    background: "#0f172a".to_string(),
                    panel: "#111827".to_string(),
                    border: "#334155".to_string(),
                    border_focused: "#7dd3fc".to_string(),
                    success: "#86efac".to_string(),
                    warning: "#fde68a".to_string(),
                    error: "#fca5a5".to_string(),
                }
            } else if same_text(name, "catppuccin") {
                proof {
                    reveal_strlit("catppuccin");
                    reveal_strlit("#89b4fa");
                    reveal_strlit("#585b70");
                    reveal_strlit("#cdd6f4");
                    reveal_strlit("#6c7086");
                    reveal_strlit("#11111b");
                    reveal_strlit("#181825");
                    reveal_strlit("#313244");
                    reveal_strlit("#89b4fa");
                    reveal_strlit("#a6e3a1");
                    reveal_strlit("#f9e2af");
                    reveal_strlit("#f38ba8");
                }
                ThemeFile {
                    name: "catppuccin".to_string(),
                    accent: "#89b4fa".to_string(),
                    accent_muted: "#585b70".to_string(),
                    foreground: "#cdd6f4".to_string(),
                    muted: "#6c7086".to_string(),
                    background: "#11111b".to_string(),
                    panel: "#181825".to_string(),
                    border: "#313244".to_string(),
                    border_focused: "#89b4fa".to_string(),
                    success: "#a6e3a1".to_string(),
                    warning: "#f9e2af".to_string(),
                    error: "#f38ba8".to_string(),
                }
            } else if same_text(name, "nord") {
                proof {
                    reveal_strlit("nord");
                    reveal_strlit("#88c0d0");
                    reveal_strlit("#4c566a");
                    reveal_strlit("#e5e9f0");
                    reveal_strlit("#81a1c1");
                    reveal_strlit("#2e3440");
                    reveal_strlit("#3b4252");
                    reveal_strlit("#4c566a");
                    reveal_strlit("#88c0d0");
                    reveal_strlit("#a3be8c");
                    reveal_strlit("#ebcb8b");
                    reveal_strlit("#bf616a");
                }
                ThemeFile {
                    name: "nord".to_string(),
                    accent: "#88c0d0".to_string(),
                    accent_muted: "#4c566a".to_string(),
                    foreground: "#e5e9f0".to_string(),
                    muted: "#81a1c1".to_string(),
                    background: "#2e3440".to_string(),
                    panel: "#3b4252".to_string(),
                    border: "#4c566a".to_string(),
                    border_focused: "#88c0d0".to_string(),
                    success: "#a3be8c".to_string(),
                    warning: "#ebcb8b".to_string(),
                    error: "#bf616a".to_string(),
                }
            } else if same_text(name, "dracula") {
                proof {
                    reveal_strlit("dracula");
                    reveal_strlit("#bd93f9");
                    reveal_strlit("#6272a4");
                    reveal_strlit("#f8f8f2");
                    reveal_strlit("#6272a4");
                    reveal_strlit("#282a36");
                    reveal_strlit("#1f2330");
                    reveal_strlit("#44475a");
                    reveal_strlit("#bd93f9");
                    reveal_strlit("#50fa7b");
                    reveal_strlit("#f1fa8c");
                    reveal_strlit("#ff5555");
                }
                ThemeFile {
                    name: "dracula".to_string(),
                    accent: "#bd93f9".to_string(),
                    accent_muted: "#6272a4".to_string(),
                    foreground: "#f8f8f2".to_string(),
                    muted: "#6272a4".to_string(),
                    background: "#282a36".to_string(),
                    panel: "#1f2330".to_string(),
                    border: "#44475a".to_string(),
                    border_focused: "#bd93f9".to_string(),
                    success: "#50fa7b".to_string(),
                    warning: "#f1fa8c".to_string(),
                    error: "#ff5555".to_string(),
                }
            } else if same_text(name, "monochrome") {
                proof {
                    reveal_strlit("monochrome");
                    reveal_strlit("#f5f5f5");
                    reveal_strlit("#737373");
                    reveal_strlit("#f5f5f5");
                    reveal_strlit("#a3a3a3");
                    reveal_strlit("#171717");
                    reveal_strlit("#262626");
                    reveal_strlit("#525252");
                    reveal_strlit("#f5f5f5");
                    reveal_strlit("#d4d4d4");
                    reveal_strlit("#a3a3a3");
                    reveal_strlit("#fafafa");
                }
                ThemeFile {
                    name: "monochrome".to_string(),
                    accent: "#f5f5f5".to_string(),
                    accent_muted: "#737373".to_string(),
                    foreground: "#f5f5f5".to_string(),
                    muted: "#a3a3a3".to_string(),
                    background: "#171717".to_string(),
                    panel: "#262626".to_string(),
                    border: "#525252".to_string(),
                    border_focused: "#f5f5f5".to_string(),
                    success: "#d4d4d4".to_string(),
                    warning: "#a3a3a3".to_string(),
                    error: "#fafafa".to_string(),
                }
            } else {
                return Err(ThemeError::UnknownTheme(name.to_string()));
            };
        proof {
            lemma_builtin_parse(color_fields(file));
        }
        match Theme::from_file(file) {
            Ok(t) => Ok(t),
            Err(e) => Err(ThemeError::BadColor(e)),
        }
    }

    /// The theme with its accent (and focused border) set to the colour
    /// `accent`, as a command-line or preset accent override does.
    pub fn with_accent(self, accent: &str) -> (r: Result<Theme, ColorError>)
        requires
            !hex_slicing_fails(accent@),
        ensures
            match (r, parse_hex_spec(accent@)) {
                (Ok(t), Ok((red, green, blue))) => t == (Theme {
                    file: ThemeFile { accent: t.file.accent, ..self.file },
                    accent: Color::Rgb(red, green, blue),
                    border_focused: Color::Rgb(red, green, blue),
                    ..self
                }) && t.file.accent@ == accent@,
                (Err(e), Err(f)) => e == f,
                _ => false,
            },
    {
        let mut theme = self;
        theme.file.accent = accent.to_string();
        let c = parse_hex(accent)?;
        theme.accent = c;
        theme.border_focused = c;
        Ok(theme)
    }
}

/// The colours of the built-in theme called `name`, in the order of
/// `color_fields`.
pub open spec fn builtin_colors(name: Seq<char>) -> Option<Seq<Seq<char>>> {
    if name == "default"@ {
        Some(seq!["#7dd3fc"@, "#155e75"@, "#e2e8f0"@, "#94a3b8"@, "#0f172a"@, "#111827"@, "#334155"@, "#7dd3fc"@, "#86efac"@, "#fde68a"@, "#fca5a5"@])
    } else if name == "catppuccin"@ {
        Some(seq!["#89b4fa"@, "#585b70"@, "#cdd6f4"@, "#6c7086"@, "#11111b"@, "#181825"@, "#313244"@, "#89b4fa"@, "#a6e3a1"@, "#f9e2af"@, "#f38ba8"@])
    } else if name == "nord"@ {
        Some(seq!["#88c0d0"@, "#4c566a"@, "#e5e9f0"@, "#81a1c1"@, "#2e3440"@, "#3b4252"@, "#4c566a"@, "#88c0d0"@, "#a3be8c"@, "#ebcb8b"@, "#bf616a"@])
    } else if name == "dracula"@ {
        Some(seq!["#bd93f9"@, "#6272a4"@, "#f8f8f2"@, "#6272a4"@, "#282a36"@, "#1f2330"@, "#44475a"@, "#bd93f9"@, "#50fa7b"@, "#f1fa8c"@, "#ff5555"@])
    } else if name == "monochrome"@ {
        Some(seq!["#f5f5f5"@, "#737373"@, "#f5f5f5"@, "#a3a3a3"@, "#171717"@, "#262626"@, "#525252"@, "#f5f5f5"@, "#d4d4d4"@, "#a3a3a3"@, "#fafafa"@])
    } else {
        None
    }
}

/// `t` is the built-in theme called `name` (see [`Theme::named`]).
pub open spec fn builtin_theme(name: Seq<char>, t: Theme) -> bool {
    match builtin_colors(name) {
        Some(cs) => t.file.name@ == name && color_fields(t.file) == cs && theme_colors(t)
            == cs.map_values(|v: Seq<char>| spec_color(v)),
        None => false,
    }
}

/// `t` is `base` with the accent `accent`, if any, applied as
/// [`Theme::with_accent`] applies it.
pub open spec fn accented(base: Theme, accent: Option<Seq<char>>, t: Theme) -> bool {
    match accent {
        None => t == base,
        Some(a) => match parse_hex_spec(a) {
            Ok((red, green, blue)) => t == (Theme {
                file: ThemeFile { accent: t.file.accent, ..base.file },
                accent: Color::Rgb(red, green, blue),
                border_focused: Color::Rgb(red, green, blue),
                ..base
            }) && t.file.accent@ == a,
            Err(_) => false,
        },
    }
}

/// A colour in the `#rrggbb` form with hexadecimal digits.
pub open spec fn plain_hex(v: Seq<char>) -> bool {
    &&& v.len() == 7
    &&& v[0] == '#'
    &&& forall|i: int| 1 <= i < 7 ==> hex_value(#[trigger] v[i]) is Some
}

proof fn lemma_plain_hex_parses(v: Seq<char>)
    requires
        plain_hex(v),
    ensures
        parse_hex_spec(v) is Ok,
        !hex_slicing_fails(v),
{
    reveal(parse_hex_spec);
    reveal(hex_slicing_fails);
    assert(!crate::text::is_ws(v[0]));
    assert(!crate::text::is_ws(v[6])) by {
        assert(hex_value(v[6]) is Some);
    }
    assert(trim(v) == v) by {
        assert(crate::text::trim_start(v) == v);
        assert(crate::text::trim_end(v) == v);
    }
    let h = v.drop_first();
    assert forall|i: int| 0 <= i < 6 implies char_len(#[trigger] h[i]) == 1 by {
        assert(h[i] == v[i + 1]);
        assert(hex_value(v[i + 1]) is Some);
    }
    lemma_ascii_bytes(h);
    assert(channel_value(h[0], h[1]) is Some) by {
        assert(h[0] == v[1]);
        assert(h[1] == v[2]);
        assert(hex_value(v[1]) is Some);
        assert(hex_value(v[2]) is Some);
    }
    assert(channel_value(h[2], h[3]) is Some) by {
        assert(h[2] == v[3]);
        assert(h[3] == v[4]);
        assert(hex_value(v[3]) is Some);
        assert(hex_value(v[4]) is Some);
    }
    assert(channel_value(h[4], h[5]) is Some) by {
        assert(h[4] == v[5]);
        assert(h[5] == v[6]);
        assert(hex_value(v[5]) is Some);
        assert(hex_value(v[6]) is Some);
    }
    assert(byte_len(h.take(2)) == 2) by {
        lemma_ascii_bytes(h.take(2));
    }
    assert(byte_len(h.take(4)) == 4) by {
        lemma_ascii_bytes(h.take(4));
    }
    assert(has_byte_boundary(h, 2));
    assert(has_byte_boundary(h, 4));
}

proof fn lemma_ascii_bytes(h: Seq<char>)
    requires
        forall|i: int| 0 <= i < h.len() ==> char_len(#[trigger] h[i]) == 1,
    ensures
        byte_len(h) == h.len(),
    decreases h.len(),
{
    if h.len() == 0 {
        assert(vstd::utf8::encode_utf8(h) =~= Seq::<u8>::empty());
    } else {
        let p = h.drop_last();
        assert forall|i: int| 0 <= i < p.len() implies char_len(#[trigger] p[i]) == 1 by {
            assert(p[i] == h[i]);
        }
        lemma_ascii_bytes(p);
        assert(h =~= p.push(h.last()));
        crate::input::lemma_byte_len_push(p, h.last());
    }
}

proof fn lemma_builtin_parse(fs: Seq<Seq<char>>)
    requires
        forall|i: int| 0 <= i < fs.len() ==> plain_hex(#[trigger] fs[i]),
    ensures
        !theme_parse_aborts(fs),
        first_color_error(fs) is None,
    decreases fs.len(),
{
    assert forall|j: int| 0 <= j < fs.len() implies !hex_slicing_fails(#[trigger] fs[j]) by {
        lemma_plain_hex_parses(fs[j]);
    }
    if fs.len() > 0 {
        lemma_plain_hex_parses(fs[0]);
        assert forall|i: int| 0 <= i < fs.drop_first().len() implies plain_hex(
            #[trigger] fs.drop_first()[i],
        ) by {
            assert(fs.drop_first()[i] == fs[i + 1]);
        }
        lemma_builtin_parse(fs.drop_first());
    }
}

} // verus!
