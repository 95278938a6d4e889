use split_watch::theme::{hex_parse_aborts, parse_hex, Color, ColorError, Theme, ThemeError, ThemeFile};

fn file_with(accent: &str, error: &str) -> ThemeFile {
    ThemeFile {
        name: "custom".to_string(),
        accent: accent.to_string(),
        accent_muted: "#000000".to_string(),
        foreground: "#ffffff".to_string(),
        muted: "#808080".to_string(),
        background: "#101010".to_string(),
        panel: "#202020".to_string(),
        border: "#303030".to_string(),
        border_focused: "#404040".to_string(),
        success: "#00ff00".to_string(),
        warning: "#ffff00".to_string(),
        error: error.to_string(),
    }
}

#[test]
fn parses_hex_colours() {
    assert_eq!(parse_hex("#ff8000"), Ok(Color::Rgb(255, 128, 0)));
    assert_eq!(parse_hex("  #0A0b0C\t"), Ok(Color::Rgb(10, 11, 12)));
    assert_eq!(parse_hex("ff8000"), Err(ColorError::MissingHash));
    assert_eq!(parse_hex(""), Err(ColorError::MissingHash));
    assert_eq!(parse_hex("#fff"), Err(ColorError::WrongLength));
    assert_eq!(parse_hex("#ff80000"), Err(ColorError::WrongLength));
    assert_eq!(parse_hex("#gg0000"), Err(ColorError::InvalidDigit));
    assert_eq!(parse_hex("#+10000"), Ok(Color::Rgb(1, 0, 0)));
    assert_eq!(parse_hex("#-10000"), Err(ColorError::InvalidDigit));
    assert_eq!(parse_hex("#\u{e9}\u{e9}\u{e9}"), Err(ColorError::InvalidDigit));
}

#[test]
fn detects_colours_that_split_a_character() {
    assert!(hex_parse_aborts("#a\u{e9}aaa"));
    assert!(!hex_parse_aborts("#\u{e9}\u{e9}\u{e9}"));
    assert!(!hex_parse_aborts("#123456"));
    assert!(!hex_parse_aborts("red"));
}

#[test]
fn builtin_themes_resolve_by_name() {
    let nord = Theme::named("nord").unwrap();
    assert_eq!(nord.file.name, "nord");
    assert_eq!(nord.accent, Color::Rgb(0x88, 0xc0, 0xd0));
    assert_eq!(nord.error, Color::Rgb(0xbf, 0x61, 0x6a));
    let default = Theme::named("default").unwrap();
    assert_eq!(default.background, Color::Rgb(0x0f, 0x17, 0x2a));
    for name in ["catppuccin", "dracula", "monochrome"] {
        assert_eq!(Theme::named(name).unwrap().file.name, name);
    }
    match Theme::named("solarized") {
        Err(ThemeError::UnknownTheme(name)) => assert_eq!(name, "solarized"),
        _ => panic!("expected an unknown theme"),
    }
}

#[test]
fn accent_override_sets_accent_and_focused_border() {
    let base = Theme::named("catppuccin").unwrap();
    let themed = base.clone().with_accent("#010203").unwrap();
    assert_eq!(themed.accent, Color::Rgb(1, 2, 3));
    assert_eq!(themed.border_focused, Color::Rgb(1, 2, 3));
    assert_eq!(themed.file.accent, "#010203");
    assert_eq!(themed.background, base.background);
    assert_eq!(themed.file.name, base.file.name);
    assert!(matches!(base.clone().with_accent("blue"), Err(ColorError::MissingHash)));
    assert!(matches!(base.with_accent("#12345"), Err(ColorError::WrongLength)));
}

#[test]
fn theme_files_parse_in_field_order() {
    let t = Theme::from_file(file_with("#112233", "#445566")).unwrap();
    assert_eq!(t.accent, Color::Rgb(0x11, 0x22, 0x33));
    assert_eq!(t.error, Color::Rgb(0x44, 0x55, 0x66));
    assert_eq!(t.file.name, "custom");
    assert!(matches!(
        Theme::from_file(file_with("112233", "#zz0000")),
        Err(ColorError::MissingHash)
    ));
    assert!(matches!(
        Theme::from_file(file_with("#112233", "#zz0000")),
        Err(ColorError::InvalidDigit)
    ));
    assert!(!Theme::file_aborts(&file_with("#112233", "#zz0000")));
    assert!(Theme::file_aborts(&file_with("#112233", "#a\u{e9}aaa")));
    assert!(!Theme::file_aborts(&file_with("nohash", "#a\u{e9}aaa")));
}
