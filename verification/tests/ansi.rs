use split_watch::ansi::{ansi_text, Modifier, Style};
use split_watch::theme::Color;

fn plain() -> Style {
    Style { fg: None, bg: None, add_modifier: Modifier::empty(), sub_modifier: Modifier::empty() }
}

#[test]
fn parses_basic_sgr_styles() {
    let text = ansi_text("\x1b[31mred\x1b[0m plain", plain());
    assert_eq!(text.lines.len(), 1);
    assert_eq!(text.lines[0].spans[0].content.as_str(), "red");
    assert_eq!(text.lines[0].spans[0].style.fg, Some(Color::Red));
    assert_eq!(text.lines[0].spans[1].content.as_str(), " plain");
}

#[test]
fn parses_bold_truecolor() {
    let base = Style { fg: Some(Color::White), ..plain() };
    let text = ansi_text("\x1b[1;38;2;1;2;3mhi\x1b[0m", base);
    let span = &text.lines[0].spans[0];
    assert_eq!(span.style.fg, Some(Color::Rgb(1, 2, 3)));
    assert!(span.style.add_modifier.contains(Modifier::bold()));
}

#[test]
fn strips_osc_and_non_sgr_csi_sequences() {
    let text = ansi_text("a\x1b]8;;https://example.com\x07link\x1b]8;;\x07b\x1b[2Kc", plain());
    let rendered = text.lines[0]
        .spans
        .iter()
        .map(|span| span.content.as_str())
        .collect::<String>();
    assert_eq!(rendered, "alinkbc");
}

#[test]
fn parses_extended_modifiers() {
    let text = ansi_text("\x1b[3;4;9mstyled\x1b[0m", plain());
    let span = &text.lines[0].spans[0];
    assert!(span.style.add_modifier.contains(Modifier::italic()));
    assert!(span.style.add_modifier.contains(Modifier::underlined()));
    assert!(span.style.add_modifier.contains(Modifier::crossed_out()));
}

#[test]
fn splits_lines_and_expands_tabs() {
    let text = ansi_text("a\tb\r\nc\n", plain());
    assert_eq!(text.lines.len(), 3);
    assert_eq!(text.lines[0].spans[0].content.as_str(), "a    b");
    assert_eq!(text.lines[1].spans[0].content.as_str(), "c");
    assert!(text.lines[2].spans.is_empty());
}

#[test]
fn reset_restores_base_and_palette_colors() {
    let base = Style { fg: Some(Color::Gray), ..plain() };
    let text = ansi_text("\x1b[38;5;200;48;5;3mx\x1b[39;49my\x1b[mz", base);
    let spans = &text.lines[0].spans;
    assert_eq!(spans[0].style.fg, Some(Color::Indexed(200)));
    assert_eq!(spans[0].style.bg, Some(Color::Indexed(3)));
    assert_eq!(spans[1].style.fg, Some(Color::Gray));
    assert_eq!(spans[1].style.bg, None);
    assert_eq!(spans[2].style, base);
}

#[test]
fn bright_colors_and_removed_attributes() {
    let text = ansi_text("\x1b[1;91;104mA\x1b[22mB", plain());
    let spans = &text.lines[0].spans;
    assert_eq!(spans[0].style.fg, Some(Color::LightRed));
    assert_eq!(spans[0].style.bg, Some(Color::LightBlue));
    assert!(spans[0].style.add_modifier.contains(Modifier::bold()));
    assert!(!spans[1].style.add_modifier.contains(Modifier::bold()));
    assert!(spans[1].style.sub_modifier.contains(Modifier::bold()));
}

#[test]
fn lone_escape_is_dropped_and_trailing_escape_kept() {
    let text = ansi_text("a\x1bXb\x1b", plain());
    let spans = &text.lines[0].spans;
    assert_eq!(spans.len(), 2);
    assert_eq!(spans[0].content.as_str(), "a");
    assert_eq!(spans[1].content.as_str(), "Xb\x1b");
}

#[test]
fn unterminated_csi_swallows_the_rest() {
    let text = ansi_text("ok\x1b[12;3", plain());
    assert_eq!(text.lines.len(), 1);
    assert_eq!(text.lines[0].spans.len(), 1);
    assert_eq!(text.lines[0].spans[0].content.as_str(), "ok");
}

#[test]
fn blink_reset_removes_both_blinks() {
    let text = ansi_text("\x1b[2;5;6;7mx\x1b[25my", plain());
    let spans = &text.lines[0].spans;
    let first = spans[0].style;
    assert!(first.add_modifier.contains(Modifier::dim()));
    assert!(first.add_modifier.contains(Modifier::slow_blink()));
    assert!(first.add_modifier.contains(Modifier::rapid_blink()));
    assert!(first.add_modifier.contains(Modifier::reversed()));
    let second = spans[1].style;
    assert!(second.add_modifier.contains(Modifier::dim()));
    assert!(second.add_modifier.contains(Modifier::reversed()));
    assert!(!second.add_modifier.contains(Modifier::slow_blink()));
    assert!(!second.add_modifier.contains(Modifier::rapid_blink()));
    assert!(second.sub_modifier.contains(Modifier::slow_blink()));
    assert!(second.sub_modifier.contains(Modifier::rapid_blink()));
}
