use terminal_display::style::{style_commands, StyleCommand};
use terminal_display::{Color, Span, Style};

#[test]
fn default_style_has_no_colour() {
    let s = Style::default();
    assert!(s.fg.is_none());
    assert!(s.bg.is_none());
    assert!(!s.bold);
}

#[test]
fn style_patch_overrides_only_set_fields() {
    let base = Style {
        fg: Some(Color::Red),
        ..Style::default()
    };
    let patch = Style {
        bold: true,
        ..Style::default()
    };
    let merged = base.patch(patch);
    assert_eq!(merged.fg, Some(Color::Red));
    assert!(merged.bold);
}

#[test]
fn span_raw_has_default_style() {
    let s = Span::raw("hello");
    assert_eq!(s.content, "hello");
    assert_eq!(s.style, Style::default());
}

#[test]
fn span_styled_sets_style() {
    let style = Style {
        bold: true,
        ..Style::default()
    };
    let s = Span::styled("hi", style);
    assert!(s.style.bold);
}

#[test]
fn patch_colour_wins_and_attributes_accumulate() {
    let base = Style {
        fg: Some(Color::Red),
        bg: Some(Color::Black),
        italic: true,
        ..Style::default()
    };
    let patch = Style {
        bg: Some(Color::Rgb(1, 2, 3)),
        underline: true,
        ..Style::default()
    };
    let merged = base.patch(patch);
    assert_eq!(
        merged,
        Style {
            fg: Some(Color::Red),
            bg: Some(Color::Rgb(1, 2, 3)),
            bold: false,
            underline: true,
            italic: true,
        }
    );
}

#[test]
fn patch_laws_on_values() {
    let a = Style {
        fg: Some(Color::Cyan),
        bold: true,
        ..Style::default()
    };
    let b = Style {
        fg: Some(Color::Indexed(7)),
        underline: true,
        ..Style::default()
    };
    let c = Style {
        bg: Some(Color::White),
        ..Style::default()
    };
    assert_eq!(a.patch(Style::default()), a);
    assert_eq!(Style::default().patch(a), a);
    assert_eq!(a.patch(a), a);
    assert_eq!(a.patch(b).patch(c), a.patch(b.patch(c)));
}

#[test]
fn span_from_owned_string() {
    let s = Span::raw(String::from("owned"));
    assert_eq!(s.content, "owned");
}

#[test]
fn style_commands_in_order() {
    let s = Style {
        fg: Some(Color::Red),
        bg: Some(Color::Blue),
        bold: true,
        underline: false,
        italic: true,
    };
    assert_eq!(
        style_commands(s),
        vec![
            StyleCommand::ResetColor,
            StyleCommand::Foreground(Color::Red),
            StyleCommand::Background(Color::Blue),
            StyleCommand::Bold,
            StyleCommand::Italic,
        ]
    );
    assert_eq!(style_commands(Style::default()), vec![StyleCommand::ResetColor]);
}
