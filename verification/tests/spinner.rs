use terminal_display::{Buffer, Rect, Spinner, SpinnerStyle, Style, Widget};

fn rect(w: u16, h: u16) -> Rect {
    Rect {
        x: 0,
        y: 0,
        width: w,
        height: h,
    }
}

#[test]
fn renders_a_frame_character_from_dots() {
    let mut buf = Buffer::empty(rect(1, 1));
    Spinner::new(SpinnerStyle::Dots, Style::default()).render(rect(1, 1), &mut buf);
    let ch = buf.get_cell(0, 0).unwrap().ch;
    let valid: Vec<char> = SpinnerStyle::Dots
        .frames()
        .iter()
        .flat_map(|s| s.chars())
        .collect();
    assert!(valid.contains(&ch), "unexpected char: {ch}");
}

#[test]
fn all_styles_render_without_panic() {
    for style in [SpinnerStyle::Dots, SpinnerStyle::Line, SpinnerStyle::Arc] {
        let mut buf = Buffer::empty(rect(2, 1));
        Spinner::new(style, Style::default()).render(rect(2, 1), &mut buf);
    }
}

#[test]
fn style_is_applied_to_rendered_cell() {
    let bold = Style {
        bold: true,
        ..Style::default()
    };
    let mut buf = Buffer::empty(rect(1, 1));
    Spinner::new(SpinnerStyle::Line, bold).render(rect(1, 1), &mut buf);
    assert!(buf.get_cell(0, 0).unwrap().style.bold);
}

#[test]
fn frame_follows_the_clock() {
    let line = SpinnerStyle::Line;
    assert_eq!(line.frame_at(0), 0);
    assert_eq!(line.frame_at(119), 0);
    assert_eq!(line.frame_at(120), 1);
    assert_eq!(line.frame_at(120 * 5), 1);
    assert_eq!(SpinnerStyle::Dots.frame_at(80 * 9 + 3), 1);
    assert_eq!(SpinnerStyle::Arc.frame_ms(), 100);
    assert_eq!(SpinnerStyle::Arc.frames().len(), 6);
}

#[test]
fn draw_at_shows_that_frame_and_marks_animation() {
    let mut buf = Buffer::empty(rect(3, 1));
    Spinner::new(SpinnerStyle::Line, Style::default()).draw_at(240, rect(3, 1), &mut buf);
    assert_eq!(buf.get_cell(0, 0).unwrap().ch, '|');
    assert_eq!(buf.get_cell(1, 0).unwrap().ch, ' ');
    assert!(buf.is_animated());
}
