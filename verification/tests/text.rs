use terminal_display::{Buffer, Color, Rect, Span, Style, Text, Widget};

fn area(w: u16) -> Rect {
    Rect {
        x: 0,
        y: 0,
        width: w,
        height: 1,
    }
}

#[test]
fn renders_plain_span() {
    let mut buf = Buffer::empty(area(10));
    Text::from(vec![Span::raw("hello")]).render(area(10), &mut buf);
    assert_eq!(buf.get_cell(0, 0).unwrap().ch, 'h');
    assert_eq!(buf.get_cell(4, 0).unwrap().ch, 'o');
    assert_eq!(buf.get_cell(5, 0).unwrap().ch, ' '); // unfilled cell stays space
}

#[test]
fn clips_to_area_width() {
    let mut buf = Buffer::empty(area(3));
    Text::from(vec![Span::raw("hello")]).render(area(3), &mut buf);
    assert_eq!(buf.get_cell(2, 0).unwrap().ch, 'l');
    // position 3 doesn't exist — no panic
}

#[test]
fn multiple_spans_with_different_styles() {
    let red = Style {
        fg: Some(Color::Red),
        ..Style::default()
    };
    let mut buf = Buffer::empty(area(10));
    Text::from(vec![Span::raw("ab"), Span::styled("cd", red)]).render(area(10), &mut buf);
    assert_eq!(buf.get_cell(0, 0).unwrap().ch, 'a');
    assert_eq!(buf.get_cell(2, 0).unwrap().ch, 'c');
    assert_eq!(buf.get_cell(2, 0).unwrap().style.fg, Some(Color::Red));
    assert_eq!(buf.get_cell(0, 0).unwrap().style.fg, None);
}

#[test]
fn natural_size_sums_chars_across_spans() {
    let t = Text::from(vec![Span::raw("hello"), Span::raw("world")]);
    assert_eq!(t.natural_size(), Some((10, 1)));
}

#[test]
fn natural_size_of_empty_spans_is_zero_width() {
    let t = Text::from(vec![]);
    assert_eq!(t.natural_size(), Some((0, 1)));
}

#[test]
fn natural_size_counts_display_columns_not_bytes() {
    // "café" is 4 Unicode scalar values (each width 1) but 5 UTF-8 bytes → 4 columns
    let t = Text::raw("café");
    assert_eq!(t.natural_size(), Some((4, 1)));
}

#[test]
fn wide_char_at_area_right_edge_is_clipped() {
    let area = Rect {
        x: 0,
        y: 0,
        width: 2,
        height: 1,
    };
    let mut buf = Buffer::empty(area);
    Text::raw("a中").render(area, &mut buf);
    assert_eq!(buf.get_cell(0, 0).unwrap().ch, 'a');
    assert_eq!(buf.get_cell(1, 0).unwrap().ch, ' '); // wide char was not written
}

#[test]
fn natural_size_counts_display_columns() {
    // "中文" = 2 CJK chars, each display width 2 → total 4 columns
    let t = Text::raw("中文");
    assert_eq!(t.natural_size(), Some((4, 1)));
}

#[test]
fn render_wide_text_correct_columns() {
    let area = Rect {
        x: 0,
        y: 0,
        width: 6,
        height: 1,
    };
    let mut buf = Buffer::empty(area);
    Text::raw("a中b").render(area, &mut buf);
    assert_eq!(buf.get_cell(0, 0).unwrap().ch, 'a');
    assert_eq!(buf.get_cell(1, 0).unwrap().ch, '中');
    assert_eq!(buf.get_cell(2, 0).unwrap().ch, '\0'); // Buffer::set_cell continuation sentinel
    assert_eq!(buf.get_cell(3, 0).unwrap().ch, 'b');
}

#[test]
fn first_char_that_does_not_fit_stops_the_line() {
    // 'x' would fit after the wide char is refused, but the line stops there
    let mut buf = Buffer::empty(area(3));
    Text::raw("ab中x").render(area(3), &mut buf);
    assert_eq!(buf.get_cell(0, 0).unwrap().ch, 'a');
    assert_eq!(buf.get_cell(1, 0).unwrap().ch, 'b');
    assert_eq!(buf.get_cell(2, 0).unwrap().ch, ' ');
}

#[test]
fn zero_height_area_draws_nothing() {
    let mut buf = Buffer::empty(Rect { x: 0, y: 0, width: 4, height: 1 });
    Text::raw("abc").render(Rect { x: 0, y: 0, width: 4, height: 0 }, &mut buf);
    assert_eq!(buf.get_cell(0, 0).unwrap().ch, ' ');
}

#[test]
fn adjacent_same_style_spans_draw_like_one() {
    let red = Style { fg: Some(Color::Red), ..Style::default() };
    let mut split = Buffer::empty(area(8));
    Text::from(vec![Span::styled("ab", red), Span::styled("cd", red)]).render(area(8), &mut split);
    let mut merged = Buffer::empty(area(8));
    Text::from(vec![Span::styled("abcd", red)]).render(area(8), &mut merged);
    assert_eq!(split.diff(&merged).unwrap().len(), 0);
}

#[test]
fn raw_text_agrees_with_single_raw_span() {
    let a = Text::raw("héllo");
    let b = Text::from(vec![Span::raw("héllo")]);
    let mut ba = Buffer::empty(area(8));
    let mut bb = Buffer::empty(area(8));
    a.render(area(8), &mut ba);
    b.render(area(8), &mut bb);
    assert_eq!(ba.diff(&bb).unwrap().len(), 0);
    assert_eq!(a.natural_size(), b.natural_size());
}
