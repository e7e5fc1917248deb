use terminal_display::{Buffer, Color, Constraint, Rect, Row, Span, Style, Table, Widget};

fn area(w: u16, h: u16) -> Rect {
    Rect {
        x: 0,
        y: 0,
        width: w,
        height: h,
    }
}

#[test]
fn headers_rendered_on_first_row() {
    let mut buf = Buffer::empty(area(20, 5));
    Table::new(vec![Constraint::Fixed(8), Constraint::Fill], vec![])
        .headers(vec!["Name".into(), "Role".into()])
        .render(area(20, 5), &mut buf);
    assert_eq!(buf.get_cell(0, 0).unwrap().ch, 'N');
    assert!(buf.get_cell(0, 0).unwrap().style.bold);
    assert_eq!(buf.get_cell(8, 0).unwrap().ch, 'R');
    assert!(buf.get_cell(8, 0).unwrap().style.bold);
}

#[test]
fn rows_start_at_y_plus_one_when_headers_present() {
    let mut buf = Buffer::empty(area(20, 5));
    Table::new(
        vec![Constraint::Fixed(8), Constraint::Fill],
        vec![Row::new(vec![
            vec![Span::raw("Alice")],
            vec![Span::raw("Dev")],
        ])],
    )
    .headers(vec!["Name".into(), "Role".into()])
    .render(area(20, 5), &mut buf);
    assert_eq!(buf.get_cell(0, 0).unwrap().ch, 'N'); // header 'N'ame
    assert_eq!(buf.get_cell(0, 1).unwrap().ch, 'A'); // row 0 'A'lice
}

#[test]
fn no_headers_rows_start_at_top() {
    let mut buf = Buffer::empty(area(20, 5));
    Table::new(
        vec![Constraint::Fixed(8), Constraint::Fill],
        vec![Row::new(vec![
            vec![Span::raw("Alice")],
            vec![Span::raw("Dev")],
        ])],
    )
    .render(area(20, 5), &mut buf);
    assert_eq!(buf.get_cell(0, 0).unwrap().ch, 'A');
}

#[test]
fn selected_row_has_highlight_background() {
    let hl = Style {
        bg: Some(Color::Red),
        ..Style::default()
    };
    let green = Style {
        fg: Some(Color::Green),
        ..Style::default()
    };
    let mut buf = Buffer::empty(area(20, 5));
    Table::new(
        vec![Constraint::Fixed(8), Constraint::Fill],
        vec![
            Row::new(vec![
                vec![Span::styled("Alice", green)],
                vec![Span::raw("Dev")],
            ]),
            Row::new(vec![vec![Span::raw("Bob")], vec![Span::raw("PM")]]),
        ],
    )
    .selected(Some(0))
    .highlight_style(hl)
    .render(area(20, 5), &mut buf);
    assert_eq!(buf.get_cell(0, 0).unwrap().style.bg, Some(Color::Red));
    assert_eq!(buf.get_cell(0, 0).unwrap().style.fg, Some(Color::Green));
    assert_eq!(buf.get_cell(0, 1).unwrap().style.bg, None);
}

#[test]
fn column_constraints_respected() {
    let mut buf = Buffer::empty(area(20, 5));
    Table::new(
        vec![Constraint::Fixed(5), Constraint::Fill],
        vec![Row::new(vec![
            vec![Span::raw("ABCDEFGH")],
            vec![Span::raw("X")],
        ])],
    )
    .render(area(20, 5), &mut buf);
    assert_eq!(buf.get_cell(4, 0).unwrap().ch, 'E'); // last char of col 0
    assert_eq!(buf.get_cell(5, 0).unwrap().ch, 'X'); // col 1 start — NOT 'F'
}

#[test]
fn span_style_applied_to_cell() {
    let green = Style {
        fg: Some(Color::Green),
        ..Style::default()
    };
    let mut buf = Buffer::empty(area(20, 5));
    Table::new(
        vec![Constraint::Fixed(10), Constraint::Fill],
        vec![Row::new(vec![
            vec![Span::styled("OK", green)],
            vec![Span::raw("other")],
        ])],
    )
    .render(area(20, 5), &mut buf);
    assert_eq!(buf.get_cell(0, 0).unwrap().ch, 'O');
    assert_eq!(buf.get_cell(0, 0).unwrap().style.fg, Some(Color::Green));
    assert_eq!(buf.get_cell(1, 0).unwrap().ch, 'K');
    assert_eq!(buf.get_cell(1, 0).unwrap().style.fg, Some(Color::Green));
}

#[test]
fn rows_beyond_area_height_clipped() {
    let mut buf = Buffer::empty(area(20, 3));
    Table::new(
        vec![Constraint::Fill],
        vec![
            Row::new(vec![vec![Span::raw("A")]]),
            Row::new(vec![vec![Span::raw("B")]]),
            Row::new(vec![vec![Span::raw("C")]]),
            Row::new(vec![vec![Span::raw("D")]]), // beyond area
            Row::new(vec![vec![Span::raw("E")]]), // beyond area
        ],
    )
    .render(area(20, 3), &mut buf);
    assert_eq!(buf.get_cell(0, 0).unwrap().ch, 'A');
    assert_eq!(buf.get_cell(0, 1).unwrap().ch, 'B');
    assert_eq!(buf.get_cell(0, 2).unwrap().ch, 'C');
    assert!(buf.get_cell(0, 3).is_none()); // outside buffer bounds
}

#[test]
fn table_zero_area_does_not_panic() {
    let zero = Rect {
        x: 0,
        y: 0,
        width: 0,
        height: 0,
    };
    let mut buf = Buffer::empty(Rect {
        x: 0,
        y: 0,
        width: 1,
        height: 1,
    });
    Table::new(
        vec![Constraint::Fill],
        vec![Row::new(vec![vec![Span::raw("X")]])],
    )
    .render(zero, &mut buf);
}

#[test]
fn table_render_respects_non_zero_area_origin() {
    let origin = Rect {
        x: 5,
        y: 3,
        width: 20,
        height: 5,
    };
    let mut buf = Buffer::empty(origin);
    Table::new(
        vec![Constraint::Fixed(8), Constraint::Fill],
        vec![Row::new(vec![
            vec![Span::raw("Alice")],
            vec![Span::raw("Dev")],
        ])],
    )
    .headers(vec!["Name".into(), "Role".into()])
    .render(origin, &mut buf);
    assert_eq!(buf.get_cell(5, 3).unwrap().ch, 'N');
    assert_eq!(buf.get_cell(13, 3).unwrap().ch, 'R');
    assert_eq!(buf.get_cell(5, 4).unwrap().ch, 'A');
}

#[test]
fn wide_char_fits_exact_column_budget() {
    let mut buf = Buffer::empty(area(4, 2));
    Table::new(
        vec![Constraint::Fixed(2), Constraint::Fill],
        vec![Row::new(vec![vec![Span::raw("中")], vec![Span::raw("x")]])],
    )
    .render(area(4, 2), &mut buf);
    assert_eq!(buf.get_cell(0, 0).unwrap().ch, '中');
}

#[test]
fn wide_char_skipped_when_column_too_narrow() {
    let mut buf = Buffer::empty(area(4, 2));
    Table::new(
        vec![Constraint::Fixed(1), Constraint::Fill],
        vec![Row::new(vec![vec![Span::raw("中")], vec![Span::raw("x")]])],
    )
    .render(area(4, 2), &mut buf);
    assert_eq!(buf.get_cell(0, 0).unwrap().ch, ' '); // cell untouched
}

#[test]
fn header_clipped_to_column_and_selection_spans_width() {
    let mut buf = Buffer::empty(area(6, 3));
    Table::new(
        vec![Constraint::Fixed(3), Constraint::Fill],
        vec![Row::new(vec![vec![Span::raw("a")]]), Row::new(vec![])],
    )
    .headers(vec!["Long".into(), "Second".into(), "Extra".into()])
    .selected(Some(1))
    .render(area(6, 3), &mut buf);
    let top: String = (0..6).map(|x| buf.get_cell(x, 0).unwrap().ch).collect();
    assert_eq!(top, "LonSec");
    assert_eq!(buf.get_cell(0, 1).unwrap().ch, 'a');
    for x in 0..6 {
        assert_eq!(buf.get_cell(x, 2).unwrap().style.bg, Some(Color::Blue));
    }
    assert_eq!(buf.get_cell(5, 1).unwrap().style.bg, None);
}
