use terminal_display::{Buffer, Divider, Rect, Style, Widget};

fn rect(w: u16, h: u16) -> Rect {
    Rect {
        x: 0,
        y: 0,
        width: w,
        height: h,
    }
}

#[test]
fn horizontal_fills_row_with_dash() {
    let mut buf = Buffer::empty(rect(5, 1));
    Divider::new().render(rect(5, 1), &mut buf);
    for x in 0..5 {
        assert_eq!(buf.get_cell(x, 0).unwrap().ch, '─');
    }
}

#[test]
fn vertical_fills_column_with_pipe() {
    let mut buf = Buffer::empty(rect(1, 5));
    Divider::new().render(rect(1, 5), &mut buf);
    for y in 0..5 {
        assert_eq!(buf.get_cell(0, y).unwrap().ch, '│');
    }
}

#[test]
fn square_area_draws_horizontal() {
    let mut buf = Buffer::empty(rect(4, 4));
    Divider::new().render(rect(4, 4), &mut buf);
    assert_eq!(buf.get_cell(0, 0).unwrap().ch, '─');
    assert_eq!(buf.get_cell(0, 1).unwrap().ch, ' '); // only first row drawn
}

#[test]
fn styled_applies_to_cells() {
    let style = Style {
        bold: true,
        ..Style::default()
    };
    let mut buf = Buffer::empty(rect(3, 1));
    Divider::styled(style).render(rect(3, 1), &mut buf);
    assert!(buf.get_cell(0, 0).unwrap().style.bold);
    assert!(buf.get_cell(2, 0).unwrap().style.bold);
}

#[test]
fn zero_width_does_not_panic() {
    let area = Rect {
        x: 0,
        y: 0,
        width: 0,
        height: 1,
    };
    let mut buf = Buffer::empty(Rect {
        x: 0,
        y: 0,
        width: 1,
        height: 1,
    });
    Divider::new().render(area, &mut buf); // must not panic
}

#[test]
fn divider_stays_in_its_area() {
    let mut buf = Buffer::empty(rect(6, 3));
    Divider::default().render(Rect { x: 1, y: 1, width: 3, height: 1 }, &mut buf);
    assert_eq!(buf.get_cell(0, 1).unwrap().ch, ' ');
    assert_eq!(buf.get_cell(1, 1).unwrap().ch, '─');
    assert_eq!(buf.get_cell(3, 1).unwrap().ch, '─');
    assert_eq!(buf.get_cell(4, 1).unwrap().ch, ' ');
}

#[test]
fn rule_reaching_last_column_is_drawn() {
    let area = Rect { x: u16::MAX - 3, y: 0, width: 3, height: 1 };
    let mut buf = Buffer::empty(Rect { x: u16::MAX - 3, y: 0, width: 3, height: 1 });
    Divider::new().render(area, &mut buf);
    for x in (u16::MAX - 3)..u16::MAX {
        assert_eq!(buf.get_cell(x, 0).unwrap().ch, '─');
    }
}
