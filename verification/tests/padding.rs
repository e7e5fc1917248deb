use terminal_display::{Buffer, Padding, Rect, Spinner, SpinnerStyle, Style, Text, Widget};

fn rect(w: u16, h: u16) -> Rect {
    Rect {
        x: 0,
        y: 0,
        width: w,
        height: h,
    }
}

#[test]
fn all_insets_uniformly() {
    // all(2): child renders at (2, 2); cells at (0,0) and (1,2) stay blank.
    let mut buf = Buffer::empty(rect(10, 6));
    Padding::all(2, Text::raw("X")).render(rect(10, 6), &mut buf);
    assert_eq!(buf.get_cell(2, 2).unwrap().ch, 'X');
    assert_eq!(buf.get_cell(0, 0).unwrap().ch, ' ');
    assert_eq!(buf.get_cell(1, 2).unwrap().ch, ' ');
}

#[test]
fn axes_insets_independently() {
    // axes(horizontal=3, vertical=1): left=3, top=1 → child at (3, 1).
    let mut buf = Buffer::empty(rect(14, 5));
    Padding::axes(3, 1, Text::raw("X")).render(rect(14, 5), &mut buf);
    assert_eq!(buf.get_cell(3, 1).unwrap().ch, 'X');
    assert_eq!(buf.get_cell(0, 0).unwrap().ch, ' ');
    assert_eq!(buf.get_cell(2, 1).unwrap().ch, ' ');
}

#[test]
fn padding_larger_than_area_does_not_panic() {
    let area = rect(5, 5);
    let mut buf = Buffer::empty(area);
    Padding::all(100, Text::raw("X")).render(area, &mut buf);
    // Saturating sub collapses inner dimensions to zero — no panic.
}

#[test]
fn natural_size_adds_padding_to_child_size() {
    // Spinner natural_size = Some((1, 1)).
    // all(2) adds left=2, right=2, top=2, bottom=2 → Some((5, 5)).
    let p = Padding::all(2, Spinner::new(SpinnerStyle::Dots, Style::default()));
    assert_eq!(p.natural_size(), Some((5, 5)));
}

#[test]
fn natural_size_none_when_child_has_none() {
    struct NoSizeWidget;
    impl Widget for NoSizeWidget {
        fn render(&self, _area: Rect, _buf: &mut Buffer) {}
    }
    let p = Padding::all(2, NoSizeWidget);
    assert_eq!(p.natural_size(), None);
}

#[test]
fn natural_size_saturates_at_u16_max() {
    struct MaxSizeWidget;
    impl Widget for MaxSizeWidget {
        fn render(&self, _area: Rect, _buf: &mut Buffer) {}
        fn natural_size(&self) -> Option<(u16, u16)> {
            Some((u16::MAX, u16::MAX))
        }
    }
    let p = Padding::all(10, MaxSizeWidget);
    assert_eq!(p.natural_size(), Some((u16::MAX, u16::MAX)));
}

#[test]
fn padding_render_respects_non_zero_area_origin() {
    // area starts at (5, 3); all(2) → child at (7, 5)
    let area = Rect {
        x: 5,
        y: 3,
        width: 10,
        height: 6,
    };
    let mut buf = Buffer::empty(area);
    Padding::all(2, Text::raw("X")).render(area, &mut buf);
    assert_eq!(buf.get_cell(7, 5).unwrap().ch, 'X');
    assert_eq!(buf.get_cell(5, 3).unwrap().ch, ' ');
}

#[test]
fn inner_area_values() {
    let p = Padding::new(1, 2, 3, 4, Text::raw(""));
    assert_eq!(
        p.inner(Rect { x: 10, y: 10, width: 20, height: 10 }),
        Rect { x: 14, y: 11, width: 14, height: 6 }
    );
    assert_eq!(
        p.inner(Rect { x: 10, y: 10, width: 3, height: 2 }),
        Rect { x: 13, y: 11, width: 0, height: 0 }
    );
}

#[test]
fn padding_cells_stay_untouched() {
    struct Flood;
    impl Widget for Flood {
        fn render(&self, area: Rect, buf: &mut Buffer) {
            for y in area.y..area.y + area.height {
                for x in area.x..area.x + area.width {
                    buf.set_cell(x, y, terminal_display::Cell { ch: '#', style: Style::default() });
                }
            }
        }
    }
    let mut buf = Buffer::empty(rect(6, 4));
    Padding::new(1, 2, 0, 1, Flood).render(rect(6, 4), &mut buf);
    for y in 0..4u16 {
        for x in 0..6u16 {
            let inside = y >= 1 && (1..4).contains(&x);
            let expected = if inside { '#' } else { ' ' };
            assert_eq!(buf.get_cell(x, y).unwrap().ch, expected, "at ({x},{y})");
        }
    }
}
