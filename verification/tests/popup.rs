use terminal_display::widget::popup::popup_area;
use terminal_display::{Buffer, Cell, Popup, Rect, Style, Text, Widget};

fn rect(w: u16, h: u16) -> Rect {
    Rect {
        x: 0,
        y: 0,
        width: w,
        height: h,
    }
}

struct NoOp;
impl Widget for NoOp {
    fn render(&self, _area: Rect, _buf: &mut Buffer) {}
}

struct MarkerAt(char);
impl Widget for MarkerAt {
    fn render(&self, area: Rect, buf: &mut Buffer) {
        buf.set_cell(
            area.x,
            area.y,
            Cell {
                ch: self.0,
                style: Style::default(),
            },
        );
    }
}

struct Fill(char);
impl Widget for Fill {
    fn render(&self, area: Rect, buf: &mut Buffer) {
        for y in area.y..(area.y + area.height) {
            for x in area.x..(area.x + area.width) {
                buf.set_cell(
                    x,
                    y,
                    Cell {
                        ch: self.0,
                        style: Style::default(),
                    },
                );
            }
        }
    }
}

#[test]
fn overlay_natural_size_used_when_larger_than_default() {
    // Area 30×10: default 6×2; Text natural 15×1 → popup 15×2 at (7, 4).
    let area = rect(30, 10);
    let mut buf = Buffer::empty(area);
    Popup::new(NoOp, Text::raw("0123456789ABCDE")).render(area, &mut buf);
    assert_eq!(buf.get_cell(7, 4).unwrap().ch, '0');
    assert_eq!(buf.get_cell(0, 0).unwrap().ch, ' ');
}

#[test]
fn overlay_smaller_than_default_uses_default_size() {
    // Area 30×10: default 6×2; Text "X" 1×1 → popup 6×2 at (12, 4).
    let area = rect(30, 10);
    let mut buf = Buffer::empty(area);
    Popup::new(NoOp, Text::raw("X")).render(area, &mut buf);
    assert_eq!(buf.get_cell(12, 4).unwrap().ch, 'X');
    assert_eq!(buf.get_cell(0, 0).unwrap().ch, ' ');
}

#[test]
fn no_natural_size_uses_default_size() {
    // MarkerAt has no natural_size → popup 6×2 at (12, 4).
    let area = rect(30, 10);
    let mut buf = Buffer::empty(area);
    Popup::new(NoOp, MarkerAt('X')).render(area, &mut buf);
    assert_eq!(buf.get_cell(12, 4).unwrap().ch, 'X');
    assert_eq!(buf.get_cell(0, 0).unwrap().ch, ' ');
}

#[test]
fn popup_clamped_to_area_does_not_panic() {
    struct HugeOverlay;
    impl Widget for HugeOverlay {
        fn render(&self, _area: Rect, _buf: &mut Buffer) {}
        fn natural_size(&self) -> Option<(u16, u16)> {
            Some((100, 100))
        }
    }
    let area = rect(5, 5);
    let mut buf = Buffer::empty(area);
    Popup::new(NoOp, HugeOverlay).render(area, &mut buf);
}

#[test]
fn background_rendered_behind_overlay() {
    // Area 20×10: default 4×2; 'O' at (8, 4); 'B' survives at (0, 0).
    let area = rect(20, 10);
    let mut buf = Buffer::empty(area);
    Popup::new(Fill('B'), Text::raw("O")).render(area, &mut buf);
    assert_eq!(buf.get_cell(0, 0).unwrap().ch, 'B');
    assert_eq!(buf.get_cell(8, 4).unwrap().ch, 'O');
}

#[test]
fn popup_zero_area_does_not_panic() {
    let area = Rect {
        x: 0,
        y: 0,
        width: 0,
        height: 0,
    };
    let mut buf = Buffer::empty(Rect {
        x: 0,
        y: 0,
        width: 1,
        height: 1,
    });
    Popup::new(NoOp, Text::raw("X")).render(area, &mut buf);
}

#[test]
fn popup_render_respects_non_zero_area_origin() {
    // area (10, 5) 30×10: popup 6×2 at (22, 9).
    let area = Rect {
        x: 10,
        y: 5,
        width: 30,
        height: 10,
    };
    let mut buf = Buffer::empty(area);
    Popup::new(NoOp, Text::raw("X")).render(area, &mut buf);
    assert_eq!(buf.get_cell(22, 9).unwrap().ch, 'X');
    assert_eq!(buf.get_cell(10, 5).unwrap().ch, ' ');
}

#[test]
fn popup_area_values() {
    assert_eq!(popup_area(rect(30, 10), None), Rect { x: 12, y: 4, width: 6, height: 2 });
    assert_eq!(popup_area(rect(3, 2), None), Rect { x: 1, y: 0, width: 1, height: 1 });
    assert_eq!(popup_area(rect(5, 5), Some((100, 100))), rect(5, 5));
}
