use terminal_display::{Block, Buffer, Rect, Style, Widget};

fn area(w: u16, h: u16) -> Rect {
    Rect {
        x: 0,
        y: 0,
        width: w,
        height: h,
    }
}

#[test]
fn draws_corners() {
    let mut buf = Buffer::empty(area(5, 3));
    Block::new().render(area(5, 3), &mut buf);
    assert_eq!(buf.get_cell(0, 0).unwrap().ch, '┌');
    assert_eq!(buf.get_cell(4, 0).unwrap().ch, '┐');
    assert_eq!(buf.get_cell(0, 2).unwrap().ch, '└');
    assert_eq!(buf.get_cell(4, 2).unwrap().ch, '┘');
}

#[test]
fn draws_horizontal_borders() {
    let mut buf = Buffer::empty(area(5, 3));
    Block::new().render(area(5, 3), &mut buf);
    assert_eq!(buf.get_cell(1, 0).unwrap().ch, '─');
    assert_eq!(buf.get_cell(3, 0).unwrap().ch, '─');
    assert_eq!(buf.get_cell(1, 2).unwrap().ch, '─');
}

#[test]
fn draws_vertical_borders() {
    let mut buf = Buffer::empty(area(5, 4));
    Block::new().render(area(5, 4), &mut buf);
    assert_eq!(buf.get_cell(0, 1).unwrap().ch, '│');
    assert_eq!(buf.get_cell(0, 2).unwrap().ch, '│');
    assert_eq!(buf.get_cell(4, 1).unwrap().ch, '│');
}

#[test]
fn renders_title_after_top_left_corner() {
    let mut buf = Buffer::empty(area(10, 3));
    Block::new().title("CPU").render(area(10, 3), &mut buf);
    assert_eq!(buf.get_cell(1, 0).unwrap().ch, 'C');
    assert_eq!(buf.get_cell(2, 0).unwrap().ch, 'P');
    assert_eq!(buf.get_cell(3, 0).unwrap().ch, 'U');
}

#[test]
fn inner_shrinks_by_one_on_all_sides() {
    let inner = Block::new().inner(area(10, 6));
    assert_eq!(
        inner,
        Rect {
            x: 1,
            y: 1,
            width: 8,
            height: 4
        }
    );
}

#[test]
fn title_clipped_before_top_right_corner() {
    let mut buf = Buffer::empty(area(5, 3));
    Block::new().title("ABCDEFG").render(area(5, 3), &mut buf);
    assert_eq!(buf.get_cell(1, 0).unwrap().ch, 'A');
    assert_eq!(buf.get_cell(3, 0).unwrap().ch, 'C');
    assert_eq!(buf.get_cell(4, 0).unwrap().ch, '┐');
}

#[test]
fn too_small_area_draws_nothing() {
    let mut buf = Buffer::empty(area(3, 3));
    Block::new().render(area(1, 3), &mut buf);
    for y in 0..3 {
        for x in 0..3 {
            assert_eq!(buf.get_cell(x, y).unwrap().ch, ' ');
        }
    }
}

#[test]
fn border_style_applies_and_outside_untouched() {
    let mut buf = Buffer::empty(area(6, 4));
    let bold = Style { bold: true, ..Style::default() };
    Block::new()
        .border_style(bold)
        .render(Rect { x: 1, y: 1, width: 3, height: 2 }, &mut buf);
    assert!(buf.get_cell(1, 1).unwrap().style.bold);
    assert_eq!(buf.get_cell(3, 2).unwrap().ch, '┘');
    assert_eq!(buf.get_cell(4, 1).unwrap().ch, ' ');
    assert_eq!(buf.get_cell(0, 0).unwrap().ch, ' ');
}
