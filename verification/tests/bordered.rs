use terminal_display::{Block, Bordered, Buffer, Rect, Spinner, SpinnerStyle, Style, Text, Widget};

fn rect(w: u16, h: u16) -> Rect {
    Rect {
        x: 0,
        y: 0,
        width: w,
        height: h,
    }
}

#[test]
fn renders_border_corners() {
    let mut buf = Buffer::empty(rect(10, 5));
    Bordered {
        block: Block::new(),
        child: Text::raw(""),
    }
    .render(rect(10, 5), &mut buf);
    assert_eq!(buf.get_cell(0, 0).unwrap().ch, '┌');
    assert_eq!(buf.get_cell(9, 0).unwrap().ch, '┐');
    assert_eq!(buf.get_cell(0, 4).unwrap().ch, '└');
    assert_eq!(buf.get_cell(9, 4).unwrap().ch, '┘');
}

#[test]
fn child_renders_inside_border() {
    let mut buf = Buffer::empty(rect(10, 5));
    Bordered {
        block: Block::new(),
        child: Text::raw("hi"),
    }
    .render(rect(10, 5), &mut buf);
    // Inner area starts at (1,1)
    assert_eq!(buf.get_cell(1, 1).unwrap().ch, 'h');
    assert_eq!(buf.get_cell(2, 1).unwrap().ch, 'i');
}

#[test]
fn child_does_not_overwrite_border() {
    let long_text = "x".repeat(20);
    let mut buf = Buffer::empty(rect(10, 5));
    Bordered {
        block: Block::new(),
        child: Text::raw(long_text),
    }
    .render(rect(10, 5), &mut buf);
    // Right border must still be '│', not overwritten by the long child text
    assert_eq!(buf.get_cell(9, 1).unwrap().ch, '│');
}

#[test]
fn title_appears_on_top_border() {
    let mut buf = Buffer::empty(rect(10, 5));
    Bordered {
        block: Block::new().title("CPU"),
        child: Text::raw(""),
    }
    .render(rect(10, 5), &mut buf);
    assert_eq!(buf.get_cell(1, 0).unwrap().ch, 'C');
    assert_eq!(buf.get_cell(2, 0).unwrap().ch, 'P');
    assert_eq!(buf.get_cell(3, 0).unwrap().ch, 'U');
}

#[test]
fn bordered_natural_size_adds_two_each_way() {
    let b = Bordered::new(Block::new(), Spinner::new(SpinnerStyle::Line, Style::default()));
    assert_eq!(b.natural_size(), Some((3, 3)));
    let t = Bordered::new(Block::new(), Text::raw("abcd"));
    assert_eq!(t.natural_size(), Some((6, 3)));
}
