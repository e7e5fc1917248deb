use terminal_display::buffer::char_width;
use terminal_display::{Buffer, Cell, Color, Rect, Style};

fn make_buf(w: u16, h: u16) -> Buffer {
    Buffer::empty(Rect {
        x: 0,
        y: 0,
        width: w,
        height: h,
    })
}

#[test]
fn default_cell_is_space() {
    let c = Cell::default();
    assert_eq!(c.ch, ' ');
    assert_eq!(c.style, Style::default());
}

#[test]
fn set_and_get_cell() {
    let mut buf = make_buf(10, 5);
    buf.set_cell(
        2,
        1,
        Cell {
            ch: 'X',
            style: Style::default(),
        },
    );
    assert_eq!(buf.get_cell(2, 1).unwrap().ch, 'X');
}

#[test]
fn get_cell_out_of_bounds_returns_none() {
    let buf = make_buf(5, 5);
    assert_eq!(buf.get_cell(100, 100), None);
}

#[test]
fn set_cell_out_of_bounds_is_ignored() {
    let mut buf = make_buf(5, 5);
    buf.set_cell(
        100,
        100,
        Cell {
            ch: 'X',
            style: Style::default(),
        },
    );
    // no panic
}

#[test]
fn diff_returns_changed_cells() {
    let prev = make_buf(3, 1);
    let mut curr = make_buf(3, 1);
    curr.set_cell(
        1,
        0,
        Cell {
            ch: 'A',
            style: Style::default(),
        },
    );
    let diffs = curr.diff(&prev).unwrap();
    assert_eq!(diffs.len(), 1);
    assert_eq!(
        diffs[0],
        (
            1u16,
            0u16,
            Cell {
                ch: 'A',
                style: Style::default()
            }
        )
    );
}

#[test]
fn diff_empty_when_identical() {
    let buf = make_buf(3, 1);
    assert!(buf.diff(&buf.clone()).unwrap().is_empty());
}

#[test]
fn set_str_writes_chars_with_style() {
    let mut buf = make_buf(10, 1);
    let style = Style {
        fg: Some(Color::Red),
        ..Style::default()
    };
    buf.set_str(0, 0, "hi", style);
    assert_eq!(buf.get_cell(0, 0).unwrap().ch, 'h');
    assert_eq!(buf.get_cell(1, 0).unwrap().ch, 'i');
    assert_eq!(buf.get_cell(0, 0).unwrap().style.fg, Some(Color::Red));
}

#[test]
fn set_cell_wide_char_writes_continuation() {
    // '中' has display width 2; writing it at (0,0) must auto-fill (1,0) with '\0'.
    let mut buf = make_buf(4, 1);
    buf.set_cell(
        0,
        0,
        Cell {
            ch: '中',
            style: Style::default(),
        },
    );
    assert_eq!(buf.get_cell(0, 0).unwrap().ch, '中');
    assert_eq!(buf.get_cell(1, 0).unwrap().ch, '\0');
    assert_eq!(buf.get_cell(2, 0).unwrap().ch, ' '); // untouched
}

#[test]
fn set_str_wide_char_advances_correctly() {
    // "中a": '中' at column 0 (width 2), 'a' at column 2 (not column 1).
    let mut buf = make_buf(5, 1);
    buf.set_str(0, 0, "中a", Style::default());
    assert_eq!(buf.get_cell(0, 0).unwrap().ch, '中');
    assert_eq!(buf.get_cell(1, 0).unwrap().ch, '\0');
    assert_eq!(buf.get_cell(2, 0).unwrap().ch, 'a');
}

#[test]
fn diff_shows_continuation_cell_for_wide_char() {
    // Buffer::diff() includes the '\0' cell — the terminal operations skip it.
    let area = Rect {
        x: 0,
        y: 0,
        width: 4,
        height: 1,
    };
    let prev = Buffer::empty(area);
    let mut curr = Buffer::empty(area);
    let red = Style {
        fg: Some(Color::Red),
        ..Style::default()
    };
    curr.set_cell(
        0,
        0,
        Cell {
            ch: '中',
            style: red,
        },
    );
    let diffs = curr.diff(&prev).unwrap();
    let cont = diffs
        .iter()
        .find(|(x, _, _)| *x == 1)
        .expect("no continuation cell in diff");
    assert_eq!(cont.2.ch, '\0');
    assert_eq!(cont.2.style.fg, Some(Color::Red)); // style is copied from the wide cell
}

#[test]
fn set_cell_wide_char_at_right_edge_does_not_panic_or_write_outside() {
    // '中' at x=3 in a width=4 buffer: continuation at x=4 is out-of-bounds, silently dropped.
    let mut buf = make_buf(4, 1);
    buf.set_cell(
        3,
        0,
        Cell {
            ch: '中',
            style: Style::default(),
        },
    );
    assert_eq!(buf.get_cell(3, 0).unwrap().ch, '中');
    assert!(buf.get_cell(4, 0).is_none());
}

#[test]
fn char_width_reports_columns() {
    assert_eq!(char_width('a'), 1);
    assert_eq!(char_width('中'), 2);
    assert_eq!(char_width('\0'), 1); // control character: one column
    assert_eq!(char_width('\u{0301}'), 1); // combining mark: clamped to one column
    assert_eq!(char_width('\u{17D8}'), 3);
    for c in ['─', '│', '┌', '┐', '└', '┘'] {
        assert_eq!(char_width(c), 1);
    }
}

#[test]
fn read_after_write_returns_written_cell() {
    let mut buf = Buffer::empty(Rect {
        x: 3,
        y: 2,
        width: 5,
        height: 4,
    });
    let cell = Cell {
        ch: 'q',
        style: Style {
            bold: true,
            ..Style::default()
        },
    };
    buf.set_cell(7, 5, cell);
    assert_eq!(buf.get_cell(7, 5), Some(cell));
    assert_eq!(buf.get_cell(6, 5), Some(Cell::default()));
    assert_eq!(buf.get_cell(8, 5), None);
    assert_eq!(buf.get_cell(2, 2), None);
}

#[test]
fn diff_lists_positions_in_row_major_order() {
    let area = Rect {
        x: 10,
        y: 20,
        width: 3,
        height: 2,
    };
    let prev = Buffer::empty(area);
    let mut curr = Buffer::empty(area);
    curr.set_cell(12, 21, Cell { ch: 'b', style: Style::default() });
    curr.set_cell(11, 20, Cell { ch: 'a', style: Style::default() });
    let diffs = curr.diff(&prev).unwrap();
    assert_eq!(diffs.len(), 2);
    assert_eq!((diffs[0].0, diffs[0].1, diffs[0].2.ch), (11, 20, 'a'));
    assert_eq!((diffs[1].0, diffs[1].1, diffs[1].2.ch), (12, 21, 'b'));
}

#[test]
fn diff_of_different_sizes_is_none() {
    let a = make_buf(3, 1);
    let b = make_buf(2, 1);
    assert!(a.diff(&b).is_none());
}

#[test]
fn mark_animated_sets_flag() {
    let mut buf = make_buf(1, 1);
    assert!(!buf.is_animated());
    buf.mark_animated();
    assert!(buf.is_animated());
}

#[test]
fn wide_char_in_last_representable_column_stays() {
    // Column 65535 has no next column, so no continuation overwrites the character.
    let area = Rect { x: u16::MAX - 1, y: 0, width: 2, height: 1 };
    let mut buf = Buffer::empty(area);
    buf.set_cell(u16::MAX, 0, Cell { ch: '中', style: Style::default() });
    assert_eq!(buf.get_cell(u16::MAX, 0).unwrap().ch, '中');
    assert_eq!(buf.get_cell(u16::MAX - 1, 0).unwrap().ch, ' ');
}

#[test]
fn clone_has_no_diff() {
    let mut buf = make_buf(4, 2);
    buf.set_str(0, 1, "ab", Style::default());
    let copy = buf.clone();
    assert_eq!(buf.diff(&copy).unwrap().len(), 0);
}

#[test]
fn block_elements_and_ideographs_widths() {
    assert_eq!(char_width('█'), 1);
    assert_eq!(char_width('░'), 1);
    assert_eq!(char_width('⣾'), 1);
    assert_eq!(char_width('中'), 2);
}
