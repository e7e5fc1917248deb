use terminal_display::{Buffer, ProgressState, Rect, Widget};

#[test]
fn total_known_only_when_hint_is_exact() {
    assert_eq!(ProgressState::from_size_hint(5, Some(5)).total, Some(5));
    assert_eq!(ProgressState::from_size_hint(2, Some(5)).total, None);
    assert_eq!(ProgressState::from_size_hint(2, None).total, None);
}

#[test]
fn final_bar_completes_known_total() {
    let mut state = ProgressState::from_size_hint(10, Some(10));
    state.advance();
    state.advance();
    assert_eq!(state.current, 2);
    let area = Rect { x: 0, y: 0, width: 30, height: 1 };
    let mut buf = Buffer::empty(area);
    state.final_bar().render(area, &mut buf);
    // 10/10: the bar is full
    assert_eq!(buf.get_cell(1, 0).unwrap().ch, '█');
}
