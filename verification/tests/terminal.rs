use terminal_display::terminal::{command_for, draw_ops, DrawOp, InputEvent, LoopEvent, LoopState, LoopStep};
use terminal_display::style::StyleCommand;
use terminal_display::{Buffer, Cell, Color, Frame, Rect, Style, Text};

#[test]
fn frame_area_matches_constructed_size() {
    let area = Rect {
        x: 0,
        y: 0,
        width: 80,
        height: 24,
    };
    let frame = Frame::new(area);
    assert_eq!(frame.area(), area);
}

#[test]
fn frame_render_writes_widget_into_buffer() {
    let area = Rect {
        x: 0,
        y: 0,
        width: 10,
        height: 1,
    };
    let mut frame = Frame::new(area);
    frame.render(Text::raw("hello"), area);
    assert_eq!(frame.into_buffer().get_cell(0, 0).unwrap().ch, 'h');
}

#[test]
fn diff_detects_changed_cells() {
    let area = Rect {
        x: 0,
        y: 0,
        width: 5,
        height: 1,
    };
    let prev = Buffer::empty(area);
    let mut curr = Buffer::empty(area);
    curr.set_str(0, 0, "hi", Style::default());
    let diffs = curr.diff(&prev).unwrap();
    assert_eq!(diffs.len(), 2);
    assert_eq!(diffs[0].2.ch, 'h');
}

#[test]
fn loop_draws_after_render_fn_and_stops_on_shutdown() {
    let area = Rect { x: 0, y: 0, width: 80, height: 24 };
    let mut state = LoopState::new(area);
    assert_eq!(
        state.step(LoopEvent::Tick),
        LoopStep { stop: false, clear_screen: false, draw: false }
    );
    assert_eq!(
        state.step(LoopEvent::RenderFnSet),
        LoopStep { stop: false, clear_screen: false, draw: true }
    );
    assert_eq!(
        state.step(LoopEvent::Resized(100, 30)),
        LoopStep { stop: false, clear_screen: true, draw: true }
    );
    assert_eq!(state.area, Rect { x: 0, y: 0, width: 100, height: 30 });
    assert_eq!(
        state.step(LoopEvent::Shutdown),
        LoopStep { stop: true, clear_screen: false, draw: false }
    );
}

#[test]
fn timer_starts_on_first_animated_frame_only() {
    let mut state = LoopState::new(Rect { x: 0, y: 0, width: 1, height: 1 });
    assert!(!state.after_draw(false));
    assert!(state.after_draw(true));
    assert!(!state.after_draw(true));
    assert!(state.ticking);
}

#[test]
fn ctrl_c_shuts_down_and_resize_is_forwarded() {
    assert_eq!(
        command_for(InputEvent::Key { ch: Some('c'), ctrl: true }),
        Some(LoopEvent::Shutdown)
    );
    assert_eq!(command_for(InputEvent::Key { ch: Some('c'), ctrl: false }), None);
    assert_eq!(command_for(InputEvent::Key { ch: None, ctrl: true }), None);
    assert_eq!(command_for(InputEvent::Resize(3, 4)), Some(LoopEvent::Resized(3, 4)));
    assert_eq!(command_for(InputEvent::Other), None);
}

#[test]
fn draw_ops_skip_wide_char_continuations() {
    let area = Rect { x: 0, y: 0, width: 4, height: 1 };
    let prev = Buffer::empty(area);
    let mut curr = Buffer::empty(area);
    let red = Style { fg: Some(Color::Red), ..Style::default() };
    curr.set_cell(0, 0, Cell { ch: '中', style: red });
    let ops = draw_ops(&curr, &prev);
    assert_eq!(
        ops,
        vec![
            DrawOp::MoveTo(0, 0),
            DrawOp::Style(StyleCommand::ResetColor),
            DrawOp::Style(StyleCommand::Foreground(Color::Red)),
            DrawOp::Print('中'),
            DrawOp::Style(StyleCommand::ResetColor),
        ]
    );
}

#[test]
fn draw_ops_empty_when_sizes_differ() {
    let a = Buffer::empty(Rect { x: 0, y: 0, width: 2, height: 1 });
    let b = Buffer::empty(Rect { x: 0, y: 0, width: 3, height: 1 });
    assert!(draw_ops(&a, &b).is_empty());
    assert_eq!(draw_ops(&a, &a.clone()), vec![DrawOp::Style(StyleCommand::ResetColor)]);
}

#[test]
fn events_keep_timer_and_render_fn() {
    let mut state = LoopState::new(Rect { x: 0, y: 0, width: 10, height: 5 });
    state.step(LoopEvent::RenderFnSet);
    assert!(state.after_draw(true));
    state.step(LoopEvent::Resized(20, 8));
    state.step(LoopEvent::Tick);
    assert!(state.ticking);
    assert!(state.has_render_fn);
    assert!(state.step(LoopEvent::Tick).draw);
    assert!(!state.after_draw(true));
}

#[test]
fn resize_resets_previous_frame() {
    let mut state = LoopState::new(Rect { x: 0, y: 0, width: 4, height: 2 });
    let mut prev = Buffer::empty(state.area);
    prev.set_str(0, 0, "ab", Style::default());
    let step = state.step(LoopEvent::Tick);
    let kept = state.previous_frame(step, prev);
    assert_eq!(kept.get_cell(0, 0).unwrap().ch, 'a');
    let step = state.step(LoopEvent::Resized(3, 3));
    let reset = state.previous_frame(step, kept);
    assert_eq!(reset.get_cell(0, 0).unwrap().ch, ' ');
    assert_eq!(reset.get_cell(2, 2).unwrap().ch, ' ');
    assert!(reset.get_cell(3, 0).is_none());
}

#[test]
fn nothing_is_drawn_after_shutdown() {
    let mut state = LoopState::new(Rect { x: 0, y: 0, width: 4, height: 2 });
    state.step(LoopEvent::RenderFnSet);
    let stop = state.step(LoopEvent::Shutdown);
    assert!(stop.stop);
    assert!(!stop.draw);
}
