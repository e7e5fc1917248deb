//! The rendering frame, and the decisions of the render loop that the terminal
//! front end runs: what each event does, and which terminal operations a new frame
//! needs.

use vstd::prelude::*;
use crate::buffer::{Buffer, Cell, CellWrite, blank_cell, diff_spec, unchanged_outside};
use crate::geometry::Rect;
use crate::style::{StyleCommand, style_commands, style_commands_spec};
use crate::widget::Widget;

verus! {

/// A single-frame rendering context passed to the closure in `TerminalHandle::render`.
///
/// Call [`Frame::render`] one or more times to draw widgets, then return from the closure.
/// The runtime diffs the resulting buffer against the previous frame and writes only
/// changed cells to stdout.
pub struct Frame {
    area: Rect,
    buffer: Buffer,
}

impl Frame {
    /// Whether the frame's buffer covers exactly the frame's area.
    pub closed spec fn wf(&self) -> bool {
        &&& self.buffer.wf()
        &&& self.buffer.spec_area() == self.area
    }

    /// The area of the frame.
    pub closed spec fn spec_area(&self) -> Rect {
        self.area
    }

    /// The cells drawn so far, row by row.
    pub closed spec fn cells(&self) -> Seq<Cell> {
        self.buffer@
    }

    /// Whether a widget drawn so far asked for periodic redraws.
    pub closed spec fn animated(&self) -> bool {
        self.buffer.spec_animated()
    }

    /// The buffer drawn so far.
    pub closed spec fn spec_buffer(&self) -> Buffer {
        self.buffer
    }

    /// The cells, the animation flag and the area of a well-formed frame are those
    /// of its buffer.
    pub proof fn lemma_buffer_views(&self)
        requires
            self.wf(),
        ensures
            self.cells() == self.spec_buffer()@,
            self.animated() == self.spec_buffer().spec_animated(),
            self.spec_area() == self.spec_buffer().spec_area(),
    {
    }

    /// A blank frame covering `area`.
    pub fn new(area: Rect) -> (f: Frame)
        ensures
            f.wf(),
            f.spec_area() == area,
            f.cells() == Seq::new((area.width * area.height) as nat, |i: int| blank_cell()),
            !f.animated(),
    {
        Frame { area, buffer: Buffer::empty(area) }
    }

    /// Returns the full terminal area available for this frame.
    pub fn area(&self) -> (r: Rect)
        ensures
            r == self.spec_area(),
    {
        self.area
    }

    /// Renders `widget` into `area`, writing its cells into this frame's buffer.
    ///
    /// Widgets that draw outside `area` are clipped. Call this multiple times to layer
    /// widgets — for example, render a [`Block`](crate::widget::Block) border first, then
    /// render content into its inner area.
    pub fn render<W: Widget>(&mut self, widget: W, area: Rect)
        requires
            old(self).wf(),
            area.fits(),
        ensures
            final(self).wf(),
            final(self).spec_area() == old(self).spec_area(),
            unchanged_outside(final(self).cells(), old(self).cells(), old(self).spec_area(), area),
            widget.drawn(area, old(self).spec_buffer(), final(self).spec_buffer()),
    {
        widget.render(area, &mut self.buffer);
    }

    /// The buffer drawn into this frame.
    pub fn into_buffer(self) -> (b: Buffer)
        requires
            self.wf(),
        ensures
            b.wf(),
            b.spec_area() == self.spec_area(),
            b@ == self.cells(),
            b.spec_animated() == self.animated(),
            b == self.spec_buffer(),
    {
        self.buffer
    }
}

/// What reaches the render loop.
#[derive(Debug, Clone, Copy, PartialEq, Eq, Structural)]
pub enum LoopEvent {
    /// A new render function replaced the previous one.
    RenderFnSet,
    /// The terminal now has this many columns and rows.
    Resized(u16, u16),
    /// The animation timer fired.
    Tick,
    /// The terminal is to be restored and the loop left.
    Shutdown,
}

/// What the render loop does in answer to one event.
#[derive(Debug, Clone, Copy, PartialEq, Eq, Structural)]
pub struct LoopStep {
    /// Leave the loop and restore the terminal.
    pub stop: bool,
    /// Clear the screen and forget the previous frame.
    pub clear_screen: bool,
    /// Draw a new frame with the current render function.
    pub draw: bool,
}

/// The state of the render loop.
#[derive(Debug, Clone, Copy, PartialEq, Eq, Structural)]
pub struct LoopState {
    /// The area of the terminal frames are drawn for.
    pub area: Rect,
    /// Whether a render function has been set.
    pub has_render_fn: bool,
    /// Whether the animation timer runs.
    pub ticking: bool,
}

impl LoopState {
    /// The state before any event: frames cover `area`, no render function is set
    /// and no timer runs.
    pub fn new(area: Rect) -> (s: LoopState)
        ensures
            s == (LoopState { area, has_render_fn: false, ticking: false }),
    {
        LoopState { area, has_render_fn: false, ticking: false }
    }

    /// The state after `ev`.
    pub open spec fn spec_next(self, ev: LoopEvent) -> LoopState {
        match ev {
            LoopEvent::RenderFnSet => LoopState { has_render_fn: true, ..self },
            LoopEvent::Resized(w, h) => LoopState {
                area: Rect { x: 0, y: 0, width: w, height: h },
                ..self
            },
            LoopEvent::Tick => self,
            LoopEvent::Shutdown => self,
        }
    }

    /// The answer to `ev`: a shutdown stops the loop; a resize clears the screen;
    /// every other event draws a frame once a render function is set.
    pub open spec fn spec_step(self, ev: LoopEvent) -> LoopStep {
        match ev {
            LoopEvent::Shutdown => LoopStep { stop: true, clear_screen: false, draw: false },
            LoopEvent::Resized(_, _) => LoopStep {
                stop: false,
                clear_screen: true,
                draw: self.has_render_fn,
            },
            LoopEvent::RenderFnSet => LoopStep { stop: false, clear_screen: false, draw: true },
            LoopEvent::Tick => LoopStep { stop: false, clear_screen: false, draw: self.has_render_fn },
        }
    }

    /// Takes one event: updates the state and says what to do.
    pub fn step(&mut self, ev: LoopEvent) -> (r: LoopStep)
        ensures
            *final(self) == old(self).spec_next(ev),
            r == old(self).spec_step(ev),
    {
        match ev {
            LoopEvent::RenderFnSet => {
                self.has_render_fn = true;
                LoopStep { stop: false, clear_screen: false, draw: true }
            },
            LoopEvent::Resized(w, h) => {
                self.area = Rect { x: 0, y: 0, width: w, height: h };
                LoopStep { stop: false, clear_screen: true, draw: self.has_render_fn }
            },
            LoopEvent::Tick => LoopStep { stop: false, clear_screen: false, draw: self.has_render_fn },
            LoopEvent::Shutdown => LoopStep { stop: true, clear_screen: false, draw: false },
        }
    }

    /// The state after a frame is drawn, and whether the animation timer starts:
    /// it starts when the frame is animated and the timer does not run yet.
    pub open spec fn spec_after_draw(self, animated: bool) -> (LoopState, bool) {
        (LoopState { ticking: self.ticking || animated, ..self }, animated && !self.ticking)
    }

    /// The frame the next one is compared with once `step` is taken from this
    /// state: a blank frame over the (new) area when the step clears the screen,
    /// else `prev`.
    pub fn previous_frame(&self, step: LoopStep, prev: Buffer) -> (r: Buffer)
        ensures
            step.clear_screen ==> {
                &&& r.wf()
                &&& r.spec_area() == self.area
                &&& !r.spec_animated()
                &&& r@ == Seq::new((self.area.width * self.area.height) as nat, |i: int| blank_cell())
            },
            !step.clear_screen ==> r == prev,
    {
        if step.clear_screen {
            Buffer::empty(self.area)
        } else {
            prev
        }
    }

    /// After a frame is drawn: whether to start the animation timer, which happens
    /// the first time an animated frame is drawn.
    pub fn after_draw(&mut self, animated: bool) -> (start_timer: bool)
        ensures
            (*final(self), start_timer) == old(self).spec_after_draw(animated),
            start_timer == (animated && !old(self).ticking),
            final(self).ticking == (old(self).ticking || animated),
            final(self).area == old(self).area,
            final(self).has_render_fn == old(self).has_render_fn,
    {
        if animated && !self.ticking {
            self.ticking = true;
            true
        } else {
            false
        }
    }
}

/// What every event keeps: the animation timer, once running, keeps running (so
/// [`LoopState::after_draw`] starts it at most once), and a render function, once
/// set, stays set, so every later tick or resize redraws.
pub proof fn lemma_step_keeps(s: LoopState, ev: LoopEvent)
    ensures
        s.spec_next(ev).ticking == s.ticking,
        s.has_render_fn ==> s.spec_next(ev).has_render_fn,
        s.has_render_fn && ev != LoopEvent::Shutdown ==> s.spec_step(ev).draw,
{
}

/// What the render loop does with the events `evs` from state `s`, in order: for
/// each event it handles, the step it takes and whether it starts the animation
/// timer. The flag beside each event says whether the frame drawn for it, if any,
/// is animated. The loop stops after the first step that stops it.
pub open spec fn run_loop(s: LoopState, evs: Seq<(LoopEvent, bool)>) -> Seq<(LoopStep, bool)>
    decreases evs.len(),
{
    if evs.len() == 0 {
        Seq::empty()
    } else {
        let step = s.spec_step(evs[0].0);
        if step.stop {
            seq![(step, false)]
        } else {
            let next = s.spec_next(evs[0].0);
            let after = if step.draw {
                next.spec_after_draw(evs[0].1)
            } else {
                (next, false)
            };
            seq![(step, after.1)] + run_loop(after.0, evs.drop_first())
        }
    }
}

/// The loop handles every event before the first Shutdown, and that Shutdown
/// ends it: its step stops and draws nothing, no earlier step stops, and no event
/// after it is handled, so nothing is drawn after a Shutdown.
pub proof fn lemma_loop_stops_at_shutdown(s: LoopState, evs: Seq<(LoopEvent, bool)>, k: int)
    requires
        0 <= k < evs.len(),
        evs[k].0 == LoopEvent::Shutdown,
        forall|j: int| 0 <= j < k ==> evs[j].0 != LoopEvent::Shutdown,
    ensures
        run_loop(s, evs).len() == k + 1,
        run_loop(s, evs)[k].0.stop,
        !run_loop(s, evs)[k].0.draw,
        !run_loop(s, evs)[k].1,
        forall|j: int| 0 <= j < k ==> !(#[trigger] run_loop(s, evs)[j]).0.stop,
    decreases k,
{
    if k > 0 {
        let step = s.spec_step(evs[0].0);
        assert(evs[0].0 != LoopEvent::Shutdown);
        assert(!step.stop);
        let next = s.spec_next(evs[0].0);
        let after = if step.draw {
            next.spec_after_draw(evs[0].1)
        } else {
            (next, false)
        };
        let rest = evs.drop_first();
        assert forall|j: int| 0 <= j < k - 1 implies rest[j].0 != LoopEvent::Shutdown by {
            assert(rest[j] == evs[j + 1]);
        }
        lemma_loop_stops_at_shutdown(after.0, rest, k - 1);
        let tail = run_loop(after.0, rest);
        let r = run_loop(s, evs);
        assert(r == seq![(step, after.1)] + tail);
        assert forall|j: int| 0 <= j < k implies !(#[trigger] r[j]).0.stop by {
            if j > 0 {
                assert(r[j] == tail[j - 1]);
            }
        }
    }
}

/// The animation timer starts at most once in a run of the loop, never when it
/// already runs, and only for a drawn frame that is animated.
pub proof fn lemma_timer_started_once(s: LoopState, evs: Seq<(LoopEvent, bool)>)
    ensures
        run_loop(s, evs).len() <= evs.len(),
        forall|i: int|
            0 <= i < run_loop(s, evs).len() && (#[trigger] run_loop(s, evs)[i]).1 ==> evs[i].1
                && run_loop(s, evs)[i].0.draw,
        forall|i: int, j: int|
            0 <= i < j < run_loop(s, evs).len() && (#[trigger] run_loop(s, evs)[i]).1 ==> !(
            #[trigger] run_loop(s, evs)[j]).1,
        s.ticking ==> forall|i: int| 0 <= i < run_loop(s, evs).len() ==> !(#[trigger] run_loop(s, evs)[i]).1,
    decreases evs.len(),
{
    if evs.len() > 0 {
        let step = s.spec_step(evs[0].0);
        if !step.stop {
            let next = s.spec_next(evs[0].0);
            lemma_step_keeps(s, evs[0].0);
            let after = if step.draw {
                next.spec_after_draw(evs[0].1)
            } else {
                (next, false)
            };
            let rest = evs.drop_first();
            lemma_timer_started_once(after.0, rest);
            let tail = run_loop(after.0, rest);
            let r = run_loop(s, evs);
            assert(r == seq![(step, after.1)] + tail);
            assert(r.len() == tail.len() + 1);
            assert(after.1 ==> after.0.ticking);
            assert(s.ticking ==> after.0.ticking);
            assert forall|i: int| 0 <= i < r.len() && (#[trigger] r[i]).1 implies evs[i].1 && r[i].0.draw by {
                if i > 0 {
                    assert(r[i] == tail[i - 1]);
                    assert(rest[i - 1] == evs[i]);
                }
            }
            assert forall|i: int, j: int| 0 <= i < j < r.len() && (#[trigger] r[i]).1 implies !(
            #[trigger] r[j]).1 by {
                assert(r[j] == tail[j - 1]);
                if i > 0 {
                    assert(r[i] == tail[i - 1]);
                }
            }
            assert forall|i: int| s.ticking && 0 <= i < r.len() implies !(#[trigger] r[i]).1 by {
                if i > 0 {
                    assert(r[i] == tail[i - 1]);
                }
            }
        }
    }
}

/// A terminal input event, as far as the render loop cares.
#[derive(Debug, Clone, Copy, PartialEq, Eq, Structural)]
pub enum InputEvent {
    /// The terminal was resized to this many columns and rows.
    Resize(u16, u16),
    /// A key was pressed: its character, if it has one, and whether Control was held.
    Key { ch: Option<char>, ctrl: bool },
    /// Anything else.
    Other,
}

/// The loop event an input event sends, if any: a resize is forwarded, Control-C
/// shuts the terminal down, everything else is ignored.
pub open spec fn spec_command_for(ev: InputEvent) -> Option<LoopEvent> {
    match ev {
        InputEvent::Resize(w, h) => Some(LoopEvent::Resized(w, h)),
        InputEvent::Key { ch, ctrl } => if ch == Some('c') && ctrl {
            Some(LoopEvent::Shutdown)
        } else {
            None
        },
        InputEvent::Other => None,
    }
}

/// Maps a terminal input event to the loop event it sends.
pub fn command_for(ev: InputEvent) -> (r: Option<LoopEvent>)
    ensures
        r == spec_command_for(ev),
{
    match ev {
        InputEvent::Resize(w, h) => Some(LoopEvent::Resized(w, h)),
        InputEvent::Key { ch, ctrl } => {
            let is_c = match ch {
                Some(c) => c == 'c',
                None => false,
            };
            if is_c && ctrl {
                Some(LoopEvent::Shutdown)
            } else {
                None
            }
        },
        InputEvent::Other => None,
    }
}

/// One operation on the terminal.
#[derive(Debug, Clone, Copy, PartialEq, Eq, Structural)]
pub enum DrawOp {
    /// Move the cursor to a column and row.
    MoveTo(u16, u16),
    /// Change the colours or attributes.
    Style(StyleCommand),
    /// Print a character at the cursor.
    Print(char),
}

/// The operations that put one changed cell on screen: move there, set its style,
/// print its character.
pub open spec fn cell_ops(w: CellWrite) -> Seq<DrawOp> {
    seq![DrawOp::MoveTo(w.0, w.1)] + style_commands_spec(w.2.style).map_values(
        |c: StyleCommand| DrawOp::Style(c),
    ) + seq![DrawOp::Print(w.2.ch)]
}

/// The operations for the changed cells `ds`, in order, skipping the `'\0'`
/// continuations of wide characters, which the terminal fills by itself.
pub open spec fn diff_ops(ds: Seq<CellWrite>) -> Seq<DrawOp>
    decreases ds.len(),
{
    if ds.len() == 0 {
        Seq::empty()
    } else {
        diff_ops(ds.drop_last()) + if ds.last().2.ch == '\0' {
            Seq::empty()
        } else {
            cell_ops(ds.last())
        }
    }
}

/// The operations that bring a screen showing `prev` to `curr`: nothing when the
/// sizes differ; else the operations for each changed cell, then a colour reset.
pub fn draw_ops(curr: &Buffer, prev: &Buffer) -> (r: Vec<DrawOp>)
    requires
        curr.wf(),
        prev.wf(),
        curr.spec_area().x + curr.spec_area().width <= u16::MAX + 1,
        curr.spec_area().y + curr.spec_area().height <= u16::MAX + 1,
    ensures
        (curr.spec_area().width != prev.spec_area().width || curr.spec_area().height
            != prev.spec_area().height) ==> r@ == Seq::<DrawOp>::empty(),
        (curr.spec_area().width == prev.spec_area().width && curr.spec_area().height
            == prev.spec_area().height) ==> r@ == diff_ops(
            diff_spec(curr.spec_area(), curr@, prev@, curr@.len() as int),
        ).push(DrawOp::Style(StyleCommand::ResetColor)),
{
    let mut ops: Vec<DrawOp> = Vec::new();
    let cells = match curr.diff(prev) {
        Some(cells) => cells,
        None => {
            return ops;
        },
    };
    let mut i: usize = 0;
    while i < cells.len()
        invariant
            i <= cells@.len(),
            ops@ == diff_ops(cells@.take(i as int)),
        decreases cells@.len() - i,
    {
        let (x, y, cell) = cells[i];
        let ghost before = ops@;
        if cell.ch != '\0' {
            ops.push(DrawOp::MoveTo(x, y));
            let cmds = style_commands(cell.style);
            let mut k: usize = 0;
            while k < cmds.len()
                invariant
                    k <= cmds@.len(),
                    cmds@ == style_commands_spec(cell.style),
                    ops@ == before + seq![DrawOp::MoveTo(x, y)] + cmds@.take(k as int).map_values(
                        |c: StyleCommand| DrawOp::Style(c),
                    ),
                decreases cmds@.len() - k,
            {
                ops.push(DrawOp::Style(cmds[k]));
                proof {
                    assert(cmds@.take(k + 1).map_values(|c: StyleCommand| DrawOp::Style(c))
                        =~= cmds@.take(k as int).map_values(|c: StyleCommand| DrawOp::Style(c)).push(
                        DrawOp::Style(cmds@[k as int]),
                    ));
                }
                k = k + 1;
            }
            ops.push(DrawOp::Print(cell.ch));
            proof {
                assert(cmds@.take(cmds@.len() as int) =~= cmds@);
                assert(ops@ =~= before + cell_ops(cells@[i as int]));
            }
        }
        proof {
            assert(cells@.take(i + 1).drop_last() =~= cells@.take(i as int));
            assert(cells@.take(i + 1).last() == cells@[i as int]);
            if cell.ch == '\0' {
                assert(ops@ =~= before + Seq::<DrawOp>::empty());
            }
        }
        i = i + 1;
    }
    proof {
        assert(cells@.take(cells@.len() as int) =~= cells@);
    }
    ops.push(DrawOp::Style(StyleCommand::ResetColor));
    ops
}

/// The operations never print the `'\0'` continuation of a wide character.
pub proof fn lemma_diff_ops_skip_continuations(ds: Seq<CellWrite>)
    ensures
        forall|i: int| 0 <= i < diff_ops(ds).len() ==> diff_ops(ds)[i] != DrawOp::Print('\0'),
    decreases ds.len(),
{
    if ds.len() > 0 {
        lemma_diff_ops_skip_continuations(ds.drop_last());
        let prefix = diff_ops(ds.drop_last());
        let w = ds.last();
        if w.2.ch != '\0' {
            let ops = cell_ops(w);
            let cmds = style_commands_spec(w.2.style).map_values(|c: StyleCommand| DrawOp::Style(c));
            assert forall|i: int| 0 <= i < ops.len() implies ops[i] != DrawOp::Print('\0') by {
                if 1 <= i < 1 + cmds.len() {
                    assert(ops[i] == cmds[i - 1]);
                }
            }
            assert forall|i: int| 0 <= i < diff_ops(ds).len() implies diff_ops(ds)[i] != DrawOp::Print('\0') by {
                if i >= prefix.len() {
                    assert(diff_ops(ds)[i] == ops[i - prefix.len()]);
                } else {
                    assert(diff_ops(ds)[i] == prefix[i]);
                }
            }
        } else {
            assert(diff_ops(ds) =~= prefix);
        }
    }
}

} // verus!
