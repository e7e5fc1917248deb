//! [`Spinner`] — an animated loading indicator.

use vstd::prelude::*;
use crate::buffer::{Buffer, CellWrite, put_all};
use crate::geometry::Rect;
use crate::style::{Span, Style};
use crate::widget::Widget;
use crate::widget::text::{StyledChar, Text, chars_in_style, line_writes, span_items};

verus! {

/// Reads the wall clock through `std::time::SystemTime::now`: the milliseconds
/// since the Unix epoch, or zero when the clock reads earlier than the epoch.
///
/// Nothing is stated of the result: it depends on the time of the call.
#[verifier::external_body]
fn now_millis() -> (ms: u128) {
    std::time::SystemTime::now().duration_since(std::time::SystemTime::UNIX_EPOCH).unwrap_or_default().as_millis()
}

/// Built-in frame sequences for a [`Spinner`].
pub enum SpinnerStyle {
    Dots,
    Line,
    Arc,
}

impl SpinnerStyle {
    /// The frames of the animation, in order.
    pub open spec fn spec_frames(&self) -> Seq<Seq<char>> {
        match self {
            SpinnerStyle::Dots => seq![
                seq!['⣾'],
                seq!['⣽'],
                seq!['⣻'],
                seq!['⢿'],
                seq!['⡿'],
                seq!['⣟'],
                seq!['⣯'],
                seq!['⣷'],
            ],
            SpinnerStyle::Line => seq![seq!['-'], seq!['\\'], seq!['|'], seq!['/']],
            SpinnerStyle::Arc => seq![seq!['◜'], seq!['◠'], seq!['◝'], seq!['◞'], seq!['◡'], seq!['◟']],
        }
    }

    /// How long each frame is shown, in milliseconds.
    pub open spec fn spec_frame_ms(&self) -> u128 {
        match self {
            SpinnerStyle::Dots => 80,
            SpinnerStyle::Line => 120,
            SpinnerStyle::Arc => 100,
        }
    }

    /// The frames of the animation, in order.
    pub fn frames(&self) -> (r: Vec<&'static str>)
        ensures
            r@.len() == self.spec_frames().len(),
            forall|i: int| 0 <= i < r@.len() ==> #[trigger] r@[i]@ == self.spec_frames()[i],
    {
        let mut r: Vec<&'static str> = Vec::new();
        match self {
            SpinnerStyle::Dots => {
                proof {
                    reveal_strlit("⣾");
                    reveal_strlit("⣽");
                    reveal_strlit("⣻");
                    reveal_strlit("⢿");
                    reveal_strlit("⡿");
                    reveal_strlit("⣟");
                    reveal_strlit("⣯");
                    reveal_strlit("⣷");
                }
                r.push("⣾");
                r.push("⣽");
                r.push("⣻");
                r.push("⢿");
                r.push("⡿");
                r.push("⣟");
                r.push("⣯");
                r.push("⣷");
            },
            SpinnerStyle::Line => {
                proof {
                    reveal_strlit("-");
                    reveal_strlit("\\");
                    reveal_strlit("|");
                    reveal_strlit("/");
                }
                r.push("-");
                r.push("\\");
                r.push("|");
                r.push("/");
            },
            SpinnerStyle::Arc => {
                proof {
                    reveal_strlit("◜");
                    reveal_strlit("◠");
                    reveal_strlit("◝");
                    reveal_strlit("◞");
                    reveal_strlit("◡");
                    reveal_strlit("◟");
                }
                r.push("◜");
                r.push("◠");
                r.push("◝");
                r.push("◞");
                r.push("◡");
                r.push("◟");
            },
        }
        r
    }

    /// How long each frame is shown, in milliseconds.
    pub fn frame_ms(&self) -> (r: u128)
        ensures
            r == self.spec_frame_ms(),
    {
        match self {
            SpinnerStyle::Dots => 80,
            SpinnerStyle::Line => 120,
            SpinnerStyle::Arc => 100,
        }
    }

    /// The index of the frame shown `ms` milliseconds after the Unix epoch.
    pub open spec fn spec_frame_at(&self, ms: u128) -> int {
        ((ms / self.spec_frame_ms()) as usize) as int % (self.spec_frames().len() as int)
    }

    /// The index of the frame shown `ms` milliseconds after the Unix epoch: the
    /// number of whole frame periods elapsed, modulo the number of frames.
    pub fn frame_at(&self, ms: u128) -> (r: usize)
        ensures
            r == self.spec_frame_at(ms),
            r < self.spec_frames().len(),
    {
        let n = self.frames().len();
        ((ms / self.frame_ms()) as usize) % n
    }
}

/// The writes that show `frame` in `st` at the top-left of `area`.
pub open spec fn frame_writes(frame: Seq<char>, st: Style, area: Rect) -> Seq<CellWrite> {
    if area.height == 0 {
        Seq::empty()
    } else {
        line_writes(chars_in_style(frame, st), area.x as int, area.y, area.x + area.width)
    }
}

/// A stateless animated spinner. The current frame is derived from the wall clock,
/// so any number of spinners can be created and discarded freely each render.
///
/// Rendering marks the buffer as animated, so that the terminal redraws it on a
/// timer.
pub struct Spinner {
    spinner_style: SpinnerStyle,
    style: Style,
}

impl Spinner {
    /// The frame sequence of the spinner.
    pub closed spec fn spec_spinner_style(&self) -> SpinnerStyle {
        self.spinner_style
    }

    /// The style the frames are drawn in.
    pub closed spec fn spec_style(&self) -> Style {
        self.style
    }

    /// A spinner showing the frames of `spinner_style`, drawn in `style`.
    pub fn new(spinner_style: SpinnerStyle, style: Style) -> (r: Spinner)
        ensures
            r.spec_spinner_style() == spinner_style,
            r.spec_style() == style,
    {
        Spinner { spinner_style, style }
    }

    /// Draws the frame shown at `ms` milliseconds after the Unix epoch.
    pub fn draw_at(&self, ms: u128, area: Rect, buf: &mut Buffer)
        requires
            old(buf).wf(),
            area.fits(),
        ensures
            final(buf).wf(),
            final(buf).spec_area() == old(buf).spec_area(),
            final(buf).spec_animated(),
            final(buf)@ == put_all(
                old(buf).spec_area(),
                old(buf)@,
                frame_writes(
                    self.spec_spinner_style().spec_frames()[self.spec_spinner_style().spec_frame_at(ms)],
                    self.spec_style(),
                    area,
                ),
            ),
            crate::buffer::unchanged_outside(final(buf)@, old(buf)@, old(buf).spec_area(), area),
    {
        buf.mark_animated();
        let frames = self.spinner_style.frames();
        let idx = self.spinner_style.frame_at(ms);
        let mut spans: Vec<Span> = Vec::new();
        spans.push(Span::styled(frames[idx], self.style));
        let text = Text::from(spans);
        proof {
            let sp = text.spans();
            assert(sp.drop_last() =~= Seq::<Span>::empty());
            assert(span_items(sp.drop_last()) =~= Seq::<StyledChar>::empty());
            assert(span_items(sp) =~= chars_in_style(frames@[idx as int]@, self.style));
        }
        text.render(area, buf);
    }
}

impl Widget for Spinner {
    /// The frame shown at some time, and a buffer marked animated.
    open spec fn drawn(&self, area: Rect, before: Buffer, after: Buffer) -> bool {
        &&& after.spec_area() == before.spec_area()
        &&& after.spec_animated()
        &&& exists|ms: u128|
            after@ == put_all(
                before.spec_area(),
                before@,
                frame_writes(
                    #[trigger] self.spec_spinner_style().spec_frames()[self.spec_spinner_style().spec_frame_at(ms)],
                    self.spec_style(),
                    area,
                ),
            )
    }

    /// Draws the frame for the current time and marks the buffer animated.
    fn render(&self, area: Rect, buf: &mut Buffer)
        ensures
            final(buf).spec_animated(),
            exists|ms: u128|
                final(buf)@ == put_all(
                    old(buf).spec_area(),
                    old(buf)@,
                    frame_writes(
                        #[trigger] self.spec_spinner_style().spec_frames()[self.spec_spinner_style().spec_frame_at(ms)],
                        self.spec_style(),
                        area,
                    ),
                ),
    {
        let ms = now_millis();
        self.draw_at(ms, area, buf);
    }

    /// A spinner shows one character.
    fn natural_size(&self) -> (r: Option<(u16, u16)>)
        ensures
            r == Some((1u16, 1u16)),
    {
        Some((1, 1))
    }
}

} // verus!
