//! All built-in widgets and the [`Widget`] trait.

use vstd::prelude::*;
use crate::buffer::{Buffer, unchanged_outside};
use crate::geometry::Rect;
use crate::layout::Constraint;

pub mod block;
pub mod bordered;
pub mod centered;
pub mod divider;
pub mod fill;
pub mod padding;
pub mod popup;
pub mod progress_bar;
pub mod spinner;
pub mod stack;
pub mod table;
pub mod text;

pub use block::Block;
pub use bordered::Bordered;
pub use centered::Centered;
pub use divider::Divider;
pub use fill::Fill;
pub use padding::Padding;
pub use popup::Popup;
pub use progress_bar::ProgressBar;
pub use spinner::{Spinner, SpinnerStyle};
pub use stack::{HStack, VStack};
pub use table::{Row, Table};
pub use text::Text;

verus! {

/// The core rendering trait. Implement this to create a custom widget.
///
/// `render` writes into `buf` within the bounds of `area`: every cell outside
/// `area` keeps its content, and the buffer keeps its size. Out-of-bounds writes are
/// silently ignored by [`Buffer`]. Call [`Buffer::mark_animated`] if the widget
/// produces time-varying output that needs periodic redraws.
///
/// Widgets are rendered into areas whose right and bottom edges can be counted
/// in a `u16` ([`Rect::fits`]).
pub trait Widget {
    /// Whether drawing the widget into `area` of the buffer `before` can leave the
    /// buffer `after`: what the widget draws. A widget that does not describe what
    /// it draws promises nothing more than the other clauses of `render`.
    open spec fn drawn(&self, area: Rect, before: Buffer, after: Buffer) -> bool {
        true
    }

    /// Draws the widget into `area` of `buf`.
    fn render(&self, area: Rect, buf: &mut Buffer)
        requires
            old(buf).wf(),
            area.fits(),
        ensures
            final(buf).wf(),
            final(buf).spec_area() == old(buf).spec_area(),
            unchanged_outside(final(buf)@, old(buf)@, old(buf).spec_area(), area),
            self.drawn(area, *old(buf), *final(buf)),
    ;

    /// Returns the widget's intrinsic size as `(width, height)` in terminal cells, if it has one.
    ///
    /// `Centered` uses this to compute a centred sub-rect. Return `None` (the
    /// default) to opt out — the widget will fill whatever area it is given.
    fn natural_size(&self) -> (r: Option<(u16, u16)>)
        default_ensures
            r is None,
    {
        None
    }
}

/// A widget of any type, as a child of a [`VStack`] or [`HStack`].
pub type BoxedWidget = Box<dyn Widget>;

/// Boxes a widget so that it can be a child of a [`VStack`] or [`HStack`].
pub fn boxed<W: Widget + 'static>(w: W) -> (r: BoxedWidget) {
    Box::new(w)
}

/// Extension methods for all [`Widget`] types that produce `(Constraint, BoxedWidget)` pairs
/// for use as children in [`VStack`] and [`HStack`].
pub trait WidgetExt: Widget + Sized + 'static {
    /// Use all remaining space, shared equally with other `Fill` siblings.
    fn fill(self) -> (r: (Constraint, BoxedWidget))
        ensures
            r.0 is Fill,
    {
        (Constraint::Fill, boxed(self))
    }

    /// Use exactly `n` rows (in a [`VStack`]) or columns (in an [`HStack`]).
    fn fixed(self, n: u16) -> (r: (Constraint, BoxedWidget))
        ensures
            r.0 == Constraint::Fixed(n),
    {
        (Constraint::Fixed(n), boxed(self))
    }

    /// Use a fractional share of the total space, e.g. `ratio(1, 3)` = one third.
    fn ratio(self, num: u16, den: u16) -> (r: (Constraint, BoxedWidget))
        ensures
            r.0 == Constraint::Ratio(num, den),
    {
        (Constraint::Ratio(num, den), boxed(self))
    }
}

impl<W: Widget + Sized + 'static> WidgetExt for W {

}

} // verus!
