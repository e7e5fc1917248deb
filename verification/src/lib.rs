//! A small terminal UI library: widgets render into a [`Buffer`] of styled cells,
//! laid out by a constraint solver.
//!
//! - Widgets implement [`Widget`] and write into a [`Buffer`] during [`Frame::render`];
//!   every widget keeps to the area it is given.
//! - Layout is handled by [`VStack`] / [`HStack`] with [`Constraint`]-based sizing.
//! - [`terminal`] holds the decisions of the render loop: which events redraw, and
//!   which terminal operations turn the previous frame into the next.

pub mod buffer;
pub mod geometry;
pub mod layout;
pub mod progress;
pub mod style;
pub mod terminal;
pub mod widget;

pub use buffer::{Buffer, Cell};
pub use geometry::Rect;
pub use layout::Constraint;
pub use progress::ProgressState;
pub use style::{Color, Span, Style};
pub use terminal::Frame;
pub use widget::{
    Block, Bordered, BoxedWidget, Centered, Divider, Fill, HStack, Padding, Popup, ProgressBar,
    Row, Spinner, SpinnerStyle, Table, Text, VStack, Widget, WidgetExt, boxed,
};
