//! The [`Rect`] type: a rectangular region of the terminal measured in cells.

use vstd::prelude::*;

verus! {

/// A rectangle of terminal cells whose top-left corner is at column `x`, row `y`.
#[derive(Debug, Copy, Clone, PartialEq, Eq, Structural)]
pub struct Rect {
    pub x: u16,
    pub y: u16,
    pub width: u16,
    pub height: u16,
}

impl Rect {
    /// Whether the cell at column `cx`, row `cy` lies inside this rectangle.
    pub open spec fn contains(self, cx: int, cy: int) -> bool {
        &&& self.x <= cx < self.x + self.width
        &&& self.y <= cy < self.y + self.height
    }

    /// Whether every column and row of the rectangle, and the column and row just
    /// past it, can be counted in a `u16`: `x + width` and `y + height` do not
    /// overflow.
    pub open spec fn fits(self) -> bool {
        &&& self.x + self.width <= u16::MAX
        &&& self.y + self.height <= u16::MAX
    }

    /// Whether every cell of `self` is also a cell of `outer` (an empty rectangle is
    /// within any rectangle).
    pub open spec fn within(self, outer: Rect) -> bool {
        ||| self.width == 0
        ||| self.height == 0
        ||| {
            &&& outer.x <= self.x
            &&& self.x + self.width <= outer.x + outer.width
            &&& outer.y <= self.y
            &&& self.y + self.height <= outer.y + outer.height
        }
    }

    /// The rectangle shrunk by `margin` on every side, clamping its size at zero.
    pub open spec fn spec_inner(self, margin: u16) -> Rect {
        Rect {
            x: (self.x + margin) as u16,
            y: (self.y + margin) as u16,
            width: if self.width >= 2 * margin { (self.width - 2 * margin) as u16 } else { 0 },
            height: if self.height >= 2 * margin { (self.height - 2 * margin) as u16 } else { 0 },
        }
    }

    /// Number of cells covered by the rectangle.
    pub fn area(&self) -> (r: u16)
        requires
            self.width * self.height <= u16::MAX,
        ensures
            r == self.width * self.height,
    {
        self.width * self.height
    }

    /// Shrink the Rect by `margin` on all four sides.
    ///
    /// Clamps the width and height to zero.
    pub fn inner(self, margin: u16) -> (r: Rect)
        requires
            self.x + margin <= u16::MAX,
            self.y + margin <= u16::MAX,
        ensures
            r == self.spec_inner(margin),
            r.within(self),
    {
        Rect {
            x: self.x + margin,
            y: self.y + margin,
            width: self.width.saturating_sub(margin).saturating_sub(margin),
            height: self.height.saturating_sub(margin).saturating_sub(margin),
        }
    }
}

/// A cell inside a rectangle lies inside every rectangle that contains it.
pub proof fn lemma_within_contains(inner: Rect, outer: Rect, cx: int, cy: int)
    requires
        inner.within(outer),
        inner.contains(cx, cy),
    ensures
        outer.contains(cx, cy),
{
}

} // verus!
