//! [`Padding`] — wraps any widget and insets its render area.

use vstd::prelude::*;
use crate::buffer::Buffer;
use crate::geometry::Rect;
use crate::widget::Widget;

verus! {

/// The area left inside `area` after insetting it by `top`, `right`, `bottom` and
/// `left` cells: the origin moves by the left and top insets (at most the width
/// and height), and the size shrinks by both insets of each axis, clamped at zero.
pub open spec fn padded_rect(area: Rect, top: u16, right: u16, bottom: u16, left: u16) -> Rect {
    Rect {
        x: area.x.saturating_add(if left < area.width { left } else { area.width }),
        y: area.y.saturating_add(if top < area.height { top } else { area.height }),
        width: area.width.saturating_sub(left.saturating_add(right)),
        height: area.height.saturating_sub(top.saturating_add(bottom)),
    }
}

/// Computes the inset area of [`padded_rect`].
pub fn padded_area(area: Rect, top: u16, right: u16, bottom: u16, left: u16) -> (r: Rect)
    ensures
        r == padded_rect(area, top, right, bottom, left),
        r.within(area),
        area.fits() ==> r.fits(),
{
    Rect {
        x: area.x.saturating_add(if left < area.width { left } else { area.width }),
        y: area.y.saturating_add(if top < area.height { top } else { area.height }),
        width: area.width.saturating_sub(left.saturating_add(right)),
        height: area.height.saturating_sub(top.saturating_add(bottom)),
    }
}

/// Wraps any widget and insets its render area by a configurable amount on each side.
///
/// Use [`Padding::all`] for uniform padding, [`Padding::axes`] for separate
/// horizontal/vertical padding, or [`Padding::new`] for full per-side control.
pub struct Padding<W: Widget> {
    top: u16,
    right: u16,
    bottom: u16,
    left: u16,
    child: W,
}

impl<W: Widget> Padding<W> {
    /// The insets, in the order top, right, bottom, left.
    pub closed spec fn insets(&self) -> (u16, u16, u16, u16) {
        (self.top, self.right, self.bottom, self.left)
    }

    /// The wrapped widget.
    pub closed spec fn spec_child(&self) -> W {
        self.child
    }

    /// Uniform padding on all four sides.
    pub fn all(amount: u16, child: W) -> (r: Padding<W>)
        ensures
            r.insets() == (amount, amount, amount, amount),
            r.spec_child() == child,
    {
        Self::new(amount, amount, amount, amount, child)
    }

    /// Separate horizontal (left + right) and vertical (top + bottom) padding.
    pub fn axes(horizontal: u16, vertical: u16, child: W) -> (r: Padding<W>)
        ensures
            r.insets() == (vertical, horizontal, vertical, horizontal),
            r.spec_child() == child,
    {
        Self::new(vertical, horizontal, vertical, horizontal, child)
    }

    /// Full per-side control: top, right, bottom, left.
    pub fn new(top: u16, right: u16, bottom: u16, left: u16, child: W) -> (r: Padding<W>)
        ensures
            r.insets() == (top, right, bottom, left),
            r.spec_child() == child,
    {
        Padding { top, right, bottom, left, child }
    }

    /// The area the child is rendered into when the padding is given `area`.
    pub fn inner(&self, area: Rect) -> (r: Rect)
        ensures
            r == padded_rect(area, self.insets().0, self.insets().1, self.insets().2, self.insets().3),
            r.within(area),
    {
        padded_area(area, self.top, self.right, self.bottom, self.left)
    }
}

/// A natural size grown by the insets of each axis, saturating at `u16::MAX`.
pub open spec fn padded_size(size: Option<(u16, u16)>, top: u16, right: u16, bottom: u16, left: u16) -> Option<(u16, u16)> {
    match size {
        Some((w, h)) => Some(
            (w.saturating_add(left.saturating_add(right)), h.saturating_add(top.saturating_add(bottom))),
        ),
        None => None,
    }
}

/// The padded natural width is the child's width plus the left and right insets,
/// and the padded height the child's height plus the top and bottom insets, each
/// capped at `u16::MAX`; a child without a natural size gives none.
pub proof fn lemma_padded_size_adds_insets(
    size: Option<(u16, u16)>,
    top: u16,
    right: u16,
    bottom: u16,
    left: u16,
)
    ensures
        size is None ==> padded_size(size, top, right, bottom, left) is None,
        size matches Some((w, h)) ==> {
            let pw = w + left + right;
            let ph = h + top + bottom;
            padded_size(size, top, right, bottom, left) == Some(
                (
                    (if pw > u16::MAX { u16::MAX as int } else { pw }) as u16,
                    (if ph > u16::MAX { u16::MAX as int } else { ph }) as u16,
                ),
            )
        },
{
}

/// Grows a natural size by the insets of each axis.
pub fn grow_size(size: Option<(u16, u16)>, top: u16, right: u16, bottom: u16, left: u16) -> (r: Option<(u16, u16)>)
    ensures
        r == padded_size(size, top, right, bottom, left),
{
    match size {
        Some((w, h)) => Some(
            (w.saturating_add(left.saturating_add(right)), h.saturating_add(top.saturating_add(bottom))),
        ),
        None => None,
    }
}

impl<W: Widget> Widget for Padding<W> {
    /// The child, drawn into the inset area.
    open spec fn drawn(&self, area: Rect, before: Buffer, after: Buffer) -> bool {
        self.spec_child().drawn(
            padded_rect(area, self.insets().0, self.insets().1, self.insets().2, self.insets().3),
            before,
            after,
        )
    }

    /// Draws the child into the inset area; the padding itself is left untouched.
    fn render(&self, area: Rect, buf: &mut Buffer)
        ensures
            crate::buffer::unchanged_outside(
                final(buf)@,
                old(buf)@,
                old(buf).spec_area(),
                padded_rect(area, self.insets().0, self.insets().1, self.insets().2, self.insets().3),
            ),
    {
        let inner = self.inner(area);
        let ghost start = buf@;
        self.child.render(inner, buf);
        proof {
            crate::buffer::lemma_unchanged_refl(start, buf.spec_area(), area);
            crate::buffer::lemma_unchanged_trans(start, start, buf@, buf.spec_area(), area, inner, area);
        }
    }

    /// The child's natural size grown by the insets of each axis; none when the
    /// child has none.
    fn natural_size(&self) -> (r: Option<(u16, u16)>)
        ensures
            exists|child_size: Option<(u16, u16)>|
                call_ensures(W::natural_size, (&self.spec_child(),), child_size) && r == #[trigger] padded_size(
                    child_size,
                    self.insets().0,
                    self.insets().1,
                    self.insets().2,
                    self.insets().3,
                ),
    {
        let child_size = self.child.natural_size();
        let r = grow_size(child_size, self.top, self.right, self.bottom, self.left);
        assert(r == padded_size(
            child_size,
            self.insets().0,
            self.insets().1,
            self.insets().2,
            self.insets().3,
        ));
        r
    }
}

} // verus!
