//! [`Bordered`] — wraps any widget in a [`Block`] border.

use vstd::prelude::*;
use crate::buffer::{Buffer, put_all, unchanged_outside, lemma_unchanged_trans, lemma_unchanged_refl};
use crate::geometry::Rect;
use crate::widget::Widget;
use crate::widget::block::{Block, block_inner, block_writes};

verus! {

/// Adds two cells of border to a size on each axis, saturating at `u16::MAX`.
pub open spec fn bordered_size(size: Option<(u16, u16)>) -> Option<(u16, u16)> {
    match size {
        Some((w, h)) => Some((w.saturating_add(2), h.saturating_add(2))),
        None => None,
    }
}

/// Grows a natural size by the border: two cells on each axis, saturating.
pub fn grow_by_border(size: Option<(u16, u16)>) -> (r: Option<(u16, u16)>)
    ensures
        r == bordered_size(size),
{
    match size {
        Some((w, h)) => Some((w.saturating_add(2), h.saturating_add(2))),
        None => None,
    }
}

/// Drawing `block` into `area` of `before` leaves `mid`, and drawing `child` into
/// the area inside the border then leaves `after`; the child is not drawn when the
/// area starts at the last representable column or row (it is then empty, and the
/// area inside the border cannot be counted).
pub open spec fn bordered_drawn<W: Widget>(
    block: Block,
    child: W,
    area: Rect,
    before: Buffer,
    mid: Buffer,
    after: Buffer,
) -> bool {
    &&& block.drawn(area, before, mid)
    &&& if area.x < u16::MAX && area.y < u16::MAX {
        child.drawn(block_inner(area), mid, after)
    } else {
        after == mid
    }
}

/// Wraps any widget in a [`Block`] border, rendering the border first then the
/// child clipped to the inner area.
///
/// When the area starts at the last representable column or row (so it is empty),
/// the child is not rendered.
pub struct Bordered<W: Widget> {
    pub block: Block,
    pub child: W,
}

impl<W: Widget> Bordered<W> {
    /// `child` framed by `block`.
    pub fn new(block: Block, child: W) -> (r: Bordered<W>)
        ensures
            r.block == block,
            r.child == child,
    {
        Bordered { block, child }
    }
}

impl<W: Widget> Widget for Bordered<W> {
    /// The border and title, then the child drawn into the area inside the border
    /// when that area ends before the last representable column and row.
    open spec fn drawn(&self, area: Rect, before: Buffer, after: Buffer) -> bool {
        exists|mid: Buffer| #[trigger] bordered_drawn(self.block, self.child, area, before, mid, after)
    }

    /// Draws the border into `area`, then the child into the area inside it; outside
    /// that inner area the buffer ends up exactly as the border alone leaves it.
    fn render(&self, area: Rect, buf: &mut Buffer)
        ensures
            unchanged_outside(
                final(buf)@,
                put_all(
                    old(buf).spec_area(),
                    old(buf)@,
                    block_writes(self.block.spec_title(), self.block.spec_border_style(), area),
                ),
                old(buf).spec_area(),
                block_inner(area),
            ),
    {
        let ghost start = buf@;
        let ghost b0 = *buf;
        let ghost barea = buf.spec_area();
        self.block.render(area, buf);
        let ghost framed = buf@;
        let ghost bmid = *buf;
        proof {
            lemma_unchanged_refl(framed, barea, block_inner(area));
        }
        if area.x < u16::MAX && area.y < u16::MAX {
            let inner = self.block.inner(area);
            self.child.render(inner, buf);
            proof {
                lemma_unchanged_trans(start, framed, buf@, barea, area, inner, area);
            }
        }
        proof {
            assert(bordered_drawn(self.block, self.child, area, b0, bmid, *buf));
        }
    }

    /// The child's natural size grown by the border on each side; none when the
    /// child has none.
    fn natural_size(&self) -> (r: Option<(u16, u16)>)
        ensures
            exists|child_size: Option<(u16, u16)>|
                call_ensures(W::natural_size, (&self.child,), child_size) && r == #[trigger] bordered_size(
                    child_size,
                ),
    {
        let child_size = self.child.natural_size();
        let r = grow_by_border(child_size);
        assert(r == bordered_size(child_size));
        r
    }
}

} // verus!
