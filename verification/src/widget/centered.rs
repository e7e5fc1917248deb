//! [`Centered`] — renders a child widget in the middle of the available area.

use vstd::prelude::*;
use crate::buffer::Buffer;
use crate::geometry::Rect;
use crate::widget::Widget;

verus! {

/// The rectangle a child of natural size `size` is drawn into: that size, clamped
/// to `area`, centred in it (rounding towards the top left); all of `area` when the
/// child has no natural size.
pub open spec fn centered_rect(area: Rect, size: Option<(u16, u16)>) -> Rect {
    match size {
        Some((w, h)) => Rect {
            x: (area.x + area.width.saturating_sub(w) / 2) as u16,
            y: (area.y + area.height.saturating_sub(h) / 2) as u16,
            width: if w < area.width { w } else { area.width },
            height: if h < area.height { h } else { area.height },
        },
        None => area,
    }
}

/// Computes the centred rectangle for a child of natural size `size` in `area`.
pub fn centered_area(area: Rect, size: Option<(u16, u16)>) -> (r: Rect)
    requires
        area.x + area.width <= u16::MAX,
        area.y + area.height <= u16::MAX,
    ensures
        r == centered_rect(area, size),
        r.within(area),
        area.fits() ==> r.fits(),
{
    match size {
        Some((child_w, child_h)) => {
            let x = area.x + area.width.saturating_sub(child_w) / 2;
            let y = area.y + area.height.saturating_sub(child_h) / 2;
            let width = if child_w < area.width {
                child_w
            } else {
                area.width
            };
            let height = if child_h < area.height {
                child_h
            } else {
                area.height
            };
            Rect { x, y, width, height }
        },
        None => area,
    }
}

/// Wraps any widget and renders it centred within the available area.
///
/// Centering uses [`Widget::natural_size`]. If the child returns `None`,
/// it is rendered into the full area unchanged.
pub struct Centered<W: Widget> {
    child: W,
}

impl<W: Widget> Centered<W> {
    /// The centred child.
    pub closed spec fn spec_child(&self) -> W {
        self.child
    }

    /// Centres `child`.
    pub fn new(child: W) -> (r: Centered<W>)
        ensures
            r.spec_child() == child,
    {
        Centered { child }
    }
}

impl<W: Widget> Widget for Centered<W> {
    /// The child, drawn into the rectangle centred for the natural size it reports.
    open spec fn drawn(&self, area: Rect, before: Buffer, after: Buffer) -> bool {
        exists|size: Option<(u16, u16)>|
            call_ensures(W::natural_size, (&self.spec_child(),), size)
                && #[trigger] self.spec_child().drawn(centered_rect(area, size), before, after)
    }

    /// Draws the child into the rectangle centred for its natural size; nothing
    /// outside that rectangle changes.
    fn render(&self, area: Rect, buf: &mut Buffer)
        ensures
            exists|size: Option<(u16, u16)>|
                crate::buffer::unchanged_outside(
                    final(buf)@,
                    old(buf)@,
                    old(buf).spec_area(),
                    #[trigger] centered_rect(area, size),
                ),
    {
        let size = self.child.natural_size();
        let render_area = centered_area(area, size);
        let ghost start = buf@;
        let ghost b0 = *buf;
        self.child.render(render_area, buf);
        proof {
            assert(self.spec_child().drawn(centered_rect(area, size), b0, *buf));
            assert(crate::buffer::unchanged_outside(buf@, start, buf.spec_area(), centered_rect(area, size)));
            crate::buffer::lemma_unchanged_refl(start, buf.spec_area(), area);
            crate::buffer::lemma_unchanged_trans(
                start,
                start,
                buf@,
                buf.spec_area(),
                area,
                render_area,
                area,
            );
        }
    }
}

} // verus!
