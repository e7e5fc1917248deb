//! [`Popup`] — renders a background widget and an overlay widget centred on top.

use vstd::prelude::*;
use crate::buffer::Buffer;
use crate::geometry::Rect;
use crate::widget::Widget;

verus! {

/// One fifth of `extent`, rounded down, but at least one cell.
pub open spec fn fifth_at_least_one(extent: u16) -> u16 {
    if extent * 20 / 100 >= 1 {
        (extent * 20 / 100) as u16
    } else {
        1
    }
}

/// The larger of two sizes.
pub open spec fn max_u16(a: u16, b: u16) -> u16 {
    if a >= b {
        a
    } else {
        b
    }
}

/// The smaller of two sizes.
pub open spec fn min_u16(a: u16, b: u16) -> u16 {
    if a <= b {
        a
    } else {
        b
    }
}

/// The rectangle the overlay is drawn into: at least a fifth of the area on each
/// axis (and at least one cell), grown to the overlay's natural size, clamped to the
/// area, and centred in it.
pub open spec fn popup_rect(area: Rect, size: Option<(u16, u16)>) -> Rect {
    let dw = fifth_at_least_one(area.width);
    let dh = fifth_at_least_one(area.height);
    let (w, h) = match size {
        Some((w, h)) => (max_u16(w, dw), max_u16(h, dh)),
        None => (dw, dh),
    };
    let pw = min_u16(w, area.width);
    let ph = min_u16(h, area.height);
    Rect {
        x: area.x.saturating_add(((area.width - pw) / 2) as u16),
        y: area.y.saturating_add(((area.height - ph) / 2) as u16),
        width: pw,
        height: ph,
    }
}

/// The popup rectangle lies within the area's size and is centred in it. On each
/// axis it is at least a fifth of the area (and at least one cell), and at least
/// the overlay's natural extent, as far as the area allows; it is exactly the
/// larger of those two, capped by the area.
pub proof fn lemma_popup_rect_bounds(area: Rect, size: Option<(u16, u16)>)
    ensures
        ({
            let r = popup_rect(area, size);
            let dw: int = if area.width * 20 / 100 >= 1 { area.width * 20 / 100 } else { 1 };
            let dh: int = if area.height * 20 / 100 >= 1 { area.height * 20 / 100 } else { 1 };
            let nw: int = match size { Some((w, h)) => w as int, None => 0 };
            let nh: int = match size { Some((w, h)) => h as int, None => 0 };
            let want_w: int = if nw > dw { nw } else { dw };
            let want_h: int = if nh > dh { nh } else { dh };
            &&& r.width == (if want_w < area.width { want_w } else { area.width as int })
            &&& r.height == (if want_h < area.height { want_h } else { area.height as int })
            &&& r.width <= area.width
            &&& r.height <= area.height
            &&& (r.width >= dw || r.width == area.width)
            &&& (r.height >= dh || r.height == area.height)
            &&& (size is Some ==> (r.width >= nw || r.width == area.width))
            &&& (size is Some ==> (r.height >= nh || r.height == area.height))
            &&& (area.x + (area.width - r.width) / 2 <= u16::MAX ==> r.x == area.x + (area.width
                - r.width) / 2)
            &&& (area.y + (area.height - r.height) / 2 <= u16::MAX ==> r.y == area.y + (area.height
                - r.height) / 2)
        }),
{
}

/// Computes the overlay rectangle of [`popup_rect`].
pub fn popup_area(area: Rect, size: Option<(u16, u16)>) -> (r: Rect)
    ensures
        r == popup_rect(area, size),
        r.within(area),
        area.fits() ==> r.fits(),
{
    let default_w = {
        let fifth = (area.width as u32 * 20 / 100) as u16;
        if fifth >= 1 {
            fifth
        } else {
            1
        }
    };
    let default_h = {
        let fifth = (area.height as u32 * 20 / 100) as u16;
        if fifth >= 1 {
            fifth
        } else {
            1
        }
    };
    let (popup_w, popup_h) = match size {
        Some((w, h)) => (
            if w >= default_w {
                w
            } else {
                default_w
            },
            if h >= default_h {
                h
            } else {
                default_h
            },
        ),
        None => (default_w, default_h),
    };
    let popup_w = if popup_w <= area.width {
        popup_w
    } else {
        area.width
    };
    let popup_h = if popup_h <= area.height {
        popup_h
    } else {
        area.height
    };
    let x = area.x.saturating_add(area.width.saturating_sub(popup_w) / 2);
    let y = area.y.saturating_add(area.height.saturating_sub(popup_h) / 2);
    Rect { x, y, width: popup_w, height: popup_h }
}

/// Drawing `background` into `area` of `before` leaves `mid`, and drawing
/// `overlay` into the popup rectangle for `size`, the natural size the overlay
/// reports, then leaves `after`; when the area is empty the overlay is not drawn.
pub open spec fn popup_drawn<B: Widget, O: Widget>(
    background: B,
    overlay: O,
    area: Rect,
    before: Buffer,
    mid: Buffer,
    size: Option<(u16, u16)>,
    after: Buffer,
) -> bool {
    &&& background.drawn(area, before, mid)
    &&& if area.width == 0 || area.height == 0 {
        after == mid
    } else {
        &&& call_ensures(O::natural_size, (&overlay,), size)
        &&& overlay.drawn(popup_rect(area, size), mid, after)
    }
}

/// Renders a background widget into the full area, then renders an overlay widget
/// centred on top.
///
/// The popup rect is at least 20 % × 20 % of the available area and grows to fit
/// the overlay's [`Widget::natural_size`] when that is larger. If the overlay
/// returns `None` from `natural_size`, the 20 % × 20 % default is used.
pub struct Popup<B: Widget, O: Widget> {
    background: B,
    overlay: O,
}

impl<B: Widget, O: Widget> Popup<B, O> {
    /// The background widget.
    pub closed spec fn spec_background(&self) -> B {
        self.background
    }

    /// The overlay widget.
    pub closed spec fn spec_overlay(&self) -> O {
        self.overlay
    }

    /// `overlay` centred over `background`.
    pub fn new(background: B, overlay: O) -> (r: Popup<B, O>)
        ensures
            r.spec_background() == background,
            r.spec_overlay() == overlay,
    {
        Popup { background, overlay }
    }
}

impl<B: Widget, O: Widget> Widget for Popup<B, O> {
    /// The background drawn into `area`, then, unless the area is empty, the
    /// overlay drawn into the popup rectangle for the size it reports.
    open spec fn drawn(&self, area: Rect, before: Buffer, after: Buffer) -> bool {
        exists|mid: Buffer, size: Option<(u16, u16)>|
            #[trigger] popup_drawn(self.spec_background(), self.spec_overlay(), area, before, mid, size, after)
    }

    /// Draws the background into `area`, then the overlay into the popup rectangle
    /// for the overlay's natural size: the overlay changes nothing outside it.
    fn render(&self, area: Rect, buf: &mut Buffer)
        ensures
            exists|mid: Seq<crate::buffer::Cell>, size: Option<(u16, u16)>|
                #![trigger crate::buffer::unchanged_outside(final(buf)@, mid, old(buf).spec_area(), popup_rect(area, size))]
                crate::buffer::unchanged_outside(mid, old(buf)@, old(buf).spec_area(), area)
                    && crate::buffer::unchanged_outside(
                    final(buf)@,
                    mid,
                    old(buf).spec_area(),
                    popup_rect(area, size),
                ),
    {
        let ghost start = buf@;
        let ghost b0 = *buf;
        self.background.render(area, buf);
        let ghost mid = buf@;
        let ghost bmid = *buf;
        if area.width == 0 || area.height == 0 {
            proof {
                crate::buffer::lemma_unchanged_refl(mid, buf.spec_area(), popup_rect(area, None));
                assert(popup_drawn(self.spec_background(), self.spec_overlay(), area, b0, bmid, None, *buf));
            }
            return;
        }
        let size = self.overlay.natural_size();
        let rect = popup_area(area, size);
        self.overlay.render(rect, buf);
        proof {
            assert(popup_drawn(self.spec_background(), self.spec_overlay(), area, b0, bmid, size, *buf));
            crate::buffer::lemma_unchanged_trans(start, mid, buf@, buf.spec_area(), area, rect, area);
            assert(crate::buffer::unchanged_outside(buf@, mid, buf.spec_area(), popup_rect(area, size)));
        }
    }
}

} // verus!
