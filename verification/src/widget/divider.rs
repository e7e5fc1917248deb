//! [`Divider`] — a horizontal or vertical rule.

use vstd::prelude::*;
use crate::buffer::{
    Buffer, Cell, CellWrite, put_all, styled_cell, unchanged_outside, write_within, known_width,
    lemma_put_unchanged, lemma_unchanged_trans, lemma_unchanged_refl,
};
use crate::geometry::Rect;
use crate::style::{Style, plain_style};
use crate::widget::Widget;

verus! {

/// The write of the `i`-th cell of a rule in `area`.
pub open spec fn divider_write(area: Rect, st: Style, i: int) -> CellWrite {
    if area.width >= area.height {
        ((area.x + i) as u16, area.y, styled_cell('─', st))
    } else {
        (area.x, (area.y + i) as u16, styled_cell('│', st))
    }
}

/// The length of the rule drawn in `area`: its width when it is at least as wide
/// as high, else its height.
pub open spec fn divider_len(area: Rect) -> int {
    if area.width == 0 || area.height == 0 {
        0
    } else if area.width >= area.height {
        area.width as int
    } else {
        area.height as int
    }
}

/// The writes that draw a rule into `area`: a row of `─` along the top when the
/// area is at least as wide as high, else a column of `│` down the left side;
/// nothing in an empty area.
pub open spec fn divider_writes(area: Rect, st: Style) -> Seq<CellWrite> {
    Seq::new(divider_len(area) as nat, |i: int| divider_write(area, st, i))
}

/// A rule fills the top row of an area at least as wide as high with `─`, or else
/// the left column with `│`, all in the divider's style, and writes nothing else.
pub proof fn lemma_divider_fills_rule(area: Rect, st: Style, i: int)
    ensures
        area.width > 0 && area.height > 0 && area.width >= area.height && 0 <= i < area.width
            ==> divider_writes(area, st).contains(
            ((area.x + i) as u16, area.y, Cell { ch: '─', style: st }),
        ),
        area.width > 0 && area.height > 0 && area.width < area.height && 0 <= i < area.height
            ==> divider_writes(area, st).contains(
            (area.x, (area.y + i) as u16, Cell { ch: '│', style: st }),
        ),
        divider_writes(area, st).len() == if area.width == 0 || area.height == 0 {
            0
        } else if area.width >= area.height {
            area.width as int
        } else {
            area.height as int
        },
        forall|k: int|
            0 <= k < divider_writes(area, st).len() ==> (#[trigger] divider_writes(area, st)[k]).2.style
                == st && (if area.width >= area.height {
                divider_writes(area, st)[k].1 == area.y && divider_writes(area, st)[k].2.ch == '─'
            } else {
                divider_writes(area, st)[k].0 == area.x && divider_writes(area, st)[k].2.ch == '│'
            }),
{
    let ws = divider_writes(area, st);
    if area.width > 0 && area.height > 0 && 0 <= i < ws.len() {
        assert(ws[i] == divider_write(area, st, i));
    }
}

/// A horizontal (`─`) or vertical (`│`) rule that fills its entire area.
///
/// Orientation is chosen automatically: horizontal when `width >= height`, vertical otherwise.
pub struct Divider {
    style: Style,
}

impl Divider {
    /// The style of the rule.
    pub closed spec fn spec_style(&self) -> Style {
        self.style
    }

    /// A rule in the plain style.
    pub fn new() -> (r: Divider)
        ensures
            r.spec_style() == plain_style(),
    {
        Self { style: Style::default() }
    }

    /// A rule in `style`.
    pub fn styled(style: Style) -> (r: Divider)
        ensures
            r.spec_style() == style,
    {
        Self { style }
    }
}

impl Default for Divider {
    fn default() -> (r: Divider)
        ensures
            r.spec_style() == plain_style(),
    {
        Self::new()
    }
}

impl Widget for Divider {
    /// The rule, in the divider's style.
    open spec fn drawn(&self, area: Rect, before: Buffer, after: Buffer) -> bool {
        &&& after.spec_area() == before.spec_area()
        &&& after.spec_animated() == before.spec_animated()
        &&& after@ == put_all(before.spec_area(), before@, divider_writes(area, self.spec_style()))
    }

    fn render(&self, area: Rect, buf: &mut Buffer)
        ensures
            final(buf)@ == put_all(old(buf).spec_area(), old(buf)@, divider_writes(area, self.spec_style())),
    {
        let ghost anim = buf.spec_animated();
        let ghost start = buf@;
        let ghost barea = buf.spec_area();
        proof {
            lemma_unchanged_refl(start, barea, area);
        }
        if area.width == 0 || area.height == 0 {
            proof {
                assert(divider_writes(area, self.style) =~= Seq::<CellWrite>::empty());
            }
            return;
        }
        let horizontal = area.width >= area.height;
        let n = if horizontal {
            area.width
        } else {
            area.height
        };
        let mut i: u16 = 0;
        while i < n
            invariant
                i <= n,
                n == divider_len(area),
                horizontal == (area.width >= area.height),
                area.width > 0,
                area.height > 0,
                area.fits(),
                buf.wf(),
                buf.spec_animated() == anim,
                buf.spec_area() == barea,
                barea == old(buf).spec_area(),
                start == old(buf)@,
                buf@ == put_all(barea, start, divider_writes(area, self.style).take(i as int)),
                unchanged_outside(buf@, start, barea, area),
            decreases n - i,
        {
            let ghost before = buf@;
            if horizontal {
                buf.set_cell(area.x + i, area.y, Cell { ch: '─', style: self.style });
            } else {
                buf.set_cell(area.x, area.y + i, Cell { ch: '│', style: self.style });
            }
            proof {
                let ws = divider_writes(area, self.style);
                let w = divider_write(area, self.style, i as int);
                assert(ws.take(i + 1).drop_last() =~= ws.take(i as int));
                assert(ws.take(i + 1).last() == w);
                assert(known_width(w.2.ch));
                assert(write_within(w, area));
                crate::buffer::lemma_put_all_len(barea, start, ws.take(i as int));
                lemma_put_unchanged(barea, before, w, area);
                lemma_unchanged_trans(start, before, buf@, barea, area, area, area);
            }
            i = i + 1;
        }
        proof {
            assert(divider_writes(area, self.style).take(n as int) =~= divider_writes(area, self.style));
        }
    }
}

} // verus!
