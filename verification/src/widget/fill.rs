//! A filled in box widget

use vstd::prelude::*;
use crate::buffer::{
    Buffer, Cell, CellWrite, put_all, styled_cell, unchanged_outside, write_within, known_width,
    lemma_put_unchanged, lemma_unchanged_trans, lemma_unchanged_refl,
};
use crate::geometry::Rect;
use crate::style::Style;
use crate::widget::Widget;

verus! {

/// The write of the `i`-th cell of `area` in row-major order: a space in `st`.
pub open spec fn fill_write(area: Rect, st: Style, i: int) -> CellWrite {
    ((area.x + i % (area.width as int)) as u16, (area.y + i / (area.width as int)) as u16, styled_cell(' ', st))
}

/// The writes that paint every cell of `area` with a space in `st`, row by row.
pub open spec fn fill_writes(area: Rect, st: Style) -> Seq<CellWrite> {
    Seq::new((area.width * area.height) as nat, |i: int| fill_write(area, st, i))
}

/// Filling paints every cell of the area, and nothing else: each cell of the area
/// gets a space in the fill's style, and every write is such a space inside the
/// area.
pub proof fn lemma_fill_covers_area(area: Rect, st: Style, cx: int, cy: int)
    ensures
        area.contains(cx, cy) && area.fits() ==> fill_writes(area, st).contains(
            (cx as u16, cy as u16, Cell { ch: ' ', style: st }),
        ),
        area.fits() ==> forall|i: int|
            0 <= i < fill_writes(area, st).len() ==> area.contains(
                (#[trigger] fill_writes(area, st)[i]).0 as int,
                fill_writes(area, st)[i].1 as int,
            ) && fill_writes(area, st)[i].2 == (Cell { ch: ' ', style: st }),
{
    let w = area.width as int;
    let ws = fill_writes(area, st);
    assert forall|i: int| area.fits() && 0 <= i < ws.len() implies area.contains(
        (#[trigger] ws[i]).0 as int,
        ws[i].1 as int,
    ) && ws[i].2 == (Cell { ch: ' ', style: st }) by {
        assert(ws[i] == fill_write(area, st, i));
        assert(w > 0) by (nonlinear_arith)
            requires
                0 <= i < area.width * area.height,
                w == area.width,
        ;
        assert(0 <= i % w < w && 0 <= i / w < area.height) by (nonlinear_arith)
            requires
                0 <= i < w * area.height,
                w > 0,
        ;
    }
    if area.contains(cx, cy) && area.fits() {
        let i = (cy - area.y) * w + (cx - area.x);
        assert(0 <= i < w * area.height && i % w == cx - area.x && i / w == cy - area.y) by (nonlinear_arith)
            requires
                i == (cy - area.y) * w + (cx - area.x),
                0 <= cx - area.x < w,
                0 <= cy - area.y < area.height,
        ;
        assert(ws[i] == (cx as u16, cy as u16, Cell { ch: ' ', style: st }));
    }
}

/// A box that can be drawn with an optional fill colour
pub struct Fill {
    style: Style,
}

impl Fill {
    /// The style the box is painted in.
    pub closed spec fn spec_style(&self) -> Style {
        self.style
    }

    /// A box painted in `style`.
    pub fn new(style: Style) -> (r: Fill)
        ensures
            r.spec_style() == style,
    {
        Fill { style }
    }
}

impl Widget for Fill {
    /// Blanks in the fill's style over the whole area.
    open spec fn drawn(&self, area: Rect, before: Buffer, after: Buffer) -> bool {
        &&& after.spec_area() == before.spec_area()
        &&& after.spec_animated() == before.spec_animated()
        &&& after@ == put_all(before.spec_area(), before@, fill_writes(area, self.spec_style()))
    }

    fn render(&self, area: Rect, buf: &mut Buffer)
        ensures
            final(buf)@ == put_all(old(buf).spec_area(), old(buf)@, fill_writes(area, self.spec_style())),
    {
        let ghost anim = buf.spec_animated();
        let ghost start = buf@;
        let ghost barea = buf.spec_area();
        let ghost ws = fill_writes(area, self.style);
        proof {
            lemma_unchanged_refl(start, barea, area);
            crate::buffer::lemma_area_fits_usize(area);
        }
        let mut row: u16 = 0;
        while row < area.height
            invariant
                row <= area.height,
                area.fits(),
                buf.wf(),
                buf.spec_animated() == anim,
                buf.spec_area() == barea,
                barea == old(buf).spec_area(),
                start == old(buf)@,
                ws == fill_writes(area, self.style),
                buf@ == put_all(barea, start, ws.take(row * area.width)),
                unchanged_outside(buf@, start, barea, area),
            decreases area.height - row,
        {
            let mut col: u16 = 0;
            while col < area.width
                invariant
                    row < area.height,
                    col <= area.width,
                    area.fits(),
                    buf.wf(),
                    buf.spec_animated() == anim,
                    buf.spec_area() == barea,
                    barea == old(buf).spec_area(),
                    start == old(buf)@,
                    ws == fill_writes(area, self.style),
                    buf@ == put_all(barea, start, ws.take(row * area.width + col)),
                    unchanged_outside(buf@, start, barea, area),
                decreases area.width - col,
            {
                let ghost before = buf@;
                let ghost k = row * area.width + col;
                proof {
                    assert(k < area.width * area.height) by (nonlinear_arith)
                        requires
                            k == row * area.width + col,
                            col < area.width,
                            row < area.height,
                    ;
                    assert(k % (area.width as int) == col && k / (area.width as int) == row) by (nonlinear_arith)
                        requires
                            k == row * area.width + col,
                            0 <= col < area.width,
                            0 <= row,
                    ;
                }
                buf.set_cell(area.x + col, area.y + row, Cell { ch: ' ', style: self.style });
                proof {
                    let w = fill_write(area, self.style, k);
                    assert(ws[k] == w);
                    assert(ws.take(k + 1).drop_last() =~= ws.take(k));
                    assert(ws.take(k + 1).last() == w);
                    assert(known_width(' '));
                    assert(write_within(w, area));
                    crate::buffer::lemma_put_all_len(barea, start, ws.take(k));
                    lemma_put_unchanged(barea, before, w, area);
                    lemma_unchanged_trans(start, before, buf@, barea, area, area, area);
                }
                col = col + 1;
            }
            proof {
                assert((row + 1) * area.width == row * area.width + area.width) by (nonlinear_arith);
            }
            row = row + 1;
        }
        proof {
            assert(area.height * area.width == area.width * area.height) by (nonlinear_arith);
            assert(ws.take(area.height * area.width) =~= ws);
        }
    }
}

} // verus!
