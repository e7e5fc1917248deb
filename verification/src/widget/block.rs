//! [`Block`] — a border box with an optional title.

use vstd::prelude::*;
use crate::buffer::{
    Buffer, Cell, CellWrite, put, put_all, styled_cell, unchanged_outside, write_within,
    lemma_put_unchanged, lemma_unchanged_trans, lemma_unchanged_refl, lemma_put_all_len,
};
use crate::geometry::Rect;
use crate::style::{Style, SpanContent, plain_style, string_chars};
use crate::widget::Widget;

verus! {

/// The writes that draw the top and bottom edges between the corners: for each of
/// the first `k` columns after `x0`, a `─` on row `y0` then one on row `y1`.
pub open spec fn hline_writes(x0: int, y0: u16, y1: u16, k: int, st: Style) -> Seq<CellWrite>
    decreases k,
{
    if k <= 0 {
        Seq::empty()
    } else {
        hline_writes(x0, y0, y1, k - 1, st).push(((x0 + k) as u16, y0, styled_cell('─', st))).push(
            ((x0 + k) as u16, y1, styled_cell('─', st)),
        )
    }
}

/// The writes that draw the left and right edges between the corners: for each of
/// the first `k` rows after `y0`, a `│` in column `x0` then one in column `x1`.
pub open spec fn vline_writes(x0: u16, x1: u16, y0: int, k: int, st: Style) -> Seq<CellWrite>
    decreases k,
{
    if k <= 0 {
        Seq::empty()
    } else {
        vline_writes(x0, x1, y0, k - 1, st).push((x0, (y0 + k) as u16, styled_cell('│', st))).push(
            (x1, (y0 + k) as u16, styled_cell('│', st)),
        )
    }
}

/// The write of title character `i` on the top edge, starting right after the
/// top-left corner.
pub open spec fn title_write(cs: Seq<char>, x0: int, y0: u16, st: Style, i: int) -> CellWrite {
    ((x0 + 1 + i) as u16, y0, styled_cell(cs[i], st))
}

/// The writes that put the first `n` characters of the title on the top edge, one
/// column each.
pub open spec fn title_writes(cs: Seq<char>, x0: int, y0: u16, n: int, st: Style) -> Seq<CellWrite> {
    Seq::new(n as nat, |i: int| title_write(cs, x0, y0, st, i))
}

/// The four corners of the border.
pub open spec fn corner_writes(area: Rect, st: Style) -> Seq<CellWrite> {
    let x1 = (area.x + area.width - 1) as u16;
    let y1 = (area.y + area.height - 1) as u16;
    seq![
        (area.x, area.y, styled_cell('┌', st)),
        (x1, area.y, styled_cell('┐', st)),
        (area.x, y1, styled_cell('└', st)),
        (x1, y1, styled_cell('┘', st)),
    ]
}

/// The number of title characters that fit between the top corners.
pub open spec fn title_len(title: Seq<char>, area: Rect) -> int {
    if title.len() < area.width - 2 {
        title.len() as int
    } else {
        area.width - 2
    }
}

/// The writes that draw a block with `title` and border style `st` into `area`:
/// nothing when the area is narrower or lower than two cells; else the corners,
/// the top and bottom edges, the side edges, then as much of the title as fits
/// between the top corners.
pub open spec fn block_writes(title: Option<Seq<char>>, st: Style, area: Rect) -> Seq<CellWrite> {
    if area.width < 2 || area.height < 2 {
        Seq::empty()
    } else {
        let x1 = (area.x + area.width - 1) as u16;
        let y1 = (area.y + area.height - 1) as u16;
        corner_writes(area, st) + hline_writes(area.x as int, area.y, y1, area.width - 2, st)
            + vline_writes(area.x, x1, area.y as int, area.height - 2, st) + match title {
            Some(t) => title_writes(t, area.x as int, area.y, title_len(t, area), st),
            None => Seq::empty(),
        }
    }
}

/// The area inside a border drawn around `area`.
pub open spec fn block_inner(area: Rect) -> Rect {
    Rect {
        x: (area.x + 1) as u16,
        y: (area.y + 1) as u16,
        width: if area.width >= 2 { (area.width - 2) as u16 } else { 0 },
        height: if area.height >= 2 { (area.height - 2) as u16 } else { 0 },
    }
}

/// A box drawn with Unicode line-drawing characters, with an optional title on the top border.
///
/// Typically used via [`Bordered`](crate::widget::Bordered) to frame another widget.
pub struct Block {
    title: Option<String>,
    border_style: Style,
}

impl Default for Block {
    fn default() -> (r: Block)
        ensures
            r.spec_title() is None,
            r.spec_border_style() == plain_style(),
    {
        Self::new()
    }
}

impl Block {
    /// The characters of the title, if the block has one.
    pub closed spec fn spec_title(&self) -> Option<Seq<char>> {
        match self.title {
            Some(t) => Some(t@),
            None => None,
        }
    }

    /// The style of the border and title.
    pub closed spec fn spec_border_style(&self) -> Style {
        self.border_style
    }

    /// A block without a title, in the plain style.
    pub fn new() -> (r: Block)
        ensures
            r.spec_title() is None,
            r.spec_border_style() == plain_style(),
    {
        Block { title: None, border_style: Style::default() }
    }

    /// The block with `title` on its top border.
    pub fn title<S: SpanContent>(self, title: S) -> (r: Block)
        ensures
            r.spec_title() == Some(title.chars_view()),
            r.spec_border_style() == self.spec_border_style(),
    {
        let mut b = self;
        b.title = Some(title.into_string());
        b
    }

    /// The block with its border and title drawn in `style`.
    pub fn border_style(self, style: Style) -> (r: Block)
        ensures
            r.spec_title() == self.spec_title(),
            r.spec_border_style() == style,
    {
        let mut b = self;
        b.border_style = style;
        b
    }

    /// Returns the inner area inside the border
    pub fn inner(&self, area: Rect) -> (r: Rect)
        requires
            area.x < u16::MAX,
            area.y < u16::MAX,
        ensures
            r == block_inner(area),
            r.within(area),
    {
        Rect {
            x: area.x + 1,
            y: area.y + 1,
            width: area.width.saturating_sub(2),
            height: area.height.saturating_sub(2),
        }
    }

}

proof fn lemma_hline_style(x0: int, y0: u16, y1: u16, k: int, st: Style)
    ensures
        forall|i: int|
            0 <= i < hline_writes(x0, y0, y1, k, st).len() ==> (#[trigger] hline_writes(x0, y0, y1, k, st)[i]).2.style
                == st,
    decreases k,
{
    if k > 0 {
        lemma_hline_style(x0, y0, y1, k - 1, st);
    }
}

proof fn lemma_vline_style(x0: u16, x1: u16, y0: int, k: int, st: Style)
    ensures
        forall|i: int|
            0 <= i < vline_writes(x0, x1, y0, k, st).len() ==> (#[trigger] vline_writes(x0, x1, y0, k, st)[i]).2.style
                == st,
    decreases k,
{
    if k > 0 {
        lemma_vline_style(x0, x1, y0, k - 1, st);
    }
}

/// Every cell a block writes, its title included, is in the block's border style.
pub proof fn lemma_block_writes_in_border_style(title: Option<Seq<char>>, st: Style, area: Rect)
    ensures
        forall|i: int|
            0 <= i < block_writes(title, st, area).len() ==> (#[trigger] block_writes(title, st, area)[i]).2.style
                == st,
{
    if area.width >= 2 && area.height >= 2 {
        let x1 = (area.x + area.width - 1) as u16;
        let y1 = (area.y + area.height - 1) as u16;
        let c = corner_writes(area, st);
        let h = hline_writes(area.x as int, area.y, y1, area.width - 2, st);
        let v = vline_writes(area.x, x1, area.y as int, area.height - 2, st);
        let t: Seq<CellWrite> = match title {
            Some(t) => title_writes(t, area.x as int, area.y, title_len(t, area), st),
            None => Seq::empty(),
        };
        lemma_hline_style(area.x as int, area.y, y1, area.width - 2, st);
        lemma_vline_style(area.x, x1, area.y as int, area.height - 2, st);
        let ws = block_writes(title, st, area);
        assert(ws == c + h + v + t);
        assert forall|i: int| 0 <= i < ws.len() implies (#[trigger] ws[i]).2.style == st by {
            if i < c.len() {
                assert(ws[i] == c[i]);
            } else if i < c.len() + h.len() {
                assert(ws[i] == h[i - c.len()]);
            } else if i < c.len() + h.len() + v.len() {
                assert(ws[i] == v[i - c.len() - h.len()]);
            } else {
                assert(ws[i] == t[i - c.len() - h.len() - v.len()]);
            }
        }
    }
}

/// Each title character that fits between the top corners is written on the top
/// edge, character `i` in the column `i + 1` cells right of the left edge, in the
/// border style.
pub proof fn lemma_block_title_cells(t: Seq<char>, st: Style, area: Rect, i: int)
    requires
        area.width >= 2,
        area.height >= 2,
        area.fits(),
        0 <= i < t.len(),
        i < area.width - 2,
    ensures
        block_writes(Some(t), st, area).contains(
            ((area.x + 1 + i) as u16, area.y, Cell { ch: t[i], style: st }),
        ),
{
    let x1 = (area.x + area.width - 1) as u16;
    let y1 = (area.y + area.height - 1) as u16;
    let c = corner_writes(area, st);
    let h = hline_writes(area.x as int, area.y, y1, area.width - 2, st);
    let v = vline_writes(area.x, x1, area.y as int, area.height - 2, st);
    let tw = title_writes(t, area.x as int, area.y, title_len(t, area), st);
    let ws = block_writes(Some(t), st, area);
    assert(ws == c + h + v + tw);
    let k = c.len() + h.len() + v.len() + i;
    assert(ws[k] == tw[i]);
}

/// The corners lie in the area, the right-hand ones included: box-drawing
/// characters take one column.
proof fn lemma_corners_within(area: Rect, st: Style)
    requires
        area.width >= 2,
        area.height >= 2,
        area.fits(),
        crate::buffer::known_width('┐'),
        crate::buffer::known_width('┘'),
        crate::buffer::known_width('┌'),
        crate::buffer::known_width('└'),
    ensures
        crate::buffer::writes_within(corner_writes(area, st), area),
{
}

/// Writes that stay inside a region leave the rest unchanged.
proof fn lemma_writes_unchanged(barea: Rect, cells: Seq<Cell>, ws: Seq<CellWrite>, region: Rect)
    requires
        cells.len() == barea.width * barea.height,
        crate::buffer::writes_within(ws, region),
    ensures
        unchanged_outside(put_all(barea, cells, ws), cells, barea, region),
{
    crate::buffer::lemma_put_all_unchanged_outside(barea, cells, ws, region);
}

impl Widget for Block {
    /// The border and the title.
    open spec fn drawn(&self, area: Rect, before: Buffer, after: Buffer) -> bool {
        &&& after.spec_area() == before.spec_area()
        &&& after.spec_animated() == before.spec_animated()
        &&& after@ == put_all(
            before.spec_area(),
            before@,
            block_writes(self.spec_title(), self.spec_border_style(), area),
        )
    }

    /// Draws the border and title into `area`.
    fn render(&self, area: Rect, buf: &mut Buffer)
        ensures
            final(buf).spec_animated() == old(buf).spec_animated(),
            final(buf)@ == put_all(
                old(buf).spec_area(),
                old(buf)@,
                block_writes(self.spec_title(), self.spec_border_style(), area),
            ),
    {
        let ghost start = buf@;
        let ghost barea = buf.spec_area();
        proof {
            lemma_unchanged_refl(start, barea, area);
        }
        if area.width < 2 || area.height < 2 {
            return;
        }
        let style = self.border_style;
        let x0 = area.x;
        let y0 = area.y;
        let x1 = area.x + area.width - 1;
        let y1 = area.y + area.height - 1;
        let ghost mut done: Seq<CellWrite> = Seq::empty();

        buf.set_cell(x0, y0, Cell { ch: '┌', style });
        proof {
            done = done.push((x0, y0, styled_cell('┌', style)));
            assert(done.drop_last() =~= Seq::<CellWrite>::empty());
            assert(put_all(barea, start, done.drop_last()) == start);
            assert(buf@ == put_all(barea, start, done));
        }
        buf.set_cell(x1, y0, Cell { ch: '┐', style });
        proof {
            let d = done.push((x1, y0, styled_cell('┐', style)));
            assert(d.drop_last() == done);
            done = d;
            assert(buf@ == put_all(barea, start, done));
        }
        buf.set_cell(x0, y1, Cell { ch: '└', style });
        proof {
            let d = done.push((x0, y1, styled_cell('└', style)));
            assert(d.drop_last() == done);
            done = d;
            assert(buf@ == put_all(barea, start, done));
        }
        buf.set_cell(x1, y1, Cell { ch: '┘', style });
        proof {
            let d = done.push((x1, y1, styled_cell('┘', style)));
            assert(d.drop_last() == done);
            done = d;
            assert(buf@ == put_all(barea, start, done));
            assert(done =~= corner_writes(area, style));
            assert(done =~= corner_writes(area, style) + hline_writes(x0 as int, y0, y1, 0, style));
            lemma_corners_within(area, style);
            lemma_writes_unchanged(barea, start, done, area);
        }

        let mut k: u16 = 1;
        while k < x1 - x0
            invariant
                1 <= k <= x1 - x0,
                x1 == area.x + area.width - 1,
                y1 == area.y + area.height - 1,
                x0 == area.x,
                y0 == area.y,
                area.width >= 2,
                area.height >= 2,
                area.fits(),
                buf.wf(),
                buf.spec_area() == barea,
                buf.spec_animated() == old(buf).spec_animated(),
                start == old(buf)@,
                barea == old(buf).spec_area(),
                done == corner_writes(area, style) + hline_writes(x0 as int, y0, y1, k - 1, style),
                buf@ == put_all(barea, start, done),
                unchanged_outside(buf@, start, barea, area),
            decreases x1 - x0 - k,
        {
            let ghost before = buf@;
            buf.set_cell(x0 + k, y0, Cell { ch: '─', style });
            let ghost mid = buf@;
            buf.set_cell(x0 + k, y1, Cell { ch: '─', style });
            proof {
                let w1 = ((x0 + k) as u16, y0, styled_cell('─', style));
                let w2 = ((x0 + k) as u16, y1, styled_cell('─', style));
                assert(w1.2 == Cell { ch: '─', style });
                lemma_put_all_len(barea, start, done);
                lemma_put_unchanged(barea, before, w1, area);
                lemma_unchanged_trans(start, before, mid, barea, area, area, area);
                lemma_put_unchanged(barea, mid, w2, area);
                lemma_unchanged_trans(start, mid, buf@, barea, area, area, area);
                let next = corner_writes(area, style) + hline_writes(x0 as int, y0, y1, k as int, style);
                assert(next =~= done.push(w1).push(w2));
                assert(next.drop_last() == done.push(w1));
                assert(next.drop_last().drop_last() == done);
                assert(put_all(barea, start, next.drop_last()) == mid);
                assert(put_all(barea, start, next) == buf@);
                done = next;
            }
            k = k + 1;
        }

        let mut j: u16 = 1;
        while j < y1 - y0
            invariant
                1 <= j <= y1 - y0,
                x1 == area.x + area.width - 1,
                y1 == area.y + area.height - 1,
                x0 == area.x,
                y0 == area.y,
                area.width >= 2,
                area.height >= 2,
                area.fits(),
                buf.wf(),
                buf.spec_area() == barea,
                buf.spec_animated() == old(buf).spec_animated(),
                start == old(buf)@,
                barea == old(buf).spec_area(),
                done == corner_writes(area, style) + hline_writes(x0 as int, y0, y1, area.width - 2, style)
                    + vline_writes(x0, x1, y0 as int, j - 1, style),
                buf@ == put_all(barea, start, done),
                unchanged_outside(buf@, start, barea, area),
            decreases y1 - y0 - j,
        {
            let ghost before = buf@;
            buf.set_cell(x0, y0 + j, Cell { ch: '│', style });
            let ghost mid = buf@;
            buf.set_cell(x1, y0 + j, Cell { ch: '│', style });
            proof {
                let w1 = (x0, (y0 + j) as u16, styled_cell('│', style));
                let w2 = (x1, (y0 + j) as u16, styled_cell('│', style));
                lemma_put_all_len(barea, start, done);
                lemma_put_unchanged(barea, before, w1, area);
                lemma_unchanged_trans(start, before, mid, barea, area, area, area);
                lemma_put_unchanged(barea, mid, w2, area);
                lemma_unchanged_trans(start, mid, buf@, barea, area, area, area);
                let next = corner_writes(area, style) + hline_writes(x0 as int, y0, y1, area.width - 2, style)
                    + vline_writes(x0, x1, y0 as int, j as int, style);
                assert(next =~= done.push(w1).push(w2));
                assert(next.drop_last() == done.push(w1));
                assert(next.drop_last().drop_last() == done);
                assert(put_all(barea, start, next.drop_last()) == mid);
                assert(put_all(barea, start, next) == buf@);
                done = next;
            }
            j = j + 1;
        }

        let ghost frame = done;
        if let Some(title) = &self.title {
            let chars = string_chars(title.as_str());
            let mut i: usize = 0;
            while i < chars.len() && i < (area.width - 2) as usize
                invariant
                    chars@ == title@,
                    self.spec_title() == Some(title@),
                    i <= chars@.len(),
                    i <= area.width - 2,
                    x1 == area.x + area.width - 1,
                    x0 == area.x,
                    y0 == area.y,
                    area.width >= 2,
                    area.height >= 2,
                    area.fits(),
                    buf.wf(),
                    buf.spec_area() == barea,
                    buf.spec_animated() == old(buf).spec_animated(),
                    start == old(buf)@,
                    barea == old(buf).spec_area(),
                    done == frame + title_writes(chars@, x0 as int, y0, i as int, style),
                    buf@ == put_all(barea, start, done),
                    unchanged_outside(buf@, start, barea, area),
                decreases chars@.len() - i,
            {
                let ghost before = buf@;
                let ch = chars[i];
                buf.set_cell(x0 + 1 + i as u16, y0, Cell { ch, style });
                proof {
                    let w = title_write(chars@, x0 as int, y0, style, i as int);
                    lemma_put_all_len(barea, start, done);
                    lemma_put_unchanged(barea, before, w, area);
                    lemma_unchanged_trans(start, before, buf@, barea, area, area, area);
                    let next = frame + title_writes(chars@, x0 as int, y0, i + 1, style);
                    assert(next =~= done.push(w));
                    assert(next.drop_last() == done);
                    done = next;
                }
                i = i + 1;
            }
            proof {
                assert(i as int == title_len(title@, area));
            }
        } else {
            proof {
                assert(done =~= frame + Seq::<CellWrite>::empty());
            }
        }
    }
}

} // verus!
