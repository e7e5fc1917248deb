//! [`VStack`] and [`HStack`] — children laid out along one axis by [`Constraint`]s.

use vstd::prelude::*;
use crate::buffer::{Buffer, unchanged_outside, lemma_unchanged_trans, lemma_unchanged_refl};
use crate::geometry::Rect;
use crate::layout::{Constraint, solve, solution, seq_sum, lemma_prefix_within_total};
use crate::widget::{BoxedWidget, Widget};

verus! {

/// The constraints of a list of children, in order.
pub open spec fn child_constraints(children: Seq<(Constraint, BoxedWidget)>) -> Seq<Constraint> {
    children.map_values(|c: (Constraint, BoxedWidget)| c.0)
}

/// The constraints of `children`, in order.
fn constraints_of(children: &Vec<(Constraint, BoxedWidget)>) -> (r: Vec<Constraint>)
    ensures
        r@ == child_constraints(children@),
{
    let mut r: Vec<Constraint> = Vec::new();
    let mut i: usize = 0;
    while i < children.len()
        invariant
            i <= children@.len(),
            r@ == child_constraints(children@.take(i as int)),
        decreases children@.len() - i,
    {
        r.push(children[i].0);
        proof {
            assert(child_constraints(children@.take(i + 1)) =~= child_constraints(
                children@.take(i as int),
            ).push(children@[i as int].0));
        }
        i = i + 1;
    }
    proof {
        assert(children@.take(children@.len() as int) =~= children@);
    }
    r
}

/// The rows a vertical stack given `area` hands to its children: from the top of
/// the area down, as many rows as the sizes solved for `cs` add up to.
pub open spec fn vstack_used(cs: Seq<Constraint>, area: Rect) -> Rect {
    Rect {
        x: area.x,
        y: area.y,
        width: area.width,
        height: seq_sum(solution(cs, area.height as int)) as u16,
    }
}

/// The columns a horizontal stack given `area` hands to its children: from the
/// left of the area, as many columns as the sizes solved for `cs` add up to.
pub open spec fn hstack_used(cs: Seq<Constraint>, area: Rect) -> Rect {
    Rect {
        x: area.x,
        y: area.y,
        width: seq_sum(solution(cs, area.width as int)) as u16,
        height: area.height,
    }
}

/// The rectangle child `i` of a vertical stack given `area` is drawn into: the
/// full width, below the rows of the children before it, as many rows as solved.
pub open spec fn vstack_rect(cs: Seq<Constraint>, area: Rect, i: int) -> Rect {
    let sol = solution(cs, area.height as int);
    Rect {
        x: area.x,
        y: (area.y + seq_sum(sol.take(i))) as u16,
        width: area.width,
        height: sol[i] as u16,
    }
}

/// The rectangle child `i` of a horizontal stack given `area` is drawn into: the
/// full height, right of the columns of the children before it, as many columns
/// as solved.
pub open spec fn hstack_rect(cs: Seq<Constraint>, area: Rect, i: int) -> Rect {
    let sol = solution(cs, area.width as int);
    Rect {
        x: (area.x + seq_sum(sol.take(i))) as u16,
        y: area.y,
        width: sol[i] as u16,
        height: area.height,
    }
}

/// Child `i`'s part in drawing a stack of `children` into `area`, top to bottom
/// when `vertical`, else left to right, through the successive buffers `bufs`:
/// when the child is given some rows (or columns), drawing it into its rectangle
/// turns `bufs[i]` into `bufs[i + 1]`; else the two are the same.
pub open spec fn stack_step(
    children: Seq<(Constraint, BoxedWidget)>,
    area: Rect,
    vertical: bool,
    bufs: Seq<Buffer>,
    i: int,
) -> bool {
    let cs = child_constraints(children);
    let rect = if vertical {
        vstack_rect(cs, area, i)
    } else {
        hstack_rect(cs, area, i)
    };
    let given = if vertical {
        solution(cs, area.height as int)[i] > 0
    } else {
        solution(cs, area.width as int)[i] > 0
    };
    if given {
        children[i].1.drawn(rect, bufs[i], bufs[i + 1])
    } else {
        bufs[i + 1] == bufs[i]
    }
}

/// `bufs` are the buffers drawing the children of a stack goes through: one
/// before each child and one after the last, each child taking the buffer from
/// its predecessor to its successor.
pub open spec fn stack_chain(
    children: Seq<(Constraint, BoxedWidget)>,
    area: Rect,
    vertical: bool,
    bufs: Seq<Buffer>,
) -> bool {
    &&& bufs.len() == children.len() + 1
    &&& forall|i: int| 0 <= i < children.len() ==> #[trigger] stack_step(children, area, vertical, bufs, i)
}

/// Children stacked top to bottom, each given the full width and the height that
/// [`solve`] assigns to its constraint; a child given no rows is not rendered.
pub struct VStack {
    children: Vec<(Constraint, BoxedWidget)>,
}

/// Children placed left to right, each given the full height and the width that
/// [`solve`] assigns to its constraint; a child given no columns is not rendered.
pub struct HStack {
    children: Vec<(Constraint, BoxedWidget)>,
}

impl VStack {
    /// The number of children.
    pub closed spec fn len(&self) -> nat {
        self.children@.len()
    }

    /// The children with their constraints, in order.
    pub closed spec fn spec_children(&self) -> Seq<(Constraint, BoxedWidget)> {
        self.children@
    }

    /// The constraints of the children, in order.
    pub closed spec fn constraints(&self) -> Seq<Constraint> {
        child_constraints(self.children@)
    }

    /// A stack of `children`, top first.
    pub fn new(children: Vec<(Constraint, BoxedWidget)>) -> (r: VStack)
        ensures
            r.len() == children@.len(),
            r.constraints() == child_constraints(children@),
            r.spec_children() == children@,
    {
        VStack { children }
    }
}

impl HStack {
    /// The number of children.
    pub closed spec fn len(&self) -> nat {
        self.children@.len()
    }

    /// The children with their constraints, in order.
    pub closed spec fn spec_children(&self) -> Seq<(Constraint, BoxedWidget)> {
        self.children@
    }

    /// The constraints of the children, in order.
    pub closed spec fn constraints(&self) -> Seq<Constraint> {
        child_constraints(self.children@)
    }

    /// A row of `children`, leftmost first.
    pub fn new(children: Vec<(Constraint, BoxedWidget)>) -> (r: HStack)
        ensures
            r.len() == children@.len(),
            r.constraints() == child_constraints(children@),
            r.spec_children() == children@,
    {
        HStack { children }
    }
}

impl Widget for VStack {
    /// Each child, in order, drawn into its rectangle when it is given any rows.
    open spec fn drawn(&self, area: Rect, before: Buffer, after: Buffer) -> bool {
        exists|bufs: Seq<Buffer>|
            #[trigger] stack_chain(self.spec_children(), area, true, bufs) && bufs[0] == before
                && bufs.last() == after
    }

    /// Draws each child into its rows; nothing changes below the rows handed out.
    fn render(&self, area: Rect, buf: &mut Buffer)
        ensures
            unchanged_outside(final(buf)@, old(buf)@, old(buf).spec_area(), vstack_used(self.constraints(), area)),
    {
        let ghost start = buf@;
        let ghost barea = buf.spec_area();
        let ghost used = vstack_used(self.constraints(), area);
        let constraints = constraints_of(&self.children);
        let heights = solve(constraints.as_slice(), area.height);
        let ghost cs = constraints@;
        let ghost sol = solution(cs, area.height as int);
        let ghost used_total = area.height as int;
        let n = self.children.len();
        let mut y = area.y;
        let mut i: usize = 0;
        let ghost mut bufs: Seq<Buffer> = seq![*buf];
        proof {
            lemma_unchanged_refl(start, barea, used);
            assert(sol.take(0) =~= Seq::<int>::empty());
            lemma_prefix_within_total(cs, used_total, 0);
        }
        while i < n
            invariant
                n == self.children@.len(),
                n == cs.len(),
                heights@.len() == n,
                forall|k: int| 0 <= k < n ==> heights@[k] as int == #[trigger] sol[k],
                sol == solution(cs, area.height as int),
                i <= n,
                area.fits(),
                y as int == area.y + seq_sum(sol.take(i as int)),
                buf.wf(),
                buf.spec_area() == barea,
                barea == old(buf).spec_area(),
                start == old(buf)@,
                used_total == area.height,
                seq_sum(sol) <= used_total,
                used == vstack_used(cs, area),
                unchanged_outside(buf@, start, barea, used),
                cs == child_constraints(self.children@),
                bufs.len() == i + 1,
                bufs[0] == *old(buf),
                bufs.last() == *buf,
                forall|j: int| 0 <= j < i ==> #[trigger] stack_step(self.children@, area, true, bufs, j),
            decreases n - i,
        {
            let h = heights[i];
            proof {
                lemma_prefix_within_total(cs, area.height as int, i + 1);
                lemma_prefix_within_total(cs, area.height as int, i as int);
                assert(sol.take(i + 1).drop_last() =~= sol.take(i as int));
                assert(sol.take(i + 1).last() == sol[i as int]);
                assert(h as int == sol[i as int]);
                assert(seq_sum(sol.take(i + 1)) == seq_sum(sol.take(i as int)) + sol[i as int]);
            }
            let ghost b_before = *buf;
            if h > 0 {
                let rect = Rect { x: area.x, y, width: area.width, height: h };
                let ghost before = buf@;
                self.children[i].1.render(rect, buf);
                proof {
                    lemma_unchanged_trans(start, before, buf@, barea, used, rect, used);
                    assert(rect == vstack_rect(cs, area, i as int));
                    assert(sol[i as int] > 0);
                    assert(self.children@[i as int].1.drawn(rect, b_before, *buf));
                }
            }
            proof {
                let nb = bufs.push(*buf);
                assert forall|j: int| 0 <= j < i + 1 implies #[trigger] stack_step(self.children@, area, true, nb, j) by {
                    assert(nb[j] == bufs[j]);
                    if j < i {
                        assert(stack_step(self.children@, area, true, bufs, j));
                        assert(nb[j + 1] == bufs[j + 1]);
                    } else {
                        assert(nb[j + 1] == *buf);
                    }
                }
                bufs = nb;
            }
            y = y + h;
            i = i + 1;
        }
        proof {
            lemma_unchanged_refl(start, barea, used);
            lemma_unchanged_trans(start, start, buf@, barea, used, used, area);
            assert(stack_chain(self.spec_children(), area, true, bufs));
        }
    }
}

impl Widget for HStack {
    /// Each child, in order, drawn into its rectangle when it is given any columns.
    open spec fn drawn(&self, area: Rect, before: Buffer, after: Buffer) -> bool {
        exists|bufs: Seq<Buffer>|
            #[trigger] stack_chain(self.spec_children(), area, false, bufs) && bufs[0] == before
                && bufs.last() == after
    }

    /// Draws each child into its columns; nothing changes right of the columns
    /// handed out.
    fn render(&self, area: Rect, buf: &mut Buffer)
        ensures
            unchanged_outside(final(buf)@, old(buf)@, old(buf).spec_area(), hstack_used(self.constraints(), area)),
    {
        let ghost start = buf@;
        let ghost barea = buf.spec_area();
        let ghost used = hstack_used(self.constraints(), area);
        let constraints = constraints_of(&self.children);
        let widths = solve(constraints.as_slice(), area.width);
        let ghost cs = constraints@;
        let ghost sol = solution(cs, area.width as int);
        let ghost used_total = area.width as int;
        let n = self.children.len();
        let mut x = area.x;
        let mut i: usize = 0;
        let ghost mut bufs: Seq<Buffer> = seq![*buf];
        proof {
            lemma_unchanged_refl(start, barea, used);
            assert(sol.take(0) =~= Seq::<int>::empty());
            lemma_prefix_within_total(cs, used_total, 0);
        }
        while i < n
            invariant
                n == self.children@.len(),
                n == cs.len(),
                widths@.len() == n,
                forall|k: int| 0 <= k < n ==> widths@[k] as int == #[trigger] sol[k],
                sol == solution(cs, area.width as int),
                i <= n,
                area.fits(),
                x as int == area.x + seq_sum(sol.take(i as int)),
                buf.wf(),
                buf.spec_area() == barea,
                barea == old(buf).spec_area(),
                start == old(buf)@,
                used_total == area.width,
                seq_sum(sol) <= used_total,
                used == hstack_used(cs, area),
                unchanged_outside(buf@, start, barea, used),
                cs == child_constraints(self.children@),
                bufs.len() == i + 1,
                bufs[0] == *old(buf),
                bufs.last() == *buf,
                forall|j: int| 0 <= j < i ==> #[trigger] stack_step(self.children@, area, false, bufs, j),
            decreases n - i,
        {
            let w = widths[i];
            proof {
                lemma_prefix_within_total(cs, area.width as int, i + 1);
                lemma_prefix_within_total(cs, area.width as int, i as int);
                assert(sol.take(i + 1).drop_last() =~= sol.take(i as int));
                assert(sol.take(i + 1).last() == sol[i as int]);
                assert(w as int == sol[i as int]);
                assert(seq_sum(sol.take(i + 1)) == seq_sum(sol.take(i as int)) + sol[i as int]);
            }
            let ghost b_before = *buf;
            if w > 0 {
                let rect = Rect { x, y: area.y, width: w, height: area.height };
                let ghost before = buf@;
                self.children[i].1.render(rect, buf);
                proof {
                    lemma_unchanged_trans(start, before, buf@, barea, used, rect, used);
                    assert(rect == hstack_rect(cs, area, i as int));
                }
            }
            proof {
                let nb = bufs.push(*buf);
                assert forall|j: int| 0 <= j < i + 1 implies #[trigger] stack_step(self.children@, area, false, nb, j) by {
                    assert(nb[j] == bufs[j]);
                    if j < i {
                        assert(stack_step(self.children@, area, false, bufs, j));
                        assert(nb[j + 1] == bufs[j + 1]);
                    } else {
                        assert(nb[j + 1] == *buf);
                    }
                }
                bufs = nb;
            }
            x = x + w;
            i = i + 1;
        }
        proof {
            lemma_unchanged_refl(start, barea, used);
            lemma_unchanged_trans(start, start, buf@, barea, used, used, area);
            assert(stack_chain(self.spec_children(), area, false, bufs));
        }
    }
}

} // verus!
