//! Single-line styled text widget, and the clipped line drawing it is built on.

use vstd::prelude::*;
use crate::buffer::{
    Buffer, Cell, CellWrite, char_width, char_width_spec, put_all, styled_cell, write_within,
    writes_within, unchanged_outside, lemma_put_all_unchanged_outside,
};
use crate::geometry::Rect;
use crate::style::{Span, Style, SpanContent};
use crate::widget::Widget;

verus! {

/// A character together with the style it is drawn in.
pub type StyledChar = (char, Style);

/// The pair of `c` and `st`.
pub open spec fn styled_char(c: char, st: Style) -> StyledChar {
    (c, st)
}

/// The characters of `cs`, each paired with `st`.
pub open spec fn chars_in_style(cs: Seq<char>, st: Style) -> Seq<StyledChar> {
    cs.map_values(|c: char| styled_char(c, st))
}

/// The characters of all spans in order, each with the style of its span.
pub open spec fn span_items(spans: Seq<Span>) -> Seq<StyledChar>
    decreases spans.len(),
{
    if spans.len() == 0 {
        Seq::empty()
    } else {
        span_items(spans.drop_last()) + chars_in_style(spans.last().content@, spans.last().style)
    }
}

/// The column reached after drawing `items` one after another from column `x0`.
pub open spec fn items_cursor(items: Seq<StyledChar>, x0: int) -> int
    decreases items.len(),
{
    if items.len() == 0 {
        x0
    } else {
        items_cursor(items.drop_last(), x0) + char_width_spec(items.last().0)
    }
}

/// The writes that draw `items` one after another on row `y` from column `x0`.
pub open spec fn item_writes(items: Seq<StyledChar>, x0: int, y: u16) -> Seq<CellWrite>
    decreases items.len(),
{
    if items.len() == 0 {
        Seq::empty()
    } else {
        item_writes(items.drop_last(), x0, y).push(
            (
                items_cursor(items.drop_last(), x0) as u16,
                y,
                styled_cell(items.last().0, items.last().1),
            ),
        )
    }
}

/// The number of items, from item `k` on, that are drawn before the first one that
/// would end past column `limit`.
pub open spec fn placed_from(items: Seq<StyledChar>, x0: int, limit: int, k: int) -> int
    decreases items.len() - k,
{
    if k >= items.len() {
        items.len() as int
    } else if items_cursor(items.take(k + 1), x0) > limit {
        k
    } else {
        placed_from(items, x0, limit, k + 1)
    }
}

/// The writes that draw the longest prefix of `items` that fits between column
/// `x0` and column `limit` on row `y`.
pub open spec fn line_writes(items: Seq<StyledChar>, x0: int, y: u16, limit: int) -> Seq<CellWrite> {
    item_writes(items.take(placed_from(items, x0, limit, 0)), x0, y)
}

/// The columns the rendered text spans when nothing clips it: the widths of all
/// characters, summed with saturation at `u16::MAX`.
pub open spec fn saturated_width(items: Seq<StyledChar>) -> u16
    decreases items.len(),
{
    if items.len() == 0 {
        0
    } else {
        saturated_width(items.drop_last()).saturating_add(char_width_spec(items.last().0))
    }
}

proof fn lemma_take_step<A>(s: Seq<A>, k: int)
    requires
        0 <= k < s.len(),
    ensures
        s.take(k + 1).drop_last() == s.take(k),
        s.take(k + 1).last() == s[k],
{
    assert(s.take(k + 1).drop_last() =~= s.take(k));
}

/// The cursor never moves left, and moves right by the widths of the added items.
proof fn lemma_cursor_monotone(items: Seq<StyledChar>, x0: int, i: int, j: int)
    requires
        0 <= i <= j <= items.len(),
    ensures
        items_cursor(items.take(i), x0) + (j - i) <= items_cursor(items.take(j), x0),
    decreases j - i,
{
    if i < j {
        lemma_cursor_monotone(items, x0, i, j - 1);
        lemma_take_step(items, j - 1);
        crate::buffer::lemma_char_width_positive(items[j - 1].0);
    }
}

/// Each write of `item_writes` draws the item at the cursor reached before it.
proof fn lemma_item_writes_index(items: Seq<StyledChar>, x0: int, y: u16, j: int)
    requires
        0 <= j < items.len(),
    ensures
        item_writes(items, x0, y).len() == items.len(),
        item_writes(items, x0, y)[j] == (
            items_cursor(items.take(j), x0) as u16,
            y,
            styled_cell(items[j].0, items[j].1),
        ),
    decreases items.len(),
{
    lemma_item_writes_len(items, x0, y);
    if j < items.len() - 1 {
        lemma_item_writes_index(items.drop_last(), x0, y, j);
        assert(items.drop_last().take(j) =~= items.take(j));
    } else {
        assert(items.take(j) =~= items.drop_last());
    }
}

proof fn lemma_item_writes_len(items: Seq<StyledChar>, x0: int, y: u16)
    ensures
        item_writes(items, x0, y).len() == items.len(),
    decreases items.len(),
{
    if items.len() > 0 {
        lemma_item_writes_len(items.drop_last(), x0, y);
    }
}

/// Every item before the number placed fits: its end does not pass `limit`.
proof fn lemma_placed_fit(items: Seq<StyledChar>, x0: int, limit: int, k: int)
    requires
        0 <= k <= items.len(),
    ensures
        k <= placed_from(items, x0, limit, k) <= items.len(),
        forall|j: int|
            k <= j < placed_from(items, x0, limit, k) ==> items_cursor(
                #[trigger] items.take(j + 1),
                x0,
            ) <= limit,
    decreases items.len() - k,
{
    if k < items.len() && items_cursor(items.take(k + 1), x0) <= limit {
        lemma_placed_fit(items, x0, limit, k + 1);
    }
}

/// The writes that draw the fitting prefix touch only the row segment from `x0`
/// up to `limit`.
pub proof fn lemma_line_writes_within(items: Seq<StyledChar>, x0: int, y: u16, limit: int, region: Rect)
    requires
        region.contains(x0, y as int) || x0 == limit,
        region.x <= x0,
        limit <= region.x + region.width,
        region.y <= y < region.y + region.height,
        limit <= u16::MAX,
        0 <= x0,
    ensures
        writes_within(line_writes(items, x0, y, limit), region),
{
    let n = placed_from(items, x0, limit, 0);
    lemma_placed_fit(items, x0, limit, 0);
    let placed = items.take(n);
    let ws = line_writes(items, x0, y, limit);
    lemma_item_writes_len(placed, x0, y);
    assert forall|j: int| 0 <= j < ws.len() implies write_within(#[trigger] ws[j], region) by {
        lemma_item_writes_index(placed, x0, y, j);
        assert(placed.take(j) =~= items.take(j));
        assert(placed[j] == items[j]);
        lemma_take_step(items, j);
        lemma_cursor_monotone(items, x0, 0, j);
        assert(items.take(0) =~= Seq::<StyledChar>::empty());
        let c = items_cursor(items.take(j), x0);
        assert(items_cursor(items.take(j + 1), x0) <= limit);
        assert(c + char_width_spec(items[j].0) <= limit);
    }
}

/// The first item not placed is one that would end past `limit`.
proof fn lemma_placed_stops(items: Seq<StyledChar>, x0: int, limit: int, k: int)
    requires
        0 <= k <= items.len(),
    ensures
        placed_from(items, x0, limit, k) < items.len() ==> items_cursor(
            items.take(placed_from(items, x0, limit, k) + 1),
            x0,
        ) > limit,
    decreases items.len() - k,
{
    if k < items.len() && items_cursor(items.take(k + 1), x0) <= limit {
        lemma_placed_stops(items, x0, limit, k + 1);
    }
}

/// A clipped line draws the longest prefix of its items that fits: item `j` of
/// the prefix is drawn in its style at the column the items before it reach from
/// `x0`, each drawn item ends by `limit`, and the first item left out would end
/// past `limit`.
pub proof fn lemma_line_is_longest_fitting_prefix(items: Seq<StyledChar>, x0: int, y: u16, limit: int)
    ensures
        line_writes(items, x0, y, limit).len() <= items.len(),
        forall|j: int|
            0 <= j < line_writes(items, x0, y, limit).len() ==> #[trigger] line_writes(items, x0, y, limit)[j]
                == (items_cursor(items.take(j), x0) as u16, y, styled_cell(items[j].0, items[j].1))
                && items_cursor(items.take(j + 1), x0) <= limit,
        line_writes(items, x0, y, limit).len() < items.len() ==> items_cursor(
            items.take(line_writes(items, x0, y, limit).len() as int + 1),
            x0,
        ) > limit,
{
    let n = placed_from(items, x0, limit, 0);
    lemma_placed_fit(items, x0, limit, 0);
    lemma_placed_stops(items, x0, limit, 0);
    let placed = items.take(n);
    lemma_item_writes_len(placed, x0, y);
    let ws = line_writes(items, x0, y, limit);
    assert forall|j: int| 0 <= j < ws.len() implies #[trigger] ws[j] == (
        items_cursor(items.take(j), x0) as u16,
        y,
        styled_cell(items[j].0, items[j].1),
    ) && items_cursor(items.take(j + 1), x0) <= limit by {
        lemma_item_writes_index(placed, x0, y, j);
        assert(placed.take(j) =~= items.take(j));
        assert(placed[j] == items[j]);
    }
}

/// Without saturation the summed width is the cursor's advance.
proof fn lemma_saturated_width_is_advance(items: Seq<StyledChar>, x0: int)
    ensures
        saturated_width(items) as int == if items_cursor(items, x0) - x0 < u16::MAX {
            items_cursor(items, x0) - x0
        } else {
            u16::MAX as int
        },
        items_cursor(items, x0) >= x0,
    decreases items.len(),
{
    if items.len() > 0 {
        lemma_saturated_width_is_advance(items.drop_last(), x0);
        crate::buffer::lemma_char_width_positive(items.last().0);
    }
}

/// When every item from `k` on ends by `limit`, all of them are placed.
proof fn lemma_all_placed(items: Seq<StyledChar>, x0: int, limit: int, k: int)
    requires
        0 <= k <= items.len(),
        items_cursor(items, x0) <= limit,
    ensures
        placed_from(items, x0, limit, k) == items.len(),
    decreases items.len() - k,
{
    if k < items.len() {
        lemma_cursor_monotone(items, x0, k + 1, items.len() as int);
        assert(items.take(items.len() as int) =~= items);
        lemma_all_placed(items, x0, limit, k + 1);
    }
}

/// A line whose natural width fits is drawn whole: when the saturated width of all
/// items is at most the room between `x0` and `limit` (and below `u16::MAX`),
/// every item is drawn.
pub proof fn lemma_fitting_line_drawn_whole(items: Seq<StyledChar>, x0: int, y: u16, limit: int)
    requires
        saturated_width(items) <= limit - x0,
        limit - x0 < u16::MAX,
    ensures
        line_writes(items, x0, y, limit) == item_writes(items, x0, y),
{
    lemma_saturated_width_is_advance(items, x0);
    lemma_all_placed(items, x0, limit, 0);
    assert(items.take(items.len() as int) =~= items);
}

/// Draws the longest prefix of `items` that fits between column `x` and column
/// `limit` on row `y`, each character advancing by its width; the first character
/// that would end past `limit` stops the line.
pub fn draw_clipped(buf: &mut Buffer, items: &Vec<StyledChar>, x: u16, y: u16, limit: u16)
    requires
        old(buf).wf(),
        x <= limit,
    ensures
        final(buf).wf(),
        final(buf).spec_area() == old(buf).spec_area(),
        final(buf).spec_animated() == old(buf).spec_animated(),
        final(buf)@ == put_all(old(buf).spec_area(), old(buf)@, line_writes(items@, x as int, y, limit as int)),
{
    let ghost start = buf@;
    let ghost x0 = x as int;
    let ghost lim = limit as int;
    let n = items.len();
    let mut cx: u16 = x;
    let mut i: usize = 0;
    proof {
        assert(items@.take(0) =~= Seq::<StyledChar>::empty());
    }
    while i < n
        invariant
            n == items@.len(),
            i <= n,
            x <= limit,
            x0 == x as int,
            lim == limit as int,
            buf.wf(),
            buf.spec_area() == old(buf).spec_area(),
            buf.spec_animated() == old(buf).spec_animated(),
            start == old(buf)@,
            cx as int == items_cursor(items@.take(i as int), x0),
            cx <= limit,
            placed_from(items@, x0, lim, 0) == placed_from(items@, x0, lim, i as int),
            buf@ == put_all(buf.spec_area(), start, item_writes(items@.take(i as int), x0, y)),
        ensures
            placed_from(items@, x0, lim, 0) == i as int,
            buf@ == put_all(buf.spec_area(), start, item_writes(items@.take(i as int), x0, y)),
            buf.wf(),
            buf.spec_area() == old(buf).spec_area(),
            buf.spec_animated() == old(buf).spec_animated(),
        decreases n - i,
    {
        let (ch, st) = items[i];
        let w = char_width(ch);
        proof {
            lemma_take_step(items@, i as int);
        }
        if cx as u32 + w as u32 > limit as u32 {
            proof {
                assert(placed_from(items@, x0, lim, i as int) == i);
            }
            break;
        }
        buf.set_cell(cx, y, Cell { ch, style: st });
        proof {
            let ws = item_writes(items@.take(i + 1), x0, y);
            assert(ws.drop_last() == item_writes(items@.take(i as int), x0, y));
            assert(ws.last() == (cx, y, styled_cell(ch, st)));
        }
        cx = cx + w;
        i = i + 1;
    }
}

/// The characters of `spans`, each paired with its span's style.
pub fn collect_items(spans: &Vec<Span>) -> (r: Vec<StyledChar>)
    ensures
        r@ == span_items(spans@),
{
    let mut out: Vec<StyledChar> = Vec::new();
    let mut i: usize = 0;
    while i < spans.len()
        invariant
            i <= spans@.len(),
            out@ == span_items(spans@.take(i as int)),
        decreases spans@.len() - i,
    {
        let span = &spans[i];
        let st = span.style;
        let ghost before = out@;
        for ch in it: span.content.as_str().chars()
            invariant
                it.seq() == span.content@,
                out@ == before + chars_in_style(span.content@.take(it.index() as int), st),
        {
            proof {
                let k = it.index() as int;
                assert(chars_in_style(span.content@.take(k + 1), st) =~= chars_in_style(
                    span.content@.take(k),
                    st,
                ).push(styled_char(ch, st)));
            }
            out.push((ch, st));
        }
        proof {
            assert(span.content@.take(span.content@.len() as int) =~= span.content@);
            lemma_take_step(spans@, i as int);
        }
        i = i + 1;
    }
    proof {
        assert(spans@.take(spans@.len() as int) =~= spans@);
    }
    out
}

/// A single line of styled text, composed of one or more [`Span`]s.
///
/// Content that overflows the area width is clipped, and nothing is drawn into an
/// area without rows. Newlines are not supported — use multiple widgets in a
/// [`VStack`](crate::widget::VStack) for multi-line layouts.
pub struct Text {
    spans: Vec<Span>,
}

/// The writes that draw `spans` as one line at the top of `area`.
pub open spec fn text_writes(spans: Seq<Span>, area: Rect) -> Seq<CellWrite> {
    if area.height == 0 {
        Seq::empty()
    } else {
        line_writes(span_items(spans), area.x as int, area.y, area.x + area.width)
    }
}

/// The characters of a concatenation of spans are those of each part in turn.
proof fn lemma_span_items_append(s1: Seq<Span>, s2: Seq<Span>)
    ensures
        span_items(s1 + s2) == span_items(s1) + span_items(s2),
    decreases s2.len(),
{
    if s2.len() == 0 {
        assert(s1 + s2 =~= s1);
        assert(span_items(s1) + span_items(s2) =~= span_items(s1));
    } else {
        lemma_span_items_append(s1, s2.drop_last());
        assert((s1 + s2).drop_last() =~= s1 + s2.drop_last());
        assert((s1 + s2).last() == s2.last());
        assert(span_items(s1 + s2) =~= span_items(s1) + span_items(s2));
    }
}

/// Adjacent spans with the same style draw like a single span holding both
/// contents: merging them leaves what a line of spans draws unchanged.
pub proof fn lemma_merge_same_style(pre: Seq<Span>, a: Span, b: Span, merged: Span, post: Seq<Span>, area: Rect)
    requires
        a.style == b.style,
        merged.style == a.style,
        merged.content@ == a.content@ + b.content@,
    ensures
        span_items(pre + seq![a, b] + post) == span_items(pre + seq![merged] + post),
        text_writes(pre + seq![a, b] + post, area) == text_writes(pre + seq![merged] + post, area),
        saturated_width(span_items(pre + seq![a, b] + post)) == saturated_width(
            span_items(pre + seq![merged] + post),
        ),
{
    lemma_span_items_append(pre + seq![a, b], post);
    lemma_span_items_append(pre + seq![merged], post);
    lemma_span_items_append(pre, seq![a, b]);
    lemma_span_items_append(pre, seq![merged]);
    let ab = seq![a, b];
    assert(ab.drop_last() =~= seq![a]);
    assert(seq![a].drop_last() =~= Seq::<Span>::empty());
    assert(seq![merged].drop_last() =~= Seq::<Span>::empty());
    assert(chars_in_style(a.content@ + b.content@, a.style) =~= chars_in_style(a.content@, a.style)
        + chars_in_style(b.content@, b.style));
    assert(ab.last() == b);
    assert(seq![a].last() == a);
    assert(seq![merged].last() == merged);
    assert(span_items(Seq::<Span>::empty()) == Seq::<StyledChar>::empty());
    assert(span_items(seq![a]) =~= chars_in_style(a.content@, a.style));
    assert(span_items(seq![merged]) =~= chars_in_style(merged.content@, merged.style));
    assert(span_items(ab) =~= span_items(seq![a]) + chars_in_style(b.content@, b.style));
    assert(span_items(ab) =~= span_items(seq![merged]));
}

/// Two lines of one span each, with the same characters in the same style, draw
/// the same cells and have the same natural width: so `Text::raw(c)` and
/// `Text::from(vec![Span::raw(c)])` agree, both holding one span of the
/// characters of `c` in the plain style.
pub proof fn lemma_single_span_texts_agree(t1: Text, t2: Text)
    requires
        t1.spans().len() == 1,
        t2.spans().len() == 1,
        t1.spans()[0].content@ == t2.spans()[0].content@,
        t1.spans()[0].style == t2.spans()[0].style,
    ensures
        span_items(t1.spans()) == span_items(t2.spans()),
        saturated_width(span_items(t1.spans())) == saturated_width(span_items(t2.spans())),
        forall|area: Rect| text_writes(t1.spans(), area) == #[trigger] text_writes(t2.spans(), area),
        forall|area: Rect, before: Buffer, after: Buffer|
            t1.drawn(area, before, after) == #[trigger] t2.drawn(area, before, after),
{
    let s1 = t1.spans();
    let s2 = t2.spans();
    assert(s1.drop_last() =~= Seq::<Span>::empty());
    assert(s2.drop_last() =~= Seq::<Span>::empty());
    assert(s1.last() == s1[0]);
    assert(s2.last() == s2[0]);
    assert(span_items(Seq::<Span>::empty()) == Seq::<StyledChar>::empty());
    assert(span_items(s1) =~= chars_in_style(s1[0].content@, s1[0].style));
    assert(span_items(s2) =~= chars_in_style(s2[0].content@, s2[0].style));
}

impl Text {
    /// The spans of the line.
    pub closed spec fn spans(&self) -> Seq<Span> {
        self.spans@
    }

    /// A line made of `spans`.
    pub fn from(spans: Vec<Span>) -> (r: Text)
        ensures
            r.spans() == spans@,
    {
        Text { spans }
    }

    /// A line of one unstyled span.
    pub fn raw<S: SpanContent>(content: S) -> (r: Text)
        ensures
            r.spans().len() == 1,
            r.spans()[0].content@ == content.chars_view(),
            r.spans()[0].style == crate::style::plain_style(),
    {
        let mut spans: Vec<Span> = Vec::new();
        spans.push(Span::raw(content));
        Text::from(spans)
    }

}

impl Widget for Text {
    /// The characters of the spans, drawn from the top-left of `area`.
    open spec fn drawn(&self, area: Rect, before: Buffer, after: Buffer) -> bool {
        &&& after.spec_area() == before.spec_area()
        &&& after.spec_animated() == before.spec_animated()
        &&& after@ == put_all(before.spec_area(), before@, text_writes(self.spans(), area))
    }

    /// Draws the line at the top of `area`: the characters of all spans in order,
    /// each in its span's style, as far as they fit in the area's width.
    fn render(&self, area: Rect, buf: &mut Buffer)
        ensures
            final(buf).spec_animated() == old(buf).spec_animated(),
            final(buf)@ == put_all(old(buf).spec_area(), old(buf)@, text_writes(self.spans(), area)),
    {
        proof {
            crate::buffer::lemma_unchanged_refl(buf@, buf.spec_area(), area);
        }
        if area.height == 0 {
            return;
        }
        let items = collect_items(&self.spans);
        proof {
            lemma_line_writes_within(
                items@,
                area.x as int,
                area.y,
                area.x + area.width,
                area,
            );
            lemma_put_all_unchanged_outside(
                buf.spec_area(),
                buf@,
                text_writes(self.spans(), area),
                area,
            );
        }
        draw_clipped(buf, &items, area.x, area.y, area.x + area.width);
    }

    fn natural_size(&self) -> (r: Option<(u16, u16)>)
        ensures
            r == Some((saturated_width(span_items(self.spans())), 1u16)),
    {
        let items = collect_items(&self.spans);
        let mut total: u16 = 0;
        let mut i: usize = 0;
        while i < items.len()
            invariant
                i <= items@.len(),
                total == saturated_width(items@.take(i as int)),
            decreases items@.len() - i,
        {
            proof {
                lemma_take_step(items@, i as int);
            }
            total = total.saturating_add(char_width(items[i].0));
            i = i + 1;
        }
        proof {
            assert(items@.take(items@.len() as int) =~= items@);
        }
        Some((total, 1))
    }
}

} // verus!
