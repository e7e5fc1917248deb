//! [`Table`] — renders rows of styled-span cells in a column grid.

use vstd::prelude::*;
use crate::buffer::{
    Buffer, Cell, CellWrite, put_all, styled_cell, unchanged_outside, write_within,
    writes_within, lemma_put_all_append, lemma_put_all_len, lemma_put_all_unchanged_outside,
    lemma_put_unchanged, lemma_unchanged_refl, lemma_unchanged_trans,
};
use crate::geometry::Rect;
use crate::layout::{Constraint, solve, solution, solved, seq_sum, lemma_prefix_within_total};
use crate::style::{Color, Span, Style, plain_style, string_chars};
use crate::widget::Widget;
use crate::widget::text::{
    StyledChar, chars_in_style, collect_items, draw_clipped, line_writes, span_items,
    styled_char, lemma_line_writes_within, text_writes,
};

verus! {

/// The column where column `i` of a table in `area` starts: the area's left edge
/// plus the widths of the columns before it.
pub open spec fn col_x(cs: Seq<Constraint>, area: Rect, i: int) -> int {
    area.x + seq_sum(solution(cs, area.width as int).take(i))
}

/// The column right after column `i` of a table in `area`.
pub open spec fn col_end(cs: Seq<Constraint>, area: Rect, i: int) -> int {
    col_x(cs, area, i) + solved(cs, area.width as int, i)
}

/// The bold style of the header row.
pub open spec fn header_style() -> Style {
    Style { fg: None, bg: None, bold: true, underline: false, italic: false }
}

/// The blue background of a selected row, unless set otherwise.
pub open spec fn default_highlight() -> Style {
    Style { fg: None, bg: Some(Color::Blue), bold: false, underline: false, italic: false }
}

/// `items` with `hl` layered over each one's style.
pub open spec fn highlighted(items: Seq<StyledChar>, hl: Style) -> Seq<StyledChar> {
    items.map_values(|it: StyledChar| styled_char(it.0, it.1.spec_patch(hl)))
}

/// The styled characters of a cell: the characters of its spans, each in its span's
/// style, with the highlight layered on top in a selected row.
pub open spec fn cell_items(spans: Seq<Span>, selected: bool, hl: Style) -> Seq<StyledChar> {
    if selected {
        highlighted(span_items(spans), hl)
    } else {
        span_items(spans)
    }
}

/// The writes of the first `k` headers, each clipped to its column on the top row.
pub open spec fn headers_writes(hs: Seq<Seq<char>>, cs: Seq<Constraint>, area: Rect, k: int) -> Seq<CellWrite>
    decreases k,
{
    if k <= 0 {
        Seq::empty()
    } else {
        headers_writes(hs, cs, area, k - 1) + line_writes(
            chars_in_style(hs[k - 1], header_style()),
            col_x(cs, area, k - 1),
            area.y,
            col_end(cs, area, k - 1),
        )
    }
}

/// The writes that paint the whole width of row `y` with spaces in `hl`.
pub open spec fn selection_writes(area: Rect, y: u16, hl: Style) -> Seq<CellWrite> {
    Seq::new(area.width as nat, |k: int| ((area.x + k) as u16, y, styled_cell(' ', hl)))
}

/// The writes of the first `k` cells of a row on row `y`, each clipped to its
/// column; columns the row has no cell for stay as they are.
pub open spec fn cells_writes(
    row: Seq<Seq<Span>>,
    selected: bool,
    hl: Style,
    cs: Seq<Constraint>,
    area: Rect,
    y: u16,
    k: int,
) -> Seq<CellWrite>
    decreases k,
{
    if k <= 0 {
        Seq::empty()
    } else {
        cells_writes(row, selected, hl, cs, area, y, k - 1) + if k - 1 < row.len() {
            line_writes(
                cell_items(row[k - 1], selected, hl),
                col_x(cs, area, k - 1),
                y,
                col_end(cs, area, k - 1),
            )
        } else {
            Seq::empty()
        }
    }
}

/// The writes of one data row on row `y`: the highlight across the width when it
/// is selected, then its cells.
pub open spec fn row_writes(
    row: Seq<Seq<Span>>,
    selected: bool,
    hl: Style,
    cs: Seq<Constraint>,
    area: Rect,
    y: u16,
) -> Seq<CellWrite> {
    (if selected {
        selection_writes(area, y, hl)
    } else {
        Seq::empty()
    }) + cells_writes(row, selected, hl, cs, area, y, cs.len() as int)
}

/// The writes of the first `k` data rows, one screen row each from row `y0`.
pub open spec fn rows_writes(
    rows: Seq<Seq<Seq<Span>>>,
    selected: Option<usize>,
    hl: Style,
    cs: Seq<Constraint>,
    area: Rect,
    y0: int,
    k: int,
) -> Seq<CellWrite>
    decreases k,
{
    if k <= 0 {
        Seq::empty()
    } else {
        rows_writes(rows, selected, hl, cs, area, y0, k - 1) + row_writes(
            rows[k - 1],
            selected == Some((k - 1) as usize),
            hl,
            cs,
            area,
            (y0 + k - 1) as u16,
        )
    }
}

/// The first row below the header, if there is one.
pub open spec fn first_data_row(headers: Option<Seq<Seq<char>>>, area: Rect) -> int {
    if headers is Some {
        area.y + 1
    } else {
        area.y as int
    }
}

/// The number of data rows that fit below the header.
pub open spec fn rows_shown(rows: Seq<Seq<Seq<Span>>>, headers: Option<Seq<Seq<char>>>, area: Rect) -> int {
    let room = area.y + area.height - first_data_row(headers, area);
    if rows.len() < room {
        rows.len() as int
    } else {
        room
    }
}

/// The smaller of two integers.
pub open spec fn min_of(a: int, b: int) -> int {
    if a < b {
        a
    } else {
        b
    }
}

/// A single data row — each element is a cell rendered as a list of [`Span`]s.
pub struct Row {
    cells: Vec<Vec<Span>>,
}

impl Row {
    /// The spans of each cell.
    pub closed spec fn spec_cells(&self) -> Seq<Seq<Span>> {
        self.cells@.map_values(|c: Vec<Span>| c@)
    }

    /// A row of `cells`, leftmost first.
    pub fn new(cells: Vec<Vec<Span>>) -> (r: Row)
        ensures
            r.spec_cells() == cells@.map_values(|c: Vec<Span>| c@),
    {
        Row { cells }
    }
}

/// Renders tabular data in a fixed column grid.
///
/// Column widths are controlled by [`Constraint`] values passed to [`Table::new`].
/// An optional header row is rendered in bold. An optional selected row index
/// highlights that row with a configurable background style.
pub struct Table {
    column_constraints: Vec<Constraint>,
    rows: Vec<Row>,
    headers: Option<Vec<String>>,
    selected: Option<usize>,
    highlight_style: Style,
}

impl Table {
    /// The column constraints.
    pub closed spec fn spec_constraints(&self) -> Seq<Constraint> {
        self.column_constraints@
    }

    /// The spans of each cell of each row.
    pub closed spec fn spec_rows(&self) -> Seq<Seq<Seq<Span>>> {
        self.rows@.map_values(|r: Row| r.spec_cells())
    }

    /// The header texts, if the table has headers.
    pub closed spec fn spec_headers(&self) -> Option<Seq<Seq<char>>> {
        match self.headers {
            Some(hs) => Some(hs@.map_values(|h: String| h@)),
            None => None,
        }
    }

    /// The index of the highlighted row, if any.
    pub closed spec fn spec_selected(&self) -> Option<usize> {
        self.selected
    }

    /// The style layered over the highlighted row.
    pub closed spec fn spec_highlight(&self) -> Style {
        self.highlight_style
    }

    /// The writes that draw the table into `area`: nothing in an empty area; else
    /// the headers in bold on the top row, then one data row per screen row for as
    /// many rows as fit.
    pub open spec fn spec_writes(&self, area: Rect) -> Seq<CellWrite> {
        if area.width == 0 || area.height == 0 {
            Seq::empty()
        } else {
            let cs = self.spec_constraints();
            (match self.spec_headers() {
                Some(hs) => headers_writes(hs, cs, area, min_of(hs.len() as int, cs.len() as int)),
                None => Seq::empty(),
            }) + rows_writes(
                self.spec_rows(),
                self.spec_selected(),
                self.spec_highlight(),
                cs,
                area,
                first_data_row(self.spec_headers(), area),
                rows_shown(self.spec_rows(), self.spec_headers(), area),
            )
        }
    }

    /// A table with columns sized by `column_constraints`, without headers or
    /// selection, highlighting in blue.
    pub fn new(column_constraints: Vec<Constraint>, rows: Vec<Row>) -> (r: Table)
        ensures
            r.spec_constraints() == column_constraints@,
            r.spec_rows() == rows@.map_values(|r: Row| r.spec_cells()),
            r.spec_headers() is None,
            r.spec_selected() is None,
            r.spec_highlight() == default_highlight(),
    {
        Table {
            column_constraints,
            rows,
            headers: None,
            selected: None,
            highlight_style: Style { bg: Some(Color::Blue), ..Style::default() },
        }
    }

    /// The table with `headers` above its columns.
    pub fn headers(self, headers: Vec<String>) -> (r: Table)
        ensures
            r.spec_constraints() == self.spec_constraints(),
            r.spec_rows() == self.spec_rows(),
            r.spec_headers() == Some(headers@.map_values(|h: String| h@)),
            r.spec_selected() == self.spec_selected(),
            r.spec_highlight() == self.spec_highlight(),
    {
        let mut t = self;
        t.headers = Some(headers);
        t
    }

    /// The table with row `index` highlighted (or none).
    pub fn selected(self, index: Option<usize>) -> (r: Table)
        ensures
            r.spec_constraints() == self.spec_constraints(),
            r.spec_rows() == self.spec_rows(),
            r.spec_headers() == self.spec_headers(),
            r.spec_selected() == index,
            r.spec_highlight() == self.spec_highlight(),
    {
        let mut t = self;
        t.selected = index;
        t
    }

    /// The table with the selected row highlighted in `style`.
    pub fn highlight_style(self, style: Style) -> (r: Table)
        ensures
            r.spec_constraints() == self.spec_constraints(),
            r.spec_rows() == self.spec_rows(),
            r.spec_headers() == self.spec_headers(),
            r.spec_selected() == self.spec_selected(),
            r.spec_highlight() == style,
    {
        let mut t = self;
        t.highlight_style = style;
        t
    }
}

/// A cell's characters are those of all its spans in order: a cell of no spans
/// has none, and appending a span appends each of its characters, in the span's
/// style with the highlight layered on top when the row is selected.
pub proof fn lemma_cell_items_all_spans(spans: Seq<Span>, s: Span, selected: bool, hl: Style)
    ensures
        cell_items(Seq::empty(), selected, hl) == Seq::<StyledChar>::empty(),
        cell_items(spans.push(s), selected, hl) == cell_items(spans, selected, hl) + Seq::new(
            s.content@.len(),
            |j: int|
                (s.content@[j], if selected {
                    s.style.spec_patch(hl)
                } else {
                    s.style
                }),
        ),
{
    assert(span_items(Seq::<Span>::empty()) == Seq::<StyledChar>::empty());
    assert(cell_items(Seq::empty(), selected, hl) =~= Seq::<StyledChar>::empty());
    let p = spans.push(s);
    assert(p.drop_last() =~= spans);
    assert(p.last() == s);
    let tail = Seq::new(
        s.content@.len(),
        |j: int|
            (s.content@[j], if selected {
                s.style.spec_patch(hl)
            } else {
                s.style
            }),
    );
    assert(span_items(p) == span_items(spans) + chars_in_style(s.content@, s.style));
    if selected {
        assert(highlighted(span_items(spans) + chars_in_style(s.content@, s.style), hl) =~= highlighted(
            span_items(spans),
            hl,
        ) + tail);
    } else {
        assert(chars_in_style(s.content@, s.style) =~= tail);
    }
}

/// A table of one `Fill` column and one unselected row of one cell, without
/// headers, draws exactly what a line of text of that cell's spans draws in the
/// same area: every span of the cell, in order, clipped to the area's width.
pub proof fn lemma_single_cell_table_draws_like_text(t: Table, spans: Seq<Span>, area: Rect)
    requires
        t.spec_constraints() == seq![Constraint::Fill],
        t.spec_rows() == seq![seq![spans]],
        t.spec_headers() is None,
        t.spec_selected() is None,
        area.width > 0,
        area.height > 0,
    ensures
        t.spec_writes(area) == text_writes(spans, area),
{
    let cs = seq![Constraint::Fill];
    let w = area.width as int;
    let sol = solution(cs, w);
    crate::layout::lemma_solution_sum(cs, w);
    assert(crate::layout::fill_count(cs) > 0) by {
        assert(cs.drop_last() =~= Seq::<Constraint>::empty());
        assert(cs.last() is Fill);
    }
    assert(sol.len() == 1);
    assert(sol.drop_last() =~= Seq::<int>::empty());
    assert(seq_sum(Seq::<int>::empty()) == 0);
    assert(seq_sum(sol.drop_last()) == 0);
    assert(sol.last() == sol[0]);
    assert(seq_sum(sol) == seq_sum(sol.drop_last()) + sol.last());
    assert(seq_sum(sol) == sol[0]);
    assert(sol.take(0) =~= Seq::<int>::empty());
    assert(col_x(cs, area, 0) == area.x);
    assert(solved(cs, w, 0) == sol[0]);
    assert(col_end(cs, area, 0) == area.x + area.width);
    let rows = t.spec_rows();
    let hl = t.spec_highlight();
    assert(first_data_row(t.spec_headers(), area) == area.y);
    assert(rows_shown(rows, t.spec_headers(), area) == 1);
    let row = rows[0];
    assert(row == seq![spans]);
    let cw = cells_writes(row, false, hl, cs, area, area.y, 1);
    assert(cells_writes(row, false, hl, cs, area, area.y, 0) == Seq::<CellWrite>::empty());
    assert(cw =~= line_writes(cell_items(spans, false, hl), area.x as int, area.y, area.x + area.width));
    assert(row_writes(row, false, hl, cs, area, area.y) =~= cw);
    assert(rows_writes(rows, None, hl, cs, area, area.y as int, 0) == Seq::<CellWrite>::empty());
    assert(rows_writes(rows, None, hl, cs, area, area.y as int, 1) =~= cw);
    assert(t.spec_writes(area) =~= cw);
}

/// Column `i` lies between the area's left and right edges.
proof fn lemma_col_bounds(cs: Seq<Constraint>, area: Rect, i: int)
    requires
        0 <= i < cs.len(),
    ensures
        area.x <= col_x(cs, area, i) <= col_end(cs, area, i) <= area.x + area.width,
{
    let sol = solution(cs, area.width as int);
    lemma_prefix_within_total(cs, area.width as int, i);
    lemma_prefix_within_total(cs, area.width as int, i + 1);
    assert(sol.take(i + 1).drop_last() =~= sol.take(i));
    assert(sol.take(i + 1).last() == sol[i]);
    assert(seq_sum(sol.take(i + 1)) == seq_sum(sol.take(i)) + sol[i]);
    assert(sol[i] == solved(cs, area.width as int, i));
    crate::layout::lemma_solution_sum(cs, area.width as int);
    assert(sol[i] >= 0);
}

/// Drawing a clipped line into a column of the table stays inside the area.
proof fn lemma_column_line_within(items: Seq<StyledChar>, cs: Seq<Constraint>, area: Rect, i: int, y: u16)
    requires
        0 <= i < cs.len(),
        area.fits(),
        area.y <= y < area.y + area.height,
    ensures
        writes_within(line_writes(items, col_x(cs, area, i), y, col_end(cs, area, i)), area),
{
    lemma_col_bounds(cs, area, i);
    lemma_line_writes_within(items, col_x(cs, area, i), y, col_end(cs, area, i), area);
}

/// Performs `ws` after the writes already done, keeping the record and the
/// cells outside `area` in step.
proof fn lemma_extend(barea: Rect, start: Seq<Cell>, done: Seq<CellWrite>, ws: Seq<CellWrite>, area: Rect)
    requires
        start.len() == barea.width * barea.height,
        unchanged_outside(put_all(barea, start, done), start, barea, area),
        writes_within(ws, area),
    ensures
        put_all(barea, start, done + ws) == put_all(barea, put_all(barea, start, done), ws),
        unchanged_outside(put_all(barea, start, done + ws), start, barea, area),
{
    lemma_put_all_append(barea, start, done, ws);
    lemma_put_all_len(barea, start, done);
    lemma_put_all_unchanged_outside(barea, put_all(barea, start, done), ws, area);
    lemma_unchanged_trans(
        start,
        put_all(barea, start, done),
        put_all(barea, start, done + ws),
        barea,
        area,
        area,
        area,
    );
}

/// The characters of `spans` with `hl` layered over each one's style.
fn highlight_items(items: Vec<StyledChar>, hl: Style) -> (r: Vec<StyledChar>)
    ensures
        r@ == highlighted(items@, hl),
{
    let mut out: Vec<StyledChar> = Vec::new();
    let mut i: usize = 0;
    while i < items.len()
        invariant
            i <= items@.len(),
            out@ == highlighted(items@.take(i as int), hl),
        decreases items@.len() - i,
    {
        let (ch, st) = items[i];
        out.push((ch, st.patch(hl)));
        proof {
            assert(highlighted(items@.take(i + 1), hl) =~= highlighted(items@.take(i as int), hl).push(
                styled_char(ch, st.spec_patch(hl)),
            ));
        }
        i = i + 1;
    }
    proof {
        assert(items@.take(items@.len() as int) =~= items@);
    }
    out
}

/// The characters of `s`, each in `st`.
fn styled_chars(s: &str, st: Style) -> (r: Vec<StyledChar>)
    ensures
        r@ == chars_in_style(s@, st),
{
    let chars = string_chars(s);
    let mut out: Vec<StyledChar> = Vec::new();
    let mut i: usize = 0;
    while i < chars.len()
        invariant
            i <= chars@.len(),
            chars@ == s@,
            out@ == chars_in_style(chars@.take(i as int), st),
        decreases chars@.len() - i,
    {
        out.push((chars[i], st));
        proof {
            assert(chars_in_style(chars@.take(i + 1), st) =~= chars_in_style(chars@.take(i as int), st).push(
                styled_char(chars@[i as int], st),
            ));
        }
        i = i + 1;
    }
    proof {
        assert(chars@.take(chars@.len() as int) =~= chars@);
    }
    out
}

impl Widget for Table {
    /// The headers and the rows that fit.
    open spec fn drawn(&self, area: Rect, before: Buffer, after: Buffer) -> bool {
        &&& after.spec_area() == before.spec_area()
        &&& after.spec_animated() == before.spec_animated()
        &&& after@ == put_all(before.spec_area(), before@, self.spec_writes(area))
    }

    /// Draws the table into `area`.
    fn render(&self, area: Rect, buf: &mut Buffer)
        ensures
            final(buf)@ == put_all(old(buf).spec_area(), old(buf)@, self.spec_writes(area)),
    {
        let ghost anim = buf.spec_animated();
        let ghost start = buf@;
        let ghost barea = buf.spec_area();
        proof {
            lemma_unchanged_refl(start, barea, area);
        }
        if area.width == 0 || area.height == 0 {
            return;
        }
        let ghost cs = self.column_constraints@;
        let col_widths = solve(self.column_constraints.as_slice(), area.width);
        let ncols = col_widths.len();

        // Compute absolute x position for each column.
        let mut col_xs: Vec<u16> = Vec::new();
        let mut x: u16 = area.x;
        let mut c: usize = 0;
        while c < ncols
            invariant
                ncols == cs.len(),
                col_widths@.len() == ncols,
                forall|k: int| 0 <= k < ncols ==> col_widths@[k] as int == #[trigger] solved(cs, area.width as int, k),
                c <= ncols,
                col_xs@.len() == c,
                x as int == col_x(cs, area, c as int),
                forall|k: int| 0 <= k < c ==> col_xs@[k] as int == #[trigger] col_x(cs, area, k),
                area.fits(),
            decreases ncols - c,
        {
            proof {
                lemma_col_bounds(cs, area, c as int);
                let sol = solution(cs, area.width as int);
                assert(sol.take(c + 1).drop_last() =~= sol.take(c as int));
                assert(sol.take(c + 1).last() == sol[c as int]);
            }
            col_xs.push(x);
            x = x + col_widths[c];
            c = c + 1;
        }

        let ghost mut done: Seq<CellWrite> = Seq::empty();
        let mut row_y = area.y;

        // Render header row.
        if let Some(headers) = &self.headers {
            let ghost hs = headers@.map_values(|h: String| h@);
            let bold = Style { bold: true, ..Style::default() };
            let mut i: usize = 0;
            while i < headers.len() && i < ncols
                invariant
                    hs == headers@.map_values(|h: String| h@),
                    self.spec_headers() == Some(hs),
                    bold == header_style(),
                    row_y == area.y,
                    i <= headers@.len(),
                    i <= ncols,
                    ncols == cs.len(),
                    cs == self.spec_constraints(),
                    col_widths@.len() == ncols,
                    col_xs@.len() == ncols,
                    forall|k: int| 0 <= k < ncols ==> col_widths@[k] as int == #[trigger] solved(cs, area.width as int, k),
                    forall|k: int| 0 <= k < ncols ==> col_xs@[k] as int == #[trigger] col_x(cs, area, k),
                    area.fits(),
                    area.width > 0,
                    area.height > 0,
                    buf.wf(),
                    buf.spec_animated() == anim,
                    buf.spec_area() == barea,
                    barea == old(buf).spec_area(),
                    start == old(buf)@,
                    done == headers_writes(hs, cs, area, i as int),
                    buf@ == put_all(barea, start, done),
                    unchanged_outside(buf@, start, barea, area),
                decreases ncols - i,
            {
                let items = styled_chars(headers[i].as_str(), bold);
                let ghost lw = line_writes(items@, col_x(cs, area, i as int), area.y, col_end(cs, area, i as int));
                proof {
                    lemma_col_bounds(cs, area, i as int);
                    assert(col_widths@[i as int] as int == solved(cs, area.width as int, i as int));
                    assert(col_xs@[i as int] as int == col_x(cs, area, i as int));
                    lemma_column_line_within(items@, cs, area, i as int, area.y);
                    lemma_extend(barea, start, done, lw, area);
                }
                draw_clipped(buf, &items, col_xs[i], row_y, col_xs[i] + col_widths[i]);
                proof {
                    assert(hs[i as int] == headers@[i as int]@);
                    done = done + lw;
                    assert(done == headers_writes(hs, cs, area, i + 1));
                }
                i = i + 1;
            }
            proof {
                assert(i as int == min_of(hs.len() as int, cs.len() as int));
            }
            row_y = row_y + 1;
        }
        let ghost header_done = done;
        let ghost rows = self.spec_rows();
        let ghost y0 = first_data_row(self.spec_headers(), area);
        let ghost hl = self.highlight_style;

        // Render data rows.
        let mut r: usize = 0;
        while r < self.rows.len() && row_y < area.y + area.height
            invariant
                rows == self.spec_rows(),
                rows.len() == self.rows@.len(),
                y0 == first_data_row(self.spec_headers(), area),
                hl == self.spec_highlight(),
                row_y as int == y0 + r,
                row_y <= area.y + area.height,
                y0 <= area.y + area.height,
                r <= self.rows@.len(),
                ncols == cs.len(),
                cs == self.spec_constraints(),
                col_widths@.len() == ncols,
                col_xs@.len() == ncols,
                forall|k: int| 0 <= k < ncols ==> col_widths@[k] as int == #[trigger] solved(cs, area.width as int, k),
                forall|k: int| 0 <= k < ncols ==> col_xs@[k] as int == #[trigger] col_x(cs, area, k),
                area.fits(),
                area.width > 0,
                area.height > 0,
                buf.wf(),
                buf.spec_animated() == anim,
                buf.spec_area() == barea,
                barea == old(buf).spec_area(),
                start == old(buf)@,
                done == header_done + rows_writes(rows, self.spec_selected(), hl, cs, area, y0, r as int),
                buf@ == put_all(barea, start, done),
                unchanged_outside(buf@, start, barea, area),
            decreases self.rows@.len() - r,
        {
            let ghost row_start = done;
            let is_selected = match self.selected {
                Some(s) => s == r,
                None => false,
            };
            let ghost row = rows[r as int];

            // Fill selected row background across the full width.
            if is_selected {
                let mut k: u16 = 0;
                while k < area.width
                    invariant
                        k <= area.width,
                        row_y < area.y + area.height,
                        row_y >= area.y,
                        area.fits(),
                        area.width > 0,
                        buf.wf(),
                        buf.spec_animated() == anim,
                        buf.spec_area() == barea,
                        start.len() == barea.width * barea.height,
                        done == row_start + selection_writes(area, row_y, hl).take(k as int),
                        buf@ == put_all(barea, start, done),
                        unchanged_outside(buf@, start, barea, area),
                        hl == self.highlight_style,
                    decreases area.width - k,
                {
                    let ghost before = buf@;
                    buf.set_cell(area.x + k, row_y, Cell { ch: ' ', style: self.highlight_style });
                    proof {
                        let w = ((area.x + k) as u16, row_y, styled_cell(' ', hl));
                        assert(selection_writes(area, row_y, hl)[k as int] == w);
                        assert(write_within(w, area));
                        lemma_put_all_len(barea, start, done);
                        lemma_put_unchanged(barea, before, w, area);
                        lemma_unchanged_trans(start, before, buf@, barea, area, area, area);
                        let next = row_start + selection_writes(area, row_y, hl).take(k + 1);
                        assert(next =~= done.push(w));
                        assert(next.drop_last() == done);
                        done = next;
                    }
                    k = k + 1;
                }
                proof {
                    assert(selection_writes(area, row_y, hl).take(area.width as int) =~= selection_writes(area, row_y, hl));
                }
            }
            let ghost cells_start = done;
            proof {
                assert(cells_start == row_start + (if is_selected {
                    selection_writes(area, row_y, hl)
                } else {
                    Seq::<CellWrite>::empty()
                })) by {
                    if !is_selected {
                        assert(row_start + Seq::<CellWrite>::empty() =~= row_start);
                    }
                }
            }

            // Render each cell's spans.
            let cells = &self.rows[r].cells;
            let mut col: usize = 0;
            while col < ncols
                invariant
                    col <= ncols,
                    ncols == cs.len(),
                    col_widths@.len() == ncols,
                    col_xs@.len() == ncols,
                    forall|k: int| 0 <= k < ncols ==> col_widths@[k] as int == #[trigger] solved(cs, area.width as int, k),
                    forall|k: int| 0 <= k < ncols ==> col_xs@[k] as int == #[trigger] col_x(cs, area, k),
                    row == cells@.map_values(|c: Vec<Span>| c@),
                    row_y < area.y + area.height,
                    row_y >= area.y,
                    area.fits(),
                    buf.wf(),
                    buf.spec_animated() == anim,
                    buf.spec_area() == barea,
                    start.len() == barea.width * barea.height,
                    done == cells_start + cells_writes(row, is_selected, hl, cs, area, row_y, col as int),
                    buf@ == put_all(barea, start, done),
                    unchanged_outside(buf@, start, barea, area),
                    hl == self.highlight_style,
                decreases ncols - col,
            {
                if col < cells.len() {
                    let plain = collect_items(&cells[col]);
                    let items = if is_selected {
                        highlight_items(plain, self.highlight_style)
                    } else {
                        plain
                    };
                    let ghost lw = line_writes(items@, col_x(cs, area, col as int), row_y, col_end(cs, area, col as int));
                    proof {
                        assert(row[col as int] == cells@[col as int]@);
                        assert(items@ == cell_items(row[col as int], is_selected, hl));
                        lemma_col_bounds(cs, area, col as int);
                        assert(col_widths@[col as int] as int == solved(cs, area.width as int, col as int));
                        assert(col_xs@[col as int] as int == col_x(cs, area, col as int));
                        lemma_column_line_within(items@, cs, area, col as int, row_y);
                        lemma_extend(barea, start, done, lw, area);
                    }
                    draw_clipped(buf, &items, col_xs[col], row_y, col_xs[col] + col_widths[col]);
                    proof {
                        let next = cells_start + cells_writes(row, is_selected, hl, cs, area, row_y, col + 1);
                        assert(next =~= done + lw);
                        done = next;
                    }
                } else {
                    proof {
                        let next = cells_start + cells_writes(row, is_selected, hl, cs, area, row_y, col + 1);
                        assert(next =~= done);
                        done = next;
                    }
                }
                col = col + 1;
            }
            proof {
                let next = header_done + rows_writes(rows, self.spec_selected(), hl, cs, area, y0, r + 1);
                assert(is_selected == (self.spec_selected() == Some(r)));
                assert((y0 + (r + 1) - 1) as u16 == row_y);
                assert(next =~= done);
                done = next;
            }
            row_y = row_y + 1;
            r = r + 1;
        }
        proof {
            assert(r as int == rows_shown(rows, self.spec_headers(), area));
            assert(done =~= self.spec_writes(area));
        }
    }
}

} // verus!
