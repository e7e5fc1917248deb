//! The [`Buffer`] type — a 2D grid of [`Cell`]s that widgets render into.

use vstd::prelude::*;
use crate::geometry::Rect;
use crate::style::{Style, plain_style};

verus! {

/// The display width that unicode-width's `UnicodeWidthChar::width` reports for a
/// character: `None` for control characters, else a column count.
pub uninterp spec fn unicode_char_width(c: char) -> Option<usize>;

/// Calls unicode-width's `UnicodeWidthChar::width` (ambiguous characters narrow).
///
/// Trusted, not proved: the result is the named value `unicode_char_width(c)`. By
/// the crate's `single_char_width`, printable ASCII (U+0020..=U+007E) has width 1
/// and the control ranges U+0000..=U+001F and U+007F..=U+009F have no width; every
/// other width comes from `lookup_width`, which returns at most 3. In the crate's
/// generated lookup tables the box-drawing block U+2500..=U+257F, the block
/// elements U+2580..=U+259F and the braille patterns U+2800..=U+28FF have width 1,
/// and the CJK unified ideographs U+4E00..=U+9FFF width 2. The widths the tables
/// give to other characters are not stated.
#[verifier::external_body]
fn unicode_width_of(c: char) -> (r: Option<usize>)
    ensures
        r == unicode_char_width(c),
        0x20 <= c as u32 && c as u32 <= 0x7e ==> r == Some(1usize),
        c as u32 <= 0x1f || (0x7f <= c as u32 && c as u32 <= 0x9f) ==> r is None,
        0x2500 <= c as u32 && c as u32 <= 0x259f ==> r == Some(1usize),
        0x2800 <= c as u32 && c as u32 <= 0x28ff ==> r == Some(1usize),
        0x4e00 <= c as u32 && c as u32 <= 0x9fff ==> r == Some(2usize),
        r matches Some(w) ==> w <= 3,
{
    unicode_width::UnicodeWidthChar::width(c)
}

/// The number of buffer columns a character with unicode width `w` advances by:
/// control characters and zero-width characters take one column.
pub open spec fn columns_from(w: Option<usize>) -> u16 {
    match w {
        Some(n) => if n == 0 {
            1
        } else if n >= 0xffff {
            0xffff
        } else {
            n as u16
        },
        None => 1,
    }
}

/// The number of buffer columns `c` occupies.
pub open spec fn char_width_spec(c: char) -> u16 {
    columns_from(unicode_char_width(c))
}

/// The widths of printable ASCII characters, control characters, box-drawing
/// characters, block elements and braille patterns (one column each), and of CJK
/// unified ideographs (two columns).
pub open spec fn known_width(c: char) -> bool {
    &&& 0x20 <= c as u32 && c as u32 <= 0x7e ==> char_width_spec(c) == 1
    &&& c as u32 <= 0x1f ==> char_width_spec(c) == 1
    &&& 0x2500 <= c as u32 && c as u32 <= 0x259f ==> char_width_spec(c) == 1
    &&& 0x2800 <= c as u32 && c as u32 <= 0x28ff ==> char_width_spec(c) == 1
    &&& 0x4e00 <= c as u32 && c as u32 <= 0x9fff ==> char_width_spec(c) == 2
}

/// Turns a unicode width into the number of buffer columns it advances by.
pub fn columns_for(w: Option<usize>) -> (r: u16)
    ensures
        r == columns_from(w),
{
    match w {
        Some(n) => if n == 0 {
            1
        } else if n >= 0xffff {
            0xffff
        } else {
            n as u16
        },
        None => 1,
    }
}

/// Every character occupies at least one column.
pub proof fn lemma_char_width_positive(c: char)
    ensures
        char_width_spec(c) >= 1,
{
}

/// Returns the display column-width of `ch` for buffer advancement purposes.
/// `None`-width characters (most control chars) count as 1, and zero-width
/// characters (combining marks, `'\0'`) are clamped to 1 so that buffer position
/// arithmetic never stalls.
pub fn char_width(ch: char) -> (r: u16)
    ensures
        r == char_width_spec(ch),
        1 <= r <= 3,
        known_width(ch),
{
    columns_for(unicode_width_of(ch))
}

/// A single terminal character position: one glyph and its visual style.
#[derive(Debug, Clone, Copy, PartialEq, Eq, Structural)]
pub struct Cell {
    /// The character displayed at this position.
    pub ch: char,
    /// The visual style (colours, bold, etc.) applied to `ch`.
    pub style: Style,
}

/// A space in the plain style.
pub open spec fn blank_cell() -> Cell {
    Cell { ch: ' ', style: plain_style() }
}

impl Default for Cell {
    fn default() -> (c: Cell)
        ensures
            c == blank_cell(),
    {
        Cell { ch: ' ', style: Style::default() }
    }
}

/// The cell showing `ch` in `style`.
pub open spec fn styled_cell(ch: char, style: Style) -> Cell {
    Cell { ch, style }
}

/// A write of one cell at a column and row.
pub type CellWrite = (u16, u16, Cell);

/// Position of the cell at column `x`, row `y` in the row-major cells of `area`.
pub open spec fn cell_offset(area: Rect, x: int, y: int) -> int {
    (y - area.y) * area.width + (x - area.x)
}

/// The column that receives the continuation of a wide character written at `x`
/// (meaningful when `x` is not the last representable column).
pub open spec fn continuation_column(x: u16) -> u16 {
    (x + 1) as u16
}

/// Whether writing `cell` at (`x`, `y`) also writes a `'\0'` continuation: the
/// character is two columns wide and the next column exists and lies in `area`.
pub open spec fn has_continuation(area: Rect, x: u16, y: u16, cell: Cell) -> bool {
    &&& char_width_spec(cell.ch) == 2
    &&& x < u16::MAX
    &&& area.contains(x + 1, y as int)
}

/// The cells of a buffer over `area` after writing `cell` at (`x`, `y`): nothing
/// changes outside the area; a character two columns wide also writes a `'\0'`
/// continuation in the next column when that column exists and is in the area.
pub open spec fn put(area: Rect, cells: Seq<Cell>, x: u16, y: u16, cell: Cell) -> Seq<Cell> {
    if area.contains(x as int, y as int) {
        let placed = cells.update(cell_offset(area, x as int, y as int), cell);
        let cx = continuation_column(x);
        if has_continuation(area, x, y, cell) {
            placed.update(
                cell_offset(area, cx as int, y as int),
                Cell { ch: '\0', style: cell.style },
            )
        } else {
            placed
        }
    } else {
        cells
    }
}

/// The cells after performing `ws` in order.
pub open spec fn put_all(area: Rect, cells: Seq<Cell>, ws: Seq<CellWrite>) -> Seq<Cell>
    decreases ws.len(),
{
    if ws.len() == 0 {
        cells
    } else {
        let w = ws.last();
        put(area, put_all(area, cells, ws.drop_last()), w.0, w.1, w.2)
    }
}

/// Whether a write touches only cells of `region`, its continuation included.
pub open spec fn write_within(w: CellWrite, region: Rect) -> bool {
    &&& region.contains(w.0 as int, w.1 as int)
    &&& (char_width_spec(w.2.ch) == 2 && w.0 < u16::MAX) ==> region.contains(w.0 + 1, w.1 as int)
}

/// Whether every write of `ws` touches only cells of `region`.
pub open spec fn writes_within(ws: Seq<CellWrite>, region: Rect) -> bool {
    forall|i: int| 0 <= i < ws.len() ==> write_within(#[trigger] ws[i], region)
}

/// Whether `new` and `old`, cells of a buffer over `area`, agree on every cell
/// outside `region`.
pub open spec fn unchanged_outside(new: Seq<Cell>, old: Seq<Cell>, area: Rect, region: Rect) -> bool {
    &&& new.len() == old.len()
    &&& forall|cx: int, cy: int|
        area.contains(cx, cy) && !region.contains(cx, cy) ==> new[#[trigger] cell_offset(
            area,
            cx,
            cy,
        )] == old[cell_offset(area, cx, cy)]
}

/// The column of the cell at position `i` of the row-major cells of `area`.
pub open spec fn offset_x(area: Rect, i: int) -> int {
    area.x + i % (area.width as int)
}

/// The row of the cell at position `i` of the row-major cells of `area`.
pub open spec fn offset_y(area: Rect, i: int) -> int {
    area.y + i / (area.width as int)
}

/// The cells that differ between the first `n` cells of `cur` and `prev`, with
/// their positions, in row-major order.
pub open spec fn diff_spec(area: Rect, cur: Seq<Cell>, prev: Seq<Cell>, n: int) -> Seq<CellWrite>
    decreases n,
{
    if n <= 0 {
        seq![]
    } else {
        let rest = diff_spec(area, cur, prev, n - 1);
        if cur[n - 1] != prev[n - 1] {
            rest.push(
                (offset_x(area, n - 1) as u16, offset_y(area, n - 1) as u16, cur[n - 1]),
            )
        } else {
            rest
        }
    }
}

/// Replaces, for each entry of `ds`, the cell at its position with its cell (no
/// continuation handling).
pub open spec fn replace_all(area: Rect, cells: Seq<Cell>, ds: Seq<CellWrite>) -> Seq<Cell>
    decreases ds.len(),
{
    if ds.len() == 0 {
        cells
    } else {
        let d = ds.last();
        replace_all(area, cells, ds.drop_last()).update(
            cell_offset(area, d.0 as int, d.1 as int),
            d.2,
        )
    }
}

/// The column reached after writing the characters `cs` one after another from
/// column `x`, each advancing by its width (saturating at `u16::MAX`).
pub open spec fn str_cursor(cs: Seq<char>, x: u16) -> u16
    decreases cs.len(),
{
    if cs.len() == 0 {
        x
    } else {
        str_cursor(cs.drop_last(), x).saturating_add(char_width_spec(cs.last()))
    }
}

/// The writes that put the characters `cs`, all in `style`, one after another on
/// row `y` from column `x`.
pub open spec fn str_writes(cs: Seq<char>, x: u16, y: u16, st: Style) -> Seq<CellWrite>
    decreases cs.len(),
{
    if cs.len() == 0 {
        Seq::empty()
    } else {
        str_writes(cs.drop_last(), x, y, st).push(
            (str_cursor(cs.drop_last(), x), y, styled_cell(cs.last(), st)),
        )
    }
}

/// A cell of `area` has its offset among the `width * height` cells.
pub proof fn lemma_offset_bounds(area: Rect, x: int, y: int)
    requires
        area.contains(x, y),
    ensures
        0 <= cell_offset(area, x, y) < area.width * area.height,
{
    let w = area.width as int;
    let h = area.height as int;
    let dy = y - area.y;
    let dx = x - area.x;
    assert(0 <= dy * w + dx < h * w) by (nonlinear_arith)
        requires
            0 <= dy < h,
            0 <= dx < w,
    ;
    assert(h * w == w * h) by (nonlinear_arith);
}

/// Distinct cells of `area` have distinct offsets.
pub proof fn lemma_offset_injective(area: Rect, x1: int, y1: int, x2: int, y2: int)
    requires
        area.contains(x1, y1),
        area.contains(x2, y2),
        cell_offset(area, x1, y1) == cell_offset(area, x2, y2),
    ensures
        x1 == x2,
        y1 == y2,
{
    let w = area.width as int;
    let a1 = y1 - area.y;
    let a2 = y2 - area.y;
    let b1 = x1 - area.x;
    let b2 = x2 - area.x;
    assert(a1 == a2 && b1 == b2) by (nonlinear_arith)
        requires
            0 <= b1 < w,
            0 <= b2 < w,
            a1 >= 0,
            a2 >= 0,
            a1 * w + b1 == a2 * w + b2,
    {
        if a1 < a2 {
            assert(a1 * w + w <= a2 * w);
        } else if a2 < a1 {
            assert(a2 * w + w <= a1 * w);
        }
    }
}

/// The cell at position `i` of the cells of `area` is the cell at its column and row.
pub proof fn lemma_offset_of_index(area: Rect, i: int)
    requires
        0 <= i < area.width * area.height,
    ensures
        area.contains(offset_x(area, i), offset_y(area, i)),
        cell_offset(area, offset_x(area, i), offset_y(area, i)) == i,
{
    let w = area.width as int;
    let h = area.height as int;
    assert(w > 0) by (nonlinear_arith)
        requires
            0 <= i < w * h,
            h >= 0,
            w >= 0,
    ;
    vstd::arithmetic::div_mod::lemma_fundamental_div_mod(i, w);
    vstd::arithmetic::div_mod::lemma_mod_pos_bound(i, w);
    assert(i / w < h) by (nonlinear_arith)
        requires
            0 <= i < w * h,
            w > 0,
            i == w * (i / w) + i % w,
            0 <= i % w < w,
    ;
    assert(0 <= i / w) by (nonlinear_arith)
        requires
            0 <= i,
            w > 0,
    ;
    assert((i / w) * w == w * (i / w)) by (nonlinear_arith);
}

/// The number of cells of any rectangle fits in a `usize`.
pub proof fn lemma_area_fits_usize(area: Rect)
    ensures
        area.width * area.height <= 0xffff * 0xffff,
        0xffff * 0xffff < usize::MAX,
{
    let w = area.width as int;
    let h = area.height as int;
    assert(w * h <= 0xffff * 0xffff) by (nonlinear_arith)
        requires
            0 <= w <= 0xffff,
            0 <= h <= 0xffff,
    ;
}

/// Writing a cell keeps the number of cells.
pub proof fn lemma_put_len(area: Rect, cells: Seq<Cell>, x: u16, y: u16, cell: Cell)
    requires
        cells.len() == area.width * area.height,
    ensures
        put(area, cells, x, y, cell).len() == cells.len(),
{
    if area.contains(x as int, y as int) {
        lemma_offset_bounds(area, x as int, y as int);
        let cx = continuation_column(x);
        if has_continuation(area, x, y, cell) {
            lemma_offset_bounds(area, cx as int, y as int);
        }
    }
}

/// Performing writes keeps the number of cells.
pub proof fn lemma_put_all_len(area: Rect, cells: Seq<Cell>, ws: Seq<CellWrite>)
    requires
        cells.len() == area.width * area.height,
    ensures
        put_all(area, cells, ws).len() == cells.len(),
    decreases ws.len(),
{
    if ws.len() > 0 {
        lemma_put_all_len(area, cells, ws.drop_last());
        let w = ws.last();
        lemma_put_len(area, put_all(area, cells, ws.drop_last()), w.0, w.1, w.2);
    }
}

/// Reading back a write: after writing `cell` at a position of the buffer, that
/// position holds `cell`, and the next column holds its `'\0'` continuation when
/// the character is two columns wide and that column exists in the buffer. Every
/// other position keeps its cell.
pub proof fn lemma_read_after_put(
    area: Rect,
    cells: Seq<Cell>,
    x: u16,
    y: u16,
    cell: Cell,
    qx: int,
    qy: int,
)
    requires
        cells.len() == area.width * area.height,
        area.contains(qx, qy),
    ensures
        (qx == x && qy == y) ==> put(area, cells, x, y, cell)[cell_offset(area, qx, qy)] == cell,
        (qx == x + 1 && qy == y && area.contains(x as int, y as int) && has_continuation(
            area,
            x,
            y,
            cell,
        )) ==> put(
            area,
            cells,
            x,
            y,
            cell,
        )[cell_offset(area, qx, qy)] == (Cell { ch: '\0', style: cell.style }),
        (qy != y || (qx != x && !(has_continuation(area, x, y, cell) && qx == x + 1))) ==> put(
            area,
            cells,
            x,
            y,
            cell,
        )[cell_offset(area, qx, qy)] == cells[cell_offset(area, qx, qy)],
{
    lemma_offset_bounds(area, qx, qy);
    if area.contains(x as int, y as int) {
        lemma_offset_bounds(area, x as int, y as int);
        let cx = continuation_column(x);
        if cell_offset(area, qx, qy) == cell_offset(area, x as int, y as int) {
            lemma_offset_injective(area, qx, qy, x as int, y as int);
        }
        if has_continuation(area, x, y, cell) {
            assert(cx as int == x + 1);
            lemma_offset_bounds(area, cx as int, y as int);
            assert(cell_offset(area, cx as int, y as int) == cell_offset(area, x as int, y as int) + 1);
            if cell_offset(area, qx, qy) == cell_offset(area, cx as int, y as int) {
                lemma_offset_injective(area, qx, qy, cx as int, y as int);
            }
        }
    }
}

/// Cells that no write touches are unchanged.
pub proof fn lemma_put_all_unchanged_outside(
    area: Rect,
    cells: Seq<Cell>,
    ws: Seq<CellWrite>,
    region: Rect,
)
    requires
        cells.len() == area.width * area.height,
        writes_within(ws, region),
    ensures
        unchanged_outside(put_all(area, cells, ws), cells, area, region),
    decreases ws.len(),
{
    lemma_put_all_len(area, cells, ws);
    if ws.len() > 0 {
        let prefix = ws.drop_last();
        assert(writes_within(prefix, region)) by {
            assert forall|i: int| 0 <= i < prefix.len() implies write_within(
                #[trigger] prefix[i],
                region,
            ) by {
                assert(prefix[i] == ws[i]);
            }
        }
        lemma_put_all_unchanged_outside(area, cells, prefix, region);
        let mid = put_all(area, cells, prefix);
        let w = ws.last();
        assert(write_within(ws[ws.len() - 1], region));
        lemma_put_all_len(area, cells, prefix);
        assert forall|cx: int, cy: int|
            area.contains(cx, cy) && !region.contains(
                cx,
                cy,
            ) implies put_all(area, cells, ws)[#[trigger] cell_offset(area, cx, cy)]
            == cells[cell_offset(area, cx, cy)] by {
            lemma_read_after_put(area, mid, w.0, w.1, w.2, cx, cy);
        }
    }
}

/// A single write inside a region leaves the cells outside it unchanged.
pub proof fn lemma_put_unchanged(area: Rect, cells: Seq<Cell>, w: CellWrite, region: Rect)
    requires
        cells.len() == area.width * area.height,
        write_within(w, region),
    ensures
        unchanged_outside(put(area, cells, w.0, w.1, w.2), cells, area, region),
{
    lemma_put_len(area, cells, w.0, w.1, w.2);
    assert forall|cx: int, cy: int|
        area.contains(cx, cy) && !region.contains(
            cx,
            cy,
        ) implies put(area, cells, w.0, w.1, w.2)[#[trigger] cell_offset(area, cx, cy)]
        == cells[cell_offset(area, cx, cy)] by {
        lemma_read_after_put(area, cells, w.0, w.1, w.2, cx, cy);
    }
}

/// Agreement outside a region is preserved by a second change outside it.
pub proof fn lemma_unchanged_trans(
    a: Seq<Cell>,
    b: Seq<Cell>,
    c: Seq<Cell>,
    area: Rect,
    r1: Rect,
    r2: Rect,
    region: Rect,
)
    requires
        unchanged_outside(b, a, area, r1),
        unchanged_outside(c, b, area, r2),
        r1.within(region),
        r2.within(region),
    ensures
        unchanged_outside(c, a, area, region),
{
    assert forall|cx: int, cy: int|
        area.contains(cx, cy) && !region.contains(cx, cy) implies c[#[trigger] cell_offset(
            area,
            cx,
            cy,
        )] == a[cell_offset(area, cx, cy)] by {
        if r1.contains(cx, cy) {
            crate::geometry::lemma_within_contains(r1, region, cx, cy);
        }
        if r2.contains(cx, cy) {
            crate::geometry::lemma_within_contains(r2, region, cx, cy);
        }
    }
}

/// Cells agree outside a region when they are the same.
pub proof fn lemma_unchanged_refl(a: Seq<Cell>, area: Rect, region: Rect)
    ensures
        unchanged_outside(a, a, area, region),
{
}

/// Performing `ws1` then `ws2` is performing their concatenation.
pub proof fn lemma_put_all_append(area: Rect, cells: Seq<Cell>, ws1: Seq<CellWrite>, ws2: Seq<CellWrite>)
    ensures
        put_all(area, cells, ws1 + ws2) == put_all(area, put_all(area, cells, ws1), ws2),
    decreases ws2.len(),
{
    if ws2.len() == 0 {
        assert(ws1 + ws2 =~= ws1);
    } else {
        assert((ws1 + ws2).drop_last() =~= ws1 + ws2.drop_last());
        lemma_put_all_append(area, cells, ws1, ws2.drop_last());
    }
}

/// Writing one more character appends one write at the cursor reached so far.
pub proof fn lemma_str_writes_step(cs: Seq<char>, i: int, x: u16, y: u16, style: Style)
    requires
        0 <= i < cs.len(),
    ensures
        str_writes(cs.take(i + 1), x, y, style) == str_writes(cs.take(i), x, y, style).push(
            (str_cursor(cs.take(i), x), y, styled_cell(cs[i], style)),
        ),
        str_cursor(cs.take(i + 1), x) == str_cursor(cs.take(i), x).saturating_add(
            char_width_spec(cs[i]),
        ),
{
    let t = cs.take(i + 1);
    assert(t.drop_last() =~= cs.take(i));
    assert(t.last() == cs[i]);
}

/// A diff of a buffer against identical cells is empty.
pub proof fn lemma_diff_identical_empty(area: Rect, cells: Seq<Cell>, n: int)
    ensures
        diff_spec(area, cells, cells, n) == Seq::<CellWrite>::empty(),
    decreases n,
{
    if n > 0 {
        lemma_diff_identical_empty(area, cells, n - 1);
    }
}

/// Replacing the cells that the diff lists in `prev` yields `cur` on the first `n`
/// cells: the diff holds exactly the changes.
pub proof fn lemma_diff_prefix_patch(area: Rect, cur: Seq<Cell>, prev: Seq<Cell>, n: int)
    requires
        cur.len() == area.width * area.height,
        prev.len() == cur.len(),
        0 <= n <= cur.len(),
        area.x + area.width <= u16::MAX + 1,
        area.y + area.height <= u16::MAX + 1,
    ensures
        replace_all(area, prev, diff_spec(area, cur, prev, n)) == cur.take(n) + prev.skip(n),
    decreases n,
{
    if n == 0 {
        assert(prev.skip(0) =~= prev);
        assert(cur.take(0) + prev.skip(0) =~= prev);
    } else {
        lemma_diff_prefix_patch(area, cur, prev, n - 1);
        let i = n - 1;
        if cur[i] != prev[i] {
            lemma_offset_of_index(area, i);
            let d = diff_spec(area, cur, prev, n).last();
            assert(d.0 as int == offset_x(area, i)) by {
                assert(offset_x(area, i) < u16::MAX + 1);
            }
            assert(d.1 as int == offset_y(area, i)) by {
                assert(offset_y(area, i) < u16::MAX + 1);
            }
            assert(diff_spec(area, cur, prev, n).drop_last() == diff_spec(area, cur, prev, i));
        }
        assert((cur.take(i) + prev.skip(i)).update(i, cur[i]) =~= cur.take(n) + prev.skip(n));
        if cur[i] == prev[i] {
            assert(cur.take(i) + prev.skip(i) =~= cur.take(n) + prev.skip(n));
        }
    }
}

/// Replacing in `prev` the cells that the diff lists yields `cur`: a terminal that
/// shows `prev` and receives the diff shows `cur`.
pub proof fn lemma_diff_patches_prev(area: Rect, cur: Seq<Cell>, prev: Seq<Cell>)
    requires
        cur.len() == area.width * area.height,
        prev.len() == cur.len(),
        area.x + area.width <= u16::MAX + 1,
        area.y + area.height <= u16::MAX + 1,
    ensures
        replace_all(area, prev, diff_spec(area, cur, prev, cur.len() as int)) == cur,
{
    lemma_diff_prefix_patch(area, cur, prev, cur.len() as int);
    assert(cur.take(cur.len() as int) + prev.skip(cur.len() as int) =~= cur);
}

/// A 2D grid of [`Cell`]s covering a [`Rect`].
///
/// Widgets write into a `Buffer` during rendering. After each frame the terminal
/// compares the new buffer against the previous one and only flushes the changed
/// cells to stdout.
pub struct Buffer {
    /// The region of the terminal this buffer covers.
    pub(crate) area: Rect,
    cells: Vec<Cell>,
    /// Set by animated widgets (e.g. [`Spinner`](crate::widget::Spinner)) during render
    /// to signal that the frame should be redrawn on a timer.
    pub(crate) animated: bool,
}

impl Clone for Buffer {
    /// A copy of the buffer: the same area, cells and animation flag.
    fn clone(&self) -> (r: Buffer)
        ensures
            r@ == self@,
            r.spec_area() == self.spec_area(),
            r.spec_animated() == self.spec_animated(),
    {
        let mut cells: Vec<Cell> = Vec::new();
        let mut i: usize = 0;
        while i < self.cells.len()
            invariant
                i <= self.cells@.len(),
                cells@ == self.cells@.take(i as int),
            decreases self.cells@.len() - i,
        {
            cells.push(self.cells[i]);
            i = i + 1;
            assert(cells@ =~= self.cells@.take(i as int));
        }
        assert(cells@ =~= self.cells@);
        Buffer { area: self.area, cells, animated: self.animated }
    }
}

impl View for Buffer {
    type V = Seq<Cell>;

    /// The cells of the buffer in row-major order.
    closed spec fn view(&self) -> Seq<Cell> {
        self.cells@
    }
}

impl Buffer {
    /// The region of the terminal the buffer covers.
    pub closed spec fn spec_area(&self) -> Rect {
        self.area
    }

    /// Whether a widget has asked for periodic redraws.
    pub closed spec fn spec_animated(&self) -> bool {
        self.animated
    }


    /// Whether the buffer holds one cell per position of its area.
    pub open spec fn wf(&self) -> bool {
        self@.len() == self.spec_area().width * self.spec_area().height
    }

    /// The cell at column `x`, row `y` (meaningful for positions inside the area).
    pub open spec fn spec_cell(&self, x: int, y: int) -> Cell {
        self@[cell_offset(self.spec_area(), x, y)]
    }

    /// Creates a buffer filled with blank [`Cell`]s covering `area`.
    pub fn empty(area: Rect) -> (r: Buffer)
        ensures
            r.wf(),
            r.spec_area() == area,
            !r.spec_animated(),
            r@ == Seq::new((area.width * area.height) as nat, |i: int| blank_cell()),
    {
        proof {
            lemma_area_fits_usize(area);
        }
        let cell_count = area.width as usize * area.height as usize;
        let mut cells: Vec<Cell> = Vec::new();
        let mut i: usize = 0;
        while i < cell_count
            invariant
                i <= cell_count,
                cell_count == area.width * area.height,
                cells@ == Seq::new(i as nat, |k: int| blank_cell()),
            decreases cell_count - i,
        {
            cells.push(Cell::default());
            i = i + 1;
            assert(cells@ =~= Seq::new(i as nat, |k: int| blank_cell()));
        }
        Buffer { area, cells, animated: false }
    }

    /// Marks this buffer as requiring periodic redraws. Call from
    /// [`Widget::render`](crate::widget::Widget::render) implementations that display
    /// time-varying content.
    pub fn mark_animated(&mut self)
        ensures
            final(self).spec_animated(),
            final(self).spec_area() == old(self).spec_area(),
            final(self)@ == old(self)@,
    {
        self.animated = true;
    }

    /// Whether a widget has asked for periodic redraws of this buffer.
    pub fn is_animated(&self) -> (r: bool)
        ensures
            r == self.spec_animated(),
    {
        self.animated
    }

    /// Converts absolute terminal coordinates to a flat index into `cells`.
    /// Returns `None` if `(x, y)` falls outside `self.area`.
    fn index(&self, x: u16, y: u16) -> (r: Option<usize>)
        requires
            self.wf(),
        ensures
            self.area.contains(x as int, y as int) <==> r is Some,
            r matches Some(i) ==> i == cell_offset(self.area, x as int, y as int) && i < self@.len(),
    {
        let rx = x.checked_sub(self.area.x)?;
        let ry = y.checked_sub(self.area.y)?;
        if rx >= self.area.width || ry >= self.area.height {
            return None;
        }
        proof {
            lemma_offset_bounds(self.area, x as int, y as int);
            lemma_area_fits_usize(self.area);
            assert(ry * self.area.width <= (self.area.height - 1) * self.area.width) by (nonlinear_arith)
                requires
                    ry < self.area.height,
            ;
            assert((self.area.height - 1) * self.area.width + self.area.width == self.area.width * self.area.height) by (nonlinear_arith);
        }
        Some(ry as usize * (self.area.width as usize) + rx as usize)
    }

    /// Returns the cell at absolute terminal position `(x, y)`.
    /// Returns `None` if the position is outside `self.area`.
    pub fn get_cell(&self, x: u16, y: u16) -> (r: Option<Cell>)
        requires
            self.wf(),
        ensures
            self.spec_area().contains(x as int, y as int) ==> r == Some(
                self.spec_cell(x as int, y as int),
            ),
            !self.spec_area().contains(x as int, y as int) ==> r is None,
    {
        match self.index(x, y) {
            Some(i) => Some(self.cells[i]),
            None => None,
        }
    }

    /// Writes `cell` to absolute terminal position `(x, y)`.
    /// Out-of-bounds writes are silently ignored.
    /// If `cell.ch` has display width 2, also writes a `'\0'` continuation sentinel at `(x+1, y)`.
    pub fn set_cell(&mut self, x: u16, y: u16, cell: Cell)
        requires
            old(self).wf(),
        ensures
            final(self).wf(),
            final(self).spec_area() == old(self).spec_area(),
            final(self).spec_animated() == old(self).spec_animated(),
            final(self)@ == put(old(self).spec_area(), old(self)@, x, y, cell),
            known_width(cell.ch),
    {
        proof {
            lemma_put_len(self.area, self@, x, y, cell);
        }
        let width = char_width(cell.ch);
        if let Some(index) = self.index(x, y) {
            let cell_style = cell.style;
            self.cells.set(index, cell);
            if width == 2 && x < u16::MAX {
                if let Some(cont_index) = self.index(x + 1, y) {
                    self.cells.set(cont_index, Cell { ch: '\0', style: cell_style });
                }
            }
        }
    }

    /// Writes each character of `s` left-to-right starting at `(x, y)`, all
    /// sharing the same `style`. Advances `x` by each character's display width.
    /// Out-of-bounds characters are silently ignored.
    pub fn set_str(&mut self, x: u16, y: u16, s: &str, style: Style)
        requires
            old(self).wf(),
        ensures
            final(self).wf(),
            final(self).spec_area() == old(self).spec_area(),
            final(self).spec_animated() == old(self).spec_animated(),
            final(self)@ == put_all(old(self).spec_area(), old(self)@, str_writes(s@, x, y, style)),
    {
        let ghost x0 = x;
        let ghost start = self@;
        let mut cx = x;
        for ch in it: s.chars()
            invariant
                it.seq() == s@,
                self.wf(),
                self.area == old(self).spec_area(),
                self.animated == old(self).spec_animated(),
                start == old(self)@,
                cx == str_cursor(s@.take(it.index() as int), x0),
                self@ == put_all(self.area, start, str_writes(s@.take(it.index() as int), x0, y, style)),
        {
            let ghost i = it.index() as int;
            proof {
                assert(0 <= i < s@.len());
                assert(s@.take(i + 1).drop_last() =~= s@.take(i));
                assert(s@.take(i + 1).last() == ch);
            }
            let ghost before = self@;
            self.set_cell(cx, y, Cell { ch, style });
            cx = cx.saturating_add(char_width(ch));
            proof {
                lemma_str_writes_step(s@, i, x0, y, style);
                let ws = str_writes(s@.take(i + 1), x0, y, style);
                assert(ws.drop_last() =~= str_writes(s@.take(i), x0, y, style));
                assert(self@ == put_all(self.area, start, ws));
            }
        }
        proof {
            assert(s@.take(s@.len() as int) =~= s@);
        }
    }

    /// Returns `(x, y, cell)` for each cell that differs from `prev`, in row-major
    /// order. Returns `None` if the two buffers are not the same dimensions.
    pub fn diff(&self, prev: &Buffer) -> (r: Option<Vec<CellWrite>>)
        requires
            self.wf(),
            prev.wf(),
            self.spec_area().x + self.spec_area().width <= u16::MAX + 1,
            self.spec_area().y + self.spec_area().height <= u16::MAX + 1,
        ensures
            (self.spec_area().height != prev.spec_area().height || self.spec_area().width != prev.spec_area().width) ==> r is None,
            (self.spec_area().height == prev.spec_area().height && self.spec_area().width == prev.spec_area().width) ==> (r
                matches Some(v) && v@ == diff_spec(self.spec_area(), self@, prev@, self@.len() as int)),
    {
        // Check dimensions and short circuit if they are not compatible
        if self.area.height != prev.area.height || self.area.width != prev.area.width {
            return None;
        }
        let n = self.cells.len();
        let mut out: Vec<CellWrite> = Vec::new();
        let mut i: usize = 0;
        while i < n
            invariant
                i <= n,
                n == self@.len(),
                prev@.len() == n,
                self.wf(),
                self.area.x + self.area.width <= u16::MAX + 1,
                self.area.y + self.area.height <= u16::MAX + 1,
                out@ == diff_spec(self.area, self@, prev@, i as int),
            decreases n - i,
        {
            let cell = self.cells[i];
            let prev_cell = prev.cells[i];
            if cell != prev_cell {
                let w = self.area.width as usize;
                proof {
                    lemma_offset_of_index(self.area, i as int);
                }
                let x = (self.area.x as usize + i % w) as u16;
                let y = (self.area.y as usize + i / w) as u16;
                out.push((x, y, cell));
            }
            i = i + 1;
        }
        Some(out)
    }
}

} // verus!
