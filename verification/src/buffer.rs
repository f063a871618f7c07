//! The compositor's 2D cell grid, plus multi-width-aware minimal diff and
//! region-aware drawing (clip rects and scroll offsets).

use vstd::prelude::*;

use crate::cell::{char_width, char_width_spec, Cell, CellView, CellUpdate, CellUpdateView, blank_cell};
use crate::color::Color;
use crate::cursor::Cursor;
use crate::rect::Rect;
use crate::style::{Style, StyleView};
use crate::text::chars_of;

verus! {

/// A bounded drawing region: a clip rectangle plus a scroll offset.
///
/// Drawing "through" a region maps content coordinates into buffer
/// coordinates by subtracting the scroll offset, then rejects any cell that
/// lands outside the clip rect.
#[derive(Debug, Clone, Copy, PartialEq, Eq, Structural, Default)]
pub struct Region {
    /// The rectangle (in buffer coordinates) that drawing is restricted to.
    pub clip: Rect,
    /// Horizontal scroll offset in cells.
    pub scroll_x: i32,
    /// Vertical scroll offset in cells.
    pub scroll_y: i32,
}

impl Region {
    /// A region that clips to `clip` without scrolling.
    pub fn clip_only(clip: Rect) -> (r: Self)
        ensures
            r == (Region { clip, scroll_x: 0, scroll_y: 0 }),
    {
        Region { clip, scroll_x: 0, scroll_y: 0 }
    }

    /// A region with a clip rect and a scroll offset.
    pub fn new(clip: Rect, scroll_x: i32, scroll_y: i32) -> (r: Self)
        ensures
            r == (Region { clip, scroll_x, scroll_y }),
    {
        Region { clip, scroll_x, scroll_y }
    }

    /// The buffer column a content column maps to (before clipping).
    pub fn map_x(&self, x: i32) -> (r: i32)
        requires
            i32::MIN <= x - self.scroll_x <= i32::MAX,
        ensures
            r == x - self.scroll_x,
    {
        x - self.scroll_x
    }

    /// The buffer row a content row maps to (before clipping).
    pub fn map_y(&self, y: i32) -> (r: i32)
        requires
            i32::MIN <= y - self.scroll_y <= i32::MAX,
        ensures
            r == y - self.scroll_y,
    {
        y - self.scroll_y
    }

    /// Whether a content cell at (`x`, `y`) lands inside the clip rect.
    pub fn contains(&self, x: i32, y: i32) -> (b: bool)
        requires
            self.clip.edges_fit(),
            i32::MIN <= x - self.scroll_x <= i32::MAX,
            i32::MIN <= y - self.scroll_y <= i32::MAX,
        ensures
            b == self.clip.spec_contains(x - self.scroll_x, y - self.scroll_y),
    {
        self.clip.contains(self.map_x(x), self.map_y(y))
    }
}

/// The mathematical value of a [`Buffer`]: its size and its cells in
/// row-major order.
pub struct BufferView {
    pub width: nat,
    pub height: nat,
    pub cells: Seq<CellView>,
}

impl BufferView {
    /// Whether (`x`, `y`) lies inside the grid.
    pub open spec fn in_bounds(self, x: int, y: int) -> bool {
        0 <= x < self.width && 0 <= y < self.height
    }

    /// The row-major index of (`x`, `y`).
    pub open spec fn index_of(self, x: int, y: int) -> int {
        y * self.width + x
    }

    /// The cell at (`x`, `y`).
    pub open spec fn at(self, x: int, y: int) -> CellView {
        self.cells[self.index_of(x, y)]
    }

    /// The grid with the cell at (`x`, `y`) replaced by `c`.
    pub open spec fn put(self, x: int, y: int, c: CellView) -> BufferView {
        BufferView { cells: self.cells.update(self.index_of(x, y), c), ..self }
    }

    /// Whether the cell vector holds exactly `width * height` cells.
    pub open spec fn wf(self) -> bool {
        self.cells.len() == self.width * self.height
    }
}

/// Replacing one cell replaces its value in the cell views.
proof fn lemma_cells_update(s: Seq<Cell>, i: int)
    requires
        0 <= i < s.len(),
    ensures
        forall|c: Cell| (#[trigger] s.update(i, c)).map_values(|d: Cell| d@) == s.map_values(|d: Cell| d@).update(i, c@),
{
    assert forall|c: Cell| (#[trigger] s.update(i, c)).map_values(|d: Cell| d@) == s.map_values(|d: Cell| d@).update(i, c@) by {
        assert(s.update(i, c).map_values(|d: Cell| d@) =~= s.map_values(|d: Cell| d@).update(i, c@));
    }
}

/// Row-major indices of in-bounds cells lie inside the grid.
pub proof fn lemma_index_in_range(w: nat, h: nat, x: int, y: int)
    requires
        0 <= x < w,
        0 <= y < h,
    ensures
        0 <= y * w + x < w * h,
        y * w + x + 1 <= w * h,
        y * w + x + 1 <= h * w,
        w * h == h * w,
{
    assert(w * h == h * w) by (nonlinear_arith);
    assert(0 <= y * w) by (nonlinear_arith)
        requires
            0 <= y,
    ;
    assert(y * w + x < w * h) by (nonlinear_arith)
        requires
            0 <= x < w,
            0 <= y < h,
    ;
}

/// The lead cell a wide character is written as.
pub open spec fn wide_lead(ch: char, st: StyleView) -> CellView {
    CellView { ch, symbol: None, style: st, width: 2 }
}

/// The masked continuation cell written after a wide character.
pub open spec fn mask_cell(st: StyleView) -> CellView {
    CellView { ch: '\0', symbol: None, style: st, width: 0 }
}

/// Writing over one column of a wide glyph breaks the glyph up: when the
/// cell at (`x`, `y`) is the continuation of a wide lead, the lead is reset
/// to a blank cell; when it is a wide lead, its continuation is.
pub open spec fn unpair_spec(b: BufferView, x: int, y: int) -> BufferView {
    if b.at(x, y).width == 0 && x >= 1 && b.at(x - 1, y).width == 2 {
        b.put(x - 1, y, blank_cell())
    } else if b.at(x, y).width == 2 && x + 1 < b.width && b.at(x + 1, y).width == 0 {
        b.put(x + 1, y, blank_cell())
    } else {
        b
    }
}

/// The effect of writing one character at (`x`, `y`): whether it was
/// written, and the resulting grid. Any wide glyph the write lands on is
/// broken up first (see [`unpair_spec`]), so no half of one is left behind.
pub open spec fn set_char_spec(b: BufferView, x: int, y: int, ch: char, st: StyleView) -> (bool, BufferView) {
    let w = char_width_spec(ch);
    if w == 2 {
        if x < 0 || y < 0 || x + 1 >= b.width || y >= b.height {
            (false, b)
        } else {
            (true, unpair_spec(unpair_spec(b, x, y), x + 1, y).put(x, y, wide_lead(ch, st)).put(x + 1, y, mask_cell(st)))
        }
    } else if b.in_bounds(x, y) {
        (true, unpair_spec(b, x, y).put(x, y, CellView { ch, symbol: None, style: st, width: w }))
    } else {
        (false, b)
    }
}

/// Every wide (width 2) cell is followed, in its row, by its masked
/// continuation cell (width 0).
#[verifier::opaque]
pub open spec fn wide_pairs_intact(b: BufferView) -> bool {
    forall|x: int, y: int|
        #![trigger b.at(x, y)]
        0 <= x < b.width && 0 <= y < b.height && b.at(x, y).width == 2
            ==> x + 1 < b.width && b.at(x + 1, y).width == 0
}

/// Row-major indices of in-bounds cells are distinct.
proof fn lemma_index_injective(w: nat, x1: int, y1: int, x2: int, y2: int)
    requires
        0 <= x1 < w,
        0 <= x2 < w,
        0 <= y1,
        0 <= y2,
    ensures
        y1 * w + x1 == y2 * w + x2 <==> x1 == x2 && y1 == y2,
{
    if y1 < y2 {
        assert(y1 * w + w <= y2 * w) by (nonlinear_arith)
            requires
                y1 < y2,
        ;
    } else if y2 < y1 {
        assert(y2 * w + w <= y1 * w) by (nonlinear_arith)
            requires
                y2 < y1,
        ;
    }
}

/// Reading a grid after replacing one cell.
proof fn lemma_put_at(b: BufferView, x: int, y: int, c: CellView)
    requires
        b.wf(),
        b.in_bounds(x, y),
    ensures
        b.put(x, y, c).wf(),
        b.put(x, y, c).width == b.width,
        b.put(x, y, c).height == b.height,
        forall|x2: int, y2: int|
            b.in_bounds(x2, y2) ==> #[trigger] b.put(x, y, c).at(x2, y2)
                == (if x2 == x && y2 == y { c } else { b.at(x2, y2) }),
{
    lemma_index_in_range(b.width, b.height, x, y);
    assert forall|x2: int, y2: int| b.in_bounds(x2, y2) implies #[trigger] b.put(x, y, c).at(x2, y2)
        == (if x2 == x && y2 == y { c } else { b.at(x2, y2) }) by {
        lemma_index_in_range(b.width, b.height, x2, y2);
        lemma_index_injective(b.width, x, y, x2, y2);
    }
}

/// The column whose cell [`unpair_spec`] resets, or -1 when none.
spec fn unpair_partner(b: BufferView, x: int, y: int) -> int {
    if b.at(x, y).width == 0 && x >= 1 && b.at(x - 1, y).width == 2 {
        x - 1
    } else if b.at(x, y).width == 2 && x + 1 < b.width && b.at(x + 1, y).width == 0 {
        x + 1
    } else {
        -1
    }
}

proof fn lemma_unpair(b: BufferView, x: int, y: int)
    requires
        b.wf(),
        b.in_bounds(x, y),
    ensures
        unpair_spec(b, x, y).wf(),
        unpair_spec(b, x, y).width == b.width,
        unpair_spec(b, x, y).height == b.height,
        forall|x2: int, y2: int|
            b.in_bounds(x2, y2) ==> #[trigger] unpair_spec(b, x, y).at(x2, y2)
                == (if y2 == y && x2 == unpair_partner(b, x, y) { blank_cell() } else { b.at(x2, y2) }),
{
    let p = unpair_partner(b, x, y);
    if p >= 0 {
        lemma_put_at(b, p, y, blank_cell());
    }
}

/// Writing a character keeps every wide cell followed by its masked
/// continuation: a wide glyph the write lands on is broken up, and a wide
/// character is written only together with its continuation.
pub proof fn set_char_keeps_wide_pairs(b: BufferView, x: int, y: int, ch: char, st: StyleView)
    requires
        b.wf(),
        wide_pairs_intact(b),
    ensures
        set_char_spec(b, x, y, ch, st).1.wf(),
        wide_pairs_intact(set_char_spec(b, x, y, ch, st).1),
{
    let w = char_width_spec(ch);
    if w == 2 {
        if !(x < 0 || y < 0 || x + 1 >= b.width || y >= b.height) {
            wide_write_keeps_pairs(b, x, y, wide_lead(ch, st), mask_cell(st));
        }
    } else if b.in_bounds(x, y) {
        narrow_write_keeps_pairs(b, x, y, CellView { ch, symbol: None, style: st, width: w });
    }
}

/// Writing a character through a region keeps every wide cell followed by
/// its masked continuation, as [`set_char_keeps_wide_pairs`] does.
pub proof fn set_char_region_keeps_wide_pairs(b: BufferView, x: int, y: int, ch: char, st: StyleView, region: Region)
    requires
        b.wf(),
        wide_pairs_intact(b),
    ensures
        set_char_region_spec(b, x, y, ch, st, region).1.wf(),
        wide_pairs_intact(set_char_region_spec(b, x, y, ch, st, region).1),
{
    let w = char_width_spec(ch);
    let bx = x - region.scroll_x;
    let by = y - region.scroll_y;
    if w == 2 {
        if !(bx < 0 || by < 0 || bx + 1 >= b.width || by >= b.height)
            && region.clip.spec_contains(bx, by) && region.clip.spec_contains(bx + 1, by) {
            wide_write_keeps_pairs(b, bx, by, wide_lead(ch, st), mask_cell(st));
        }
    } else if w != 0 && b.in_bounds(bx, by) && region.clip.spec_contains(bx, by) {
        narrow_write_keeps_pairs(b, bx, by, CellView { ch, symbol: None, style: st, width: w });
    }
}

#[verifier::rlimit(40)]
proof fn narrow_write_keeps_pairs(b: BufferView, x: int, y: int, c: CellView)
    requires
        b.wf(),
        wide_pairs_intact(b),
        b.in_bounds(x, y),
        c.width != 2,
    ensures
        unpair_spec(b, x, y).put(x, y, c).wf(),
        wide_pairs_intact(unpair_spec(b, x, y).put(x, y, c)),
{
    reveal(wide_pairs_intact);
    let u = unpair_spec(b, x, y);
    lemma_unpair(b, x, y);
    let q = unpair_partner(b, x, y);
    lemma_put_at(u, x, y, c);
    let f = u.put(x, y, c);
    assert forall|x2: int, y2: int|
        #![trigger f.at(x2, y2)]
        0 <= x2 < f.width && 0 <= y2 < f.height && f.at(x2, y2).width == 2
            implies x2 + 1 < f.width && f.at(x2 + 1, y2).width == 0 by {
        assert(!(x2 == x && y2 == y));
        assert(f.at(x2, y2) == u.at(x2, y2));
        assert(!(y2 == y && x2 == q));
        assert(u.at(x2, y2) == b.at(x2, y2));
        assert(x2 + 1 < b.width && b.at(x2 + 1, y2).width == 0);
        if y2 == y && x2 + 1 == x {
            assert(q == x - 1);
            assert(false);
        } else {
            assert(f.at(x2 + 1, y2) == u.at(x2 + 1, y2));
            assert(!(y2 == y && x2 + 1 == q));
            assert(u.at(x2 + 1, y2) == b.at(x2 + 1, y2));
        }
    }
}

#[verifier::rlimit(40)]
proof fn wide_write_keeps_pairs(b: BufferView, x: int, y: int, lead: CellView, mask: CellView)
    requires
        b.wf(),
        wide_pairs_intact(b),
        b.in_bounds(x, y),
        b.in_bounds(x + 1, y),
        lead.width == 2,
        mask.width == 0,
    ensures
        unpair_spec(unpair_spec(b, x, y), x + 1, y).put(x, y, lead).put(x + 1, y, mask).wf(),
        wide_pairs_intact(unpair_spec(unpair_spec(b, x, y), x + 1, y).put(x, y, lead).put(x + 1, y, mask)),
{
    reveal(wide_pairs_intact);
    let u1 = unpair_spec(b, x, y);
    lemma_unpair(b, x, y);
    let q1 = unpair_partner(b, x, y);
    let u2 = unpair_spec(u1, x + 1, y);
    lemma_unpair(u1, x + 1, y);
    let q2 = unpair_partner(u1, x + 1, y);
    let p1 = u2.put(x, y, lead);
    lemma_put_at(u2, x, y, lead);
    let f = p1.put(x + 1, y, mask);
    lemma_put_at(p1, x + 1, y, mask);
    assert forall|x2: int, y2: int|
        #![trigger f.at(x2, y2)]
        0 <= x2 < f.width && 0 <= y2 < f.height && f.at(x2, y2).width == 2
            implies x2 + 1 < f.width && f.at(x2 + 1, y2).width == 0 by {
        if x2 == x && y2 == y {
            assert(f.at(x + 1, y) == mask);
        } else {
            assert(!(x2 == x + 1 && y2 == y));
            assert(f.at(x2, y2) == u2.at(x2, y2));
            assert(!(y2 == y && x2 == q2));
            assert(u2.at(x2, y2) == u1.at(x2, y2));
            assert(!(y2 == y && x2 == q1));
            assert(u1.at(x2, y2) == b.at(x2, y2));
            assert(x2 + 1 < b.width && b.at(x2 + 1, y2).width == 0);
            if y2 == y && x2 + 1 == x {
                assert(q1 == x - 1);
                assert(false);
            } else {
                assert(f.at(x2 + 1, y2) == u2.at(x2 + 1, y2));
                assert(!(y2 == y && x2 + 1 == q2));
                assert(u2.at(x2 + 1, y2) == u1.at(x2 + 1, y2));
                assert(!(y2 == y && x2 + 1 == q1));
                assert(u1.at(x2 + 1, y2) == b.at(x2 + 1, y2));
            }
        }
    }
}

/// The effect of writing the characters `s` from column `cx` of row `y`:
/// each character advances the column by its width; zero-width characters
/// are skipped, and writing stops at the right edge before any character
/// that would cross it.
pub open spec fn set_string_spec(b: BufferView, cx: int, y: int, s: Seq<char>, st: StyleView) -> BufferView
    decreases s.len(),
{
    if s.len() == 0 || cx >= b.width {
        b
    } else {
        let w = char_width_spec(s[0]);
        if w == 0 {
            set_string_spec(b, cx, y, s.skip(1), st)
        } else if cx + w > b.width {
            b
        } else {
            set_string_spec(set_char_spec(b, cx, y, s[0], st).1, cx + w, y, s.skip(1), st)
        }
    }
}

/// The effect of writing one character at content position (`x`, `y`)
/// through `region`.
pub open spec fn set_char_region_spec(b: BufferView, x: int, y: int, ch: char, st: StyleView, region: Region) -> (bool, BufferView) {
    let w = char_width_spec(ch);
    let bx = x - region.scroll_x;
    let by = y - region.scroll_y;
    if w == 2 {
        if bx < 0 || by < 0 || bx + 1 >= b.width || by >= b.height {
            (false, b)
        } else if !region.clip.spec_contains(bx, by) || !region.clip.spec_contains(bx + 1, by) {
            (false, b)
        } else {
            (true, unpair_spec(unpair_spec(b, bx, by), bx + 1, by).put(bx, by, wide_lead(ch, st)).put(bx + 1, by, mask_cell(st)))
        }
    } else if w == 0 {
        (false, b)
    } else if !b.in_bounds(bx, by) || !region.clip.spec_contains(bx, by) {
        (false, b)
    } else {
        (true, unpair_spec(b, bx, by).put(bx, by, CellView { ch, symbol: None, style: st, width: w }))
    }
}

/// The effect of writing the characters `s` through `region` from content
/// column `cx` of content row `y`: zero-width characters are skipped and
/// writing stops before a glyph that would cross the clip's right edge.
pub open spec fn set_string_region_spec(b: BufferView, cx: int, y: int, s: Seq<char>, st: StyleView, region: Region) -> BufferView
    decreases s.len(),
{
    if s.len() == 0 {
        b
    } else {
        let w = char_width_spec(s[0]);
        if w == 0 {
            set_string_region_spec(b, cx, y, s.skip(1), st, region)
        } else if cx - region.scroll_x + w > region.clip.spec_right() {
            b
        } else {
            set_string_region_spec(set_char_region_spec(b, cx, y, s[0], st, region).1, cx + w, y, s.skip(1), st, region)
        }
    }
}

/// The style a caret paints over a cell: explicit caret colors replace the
/// cell's, the caret's modifiers are added to the cell's own.
pub open spec fn caret_style(cell: StyleView, caret: StyleView) -> StyleView {
    StyleView {
        fg: if caret.fg == Color::Default { cell.fg } else { caret.fg },
        bg: if caret.bg == Color::Default { cell.bg } else { caret.bg },
        modifiers: cell.modifiers | caret.modifiers,
        ..cell
    }
}

/// The effect of painting a block caret: whether it was painted, and the
/// resulting grid.
pub open spec fn render_caret_spec(b: BufferView, x: int, y: int, visible: bool, caret: StyleView) -> (bool, BufferView) {
    if !visible || !b.in_bounds(x, y) || b.at(x, y).width == 0 {
        (false, b)
    } else {
        let c = b.at(x, y);
        (true, b.put(x, y, CellView { style: caret_style(c.style, caret), ..c }))
    }
}

/// The cell at (`x`, `y`) after resizing `old` to `width` columns: content
/// in the overlap is kept, a wide lead whose neighbor no longer fits is
/// dropped, and everything else is blank.
pub open spec fn resized_cell(old: BufferView, width: nat, height: nat, x: int, y: int) -> CellView {
    if x < old.width && y < old.height {
        let c = old.at(x, y);
        if c.width == 2 && x + 1 >= width { blank_cell() } else { c }
    } else {
        blank_cell()
    }
}

/// Whether the cell at (`x`, `y`) of `next` differs from what `prev` holds
/// there (a blank cell outside `prev`'s extent).
pub open spec fn cell_changed(prev: BufferView, next: BufferView, x: int, y: int) -> bool {
    if x < prev.width && y < prev.height {
        prev.at(x, y) != next.at(x, y)
    } else {
        next.at(x, y) != blank_cell()
    }
}

/// The update reporting cell `c` at (`x`, `y`).
pub open spec fn update_of(c: CellView, x: int, y: int, width: u8, masked: bool) -> CellUpdateView {
    CellUpdateView { x: x as u16, y: y as u16, ch: c.ch, symbol: c.symbol, style: c.style, width, masked }
}

/// The updates for row `y` of `next` from column `x` on.
pub open spec fn diff_row(prev: BufferView, next: BufferView, y: int, x: int) -> Seq<CellUpdateView>
    decreases next.width + 2 - x,
{
    if x >= next.width {
        Seq::empty()
    } else if !cell_changed(prev, next, x, y) {
        diff_row(prev, next, y, x + 1)
    } else {
        let n = next.at(x, y);
        if n.width == 2 {
            let lead = seq![update_of(n, x, y, 2, false)];
            let neighbor = if x + 1 < next.width && cell_changed(prev, next, x + 1, y) {
                let m = next.at(x + 1, y);
                seq![update_of(m, x + 1, y, m.width, m.width == 0)]
            } else {
                Seq::empty()
            };
            lead + neighbor + diff_row(prev, next, y, x + 2)
        } else if n.width == 0 {
            seq![update_of(n, x, y, 0, true)] + diff_row(prev, next, y, x + 1)
        } else {
            seq![update_of(n, x, y, 1, false)] + diff_row(prev, next, y, x + 1)
        }
    }
}

/// The updates for the rows of `next` from row `y` on.
pub open spec fn diff_rows(prev: BufferView, next: BufferView, y: int) -> Seq<CellUpdateView>
    decreases next.height - y,
{
    if y >= next.height {
        Seq::empty()
    } else {
        diff_row(prev, next, y, 0) + diff_rows(prev, next, y + 1)
    }
}

/// The minimal cell updates turning `prev` into `next`, row-major.
pub open spec fn diff_spec(prev: BufferView, next: BufferView) -> Seq<CellUpdateView> {
    diff_rows(prev, next, 0)
}

/// Whether update `u` reports cell `c` (its character, symbol and style).
pub open spec fn reports(u: CellUpdateView, c: CellView) -> bool {
    u.ch == c.ch && u.symbol == c.symbol && u.style == c.style
}

proof fn lemma_diff_row(prev: BufferView, next: BufferView, y: int, x: int)
    requires
        0 <= x,
        0 <= y < next.height,
        next.width <= u16::MAX,
        next.height <= u16::MAX,
    ensures
        forall|i: int| 0 <= i < diff_row(prev, next, y, x).len() ==> {
            let u = #[trigger] diff_row(prev, next, y, x)[i];
            &&& x <= u.x < next.width
            &&& u.y == y
            &&& cell_changed(prev, next, u.x as int, y)
            &&& reports(u, next.at(u.x as int, y))
        },
        forall|i: int, j: int| 0 <= i < j < diff_row(prev, next, y, x).len()
            ==> (#[trigger] diff_row(prev, next, y, x)[i]).x < (#[trigger] diff_row(prev, next, y, x)[j]).x,
        forall|x2: int| x <= x2 < next.width && #[trigger] cell_changed(prev, next, x2, y)
            ==> exists|i: int| 0 <= i < diff_row(prev, next, y, x).len() && (#[trigger] diff_row(prev, next, y, x)[i]).x == x2,
    decreases next.width + 2 - x,
{
    let d = diff_row(prev, next, y, x);
    if x >= next.width {
    } else if !cell_changed(prev, next, x, y) {
        lemma_diff_row(prev, next, y, x + 1);
    } else {
        let n = next.at(x, y);
        if n.width == 2 {
            lemma_diff_row(prev, next, y, x + 2);
            let rest = diff_row(prev, next, y, x + 2);
            let k: int = if x + 1 < next.width && cell_changed(prev, next, x + 1, y) { 2 } else { 1 };
            assert(d.len() == k + rest.len());
            assert forall|i: int| k <= i < d.len() implies #[trigger] d[i] == rest[i - k] by {}
            assert forall|x2: int| x <= x2 < next.width && #[trigger] cell_changed(prev, next, x2, y)
                implies exists|i: int| 0 <= i < d.len() && (#[trigger] d[i]).x == x2 by {
                if x2 == x {
                    assert(d[0].x == x2);
                } else if x2 == x + 1 {
                    assert(d[1].x == x2);
                } else {
                    let i = choose|i: int| 0 <= i < rest.len() && (#[trigger] rest[i]).x == x2;
                    assert(d[i + k] == rest[i]);
                }
            }
        } else {
            lemma_diff_row(prev, next, y, x + 1);
            let rest = diff_row(prev, next, y, x + 1);
            assert(d.len() == 1 + rest.len());
            assert forall|i: int| 1 <= i < d.len() implies #[trigger] d[i] == rest[i - 1] by {}
            assert forall|x2: int| x <= x2 < next.width && #[trigger] cell_changed(prev, next, x2, y)
                implies exists|i: int| 0 <= i < d.len() && (#[trigger] d[i]).x == x2 by {
                if x2 == x {
                    assert(d[0].x == x2);
                } else {
                    let i = choose|i: int| 0 <= i < rest.len() && (#[trigger] rest[i]).x == x2;
                    assert(d[i + 1] == rest[i]);
                }
            }
        }
    }
}

proof fn lemma_diff_rows(prev: BufferView, next: BufferView, y: int)
    requires
        0 <= y,
        next.width <= u16::MAX,
        next.height <= u16::MAX,
    ensures
        forall|i: int| 0 <= i < diff_rows(prev, next, y).len() ==> {
            let u = #[trigger] diff_rows(prev, next, y)[i];
            &&& u.x < next.width
            &&& y <= u.y < next.height
            &&& cell_changed(prev, next, u.x as int, u.y as int)
            &&& reports(u, next.at(u.x as int, u.y as int))
        },
        forall|i: int, j: int| 0 <= i < j < diff_rows(prev, next, y).len() ==> {
            let a = #[trigger] diff_rows(prev, next, y)[i];
            let b = #[trigger] diff_rows(prev, next, y)[j];
            a.y < b.y || (a.y == b.y && a.x < b.x)
        },
        forall|x2: int, y2: int| 0 <= x2 < next.width && y <= y2 < next.height && #[trigger] cell_changed(prev, next, x2, y2)
            ==> exists|i: int| 0 <= i < diff_rows(prev, next, y).len()
                && (#[trigger] diff_rows(prev, next, y)[i]).x == x2 && diff_rows(prev, next, y)[i].y == y2,
    decreases next.height - y,
{
    if y < next.height {
        lemma_diff_row(prev, next, y, 0);
        lemma_diff_rows(prev, next, y + 1);
        let row = diff_row(prev, next, y, 0);
        let rest = diff_rows(prev, next, y + 1);
        let d = diff_rows(prev, next, y);
        assert(d == row + rest);
        assert forall|i: int| 0 <= i < row.len() implies #[trigger] d[i] == row[i] by {}
        assert forall|i: int| row.len() <= i < d.len() implies #[trigger] d[i] == rest[i - row.len()] by {}
        assert forall|x2: int, y2: int| 0 <= x2 < next.width && y <= y2 < next.height && #[trigger] cell_changed(prev, next, x2, y2)
            implies exists|i: int| 0 <= i < d.len() && (#[trigger] d[i]).x == x2 && d[i].y == y2 by {
            if y2 == y {
                let i = choose|i: int| 0 <= i < row.len() && (#[trigger] row[i]).x == x2;
                assert(d[i] == row[i]);
            } else {
                let i = choose|i: int| 0 <= i < rest.len() && (#[trigger] rest[i]).x == x2 && rest[i].y == y2;
                assert(d[i + row.len()] == rest[i]);
            }
        }
    }
}

/// The diff reports exactly the changed cells of `next`, each once, with
/// its character, symbol and style, in strictly increasing row-major order:
/// every update lies in `next`'s grid on a cell that changed (a cell outside
/// `prev` counts as changed when it is not blank), and every changed cell
/// has an update.
pub proof fn diff_reports_exactly_changed_cells(prev: BufferView, next: BufferView)
    requires
        next.width <= u16::MAX,
        next.height <= u16::MAX,
    ensures
        forall|i: int| 0 <= i < diff_spec(prev, next).len() ==> {
            let u = #[trigger] diff_spec(prev, next)[i];
            &&& u.x < next.width
            &&& u.y < next.height
            &&& cell_changed(prev, next, u.x as int, u.y as int)
            &&& reports(u, next.at(u.x as int, u.y as int))
        },
        forall|i: int, j: int| 0 <= i < j < diff_spec(prev, next).len() ==> {
            let a = #[trigger] diff_spec(prev, next)[i];
            let b = #[trigger] diff_spec(prev, next)[j];
            a.y < b.y || (a.y == b.y && a.x < b.x)
        },
        forall|x: int, y: int| 0 <= x < next.width && 0 <= y < next.height && #[trigger] cell_changed(prev, next, x, y)
            ==> exists|i: int| 0 <= i < diff_spec(prev, next).len()
                && (#[trigger] diff_spec(prev, next)[i]).x == x && diff_spec(prev, next)[i].y == y,
{
    lemma_diff_rows(prev, next, 0);
}

/// A fixed-size 2D grid of cells, indexed by (`x`, `y`) with the origin at
/// the top-left. Cells are stored row-major: `index = y * width + x`.
///
/// Invariant: a wide (width 2) cell at column `x` is always followed by its
/// masked continuation cell (width 0) at column `x + 1` (see
/// [`wide_pairs_intact`]): [`new`](Self::new) establishes it and the
/// character writers keep it. Writing raw cells with
/// [`set_cell`](Self::set_cell) or [`cell_mut`](Self::cell_mut) is the
/// caller's responsibility.
#[derive(Debug, Clone, PartialEq, Eq)]
pub struct Buffer {
    /// Width in cells.
    pub width: u16,
    /// Height in cells.
    pub height: u16,
    cells: Vec<Cell>,
}

impl View for Buffer {
    type V = BufferView;

    closed spec fn view(&self) -> BufferView {
        BufferView { width: self.width as nat, height: self.height as nat, cells: self.cells_view() }
    }
}

impl Buffer {
    /// The views of the cells, row-major.
    pub closed spec fn cells_view(&self) -> Seq<CellView> {
        self.cells@.map_values(|c: Cell| c@)
    }

    /// The buffer holds exactly `width * height` cells.
    pub open spec fn wf(&self) -> bool {
        self@.wf()
    }

    /// A buffer of `width` x `height` blank cells.
    pub fn new(width: u16, height: u16) -> (b: Self)
        ensures
            b.wf(),
            wide_pairs_intact(b@),
            b@ == (BufferView {
                width: width as nat,
                height: height as nat,
                cells: Seq::new((width * height) as nat, |i: int| blank_cell()),
            }),
    {
        assert(width * height <= u16::MAX * u16::MAX) by (nonlinear_arith)
            requires
                width <= u16::MAX,
                height <= u16::MAX,
        ;
        let n: usize = width as usize * height as usize;
        let mut cells: Vec<Cell> = Vec::new();
        let mut i: usize = 0;
        while i < n
            invariant
                i <= n,
                n == width * height,
                cells@.len() == i,
                forall|k: int| 0 <= k < i ==> (#[trigger] cells@[k])@ == blank_cell(),
            decreases n - i,
        {
            cells.push(Cell::default());
            i += 1;
        }
        let b = Buffer { width, height, cells };
        assert(b.cells_view() =~= Seq::new((width * height) as nat, |i: int| blank_cell()));
        proof {
            reveal(wide_pairs_intact);
            assert forall|x: int, y: int|
                #![trigger b@.at(x, y)]
                0 <= x < b@.width && 0 <= y < b@.height implies b@.at(x, y).width != 2 by {
                lemma_index_in_range(b@.width, b@.height, x, y);
            }
        }
        b
    }

    /// Reset every cell to the blank default.
    pub fn clear(&mut self)
        requires
            old(self).wf(),
        ensures
            final(self).wf(),
            final(self)@ == (BufferView {
                cells: Seq::new(old(self)@.cells.len(), |i: int| blank_cell()),
                ..old(self)@
            }),
    {
        let n = self.cells.len();
        let mut i: usize = 0;
        while i < n
            invariant
                i <= n,
                n == self.cells@.len(),
                self.width == old(self).width,
                self.height == old(self).height,
                forall|k: int| 0 <= k < i ==> (#[trigger] self.cells@[k])@ == blank_cell(),
            decreases n - i,
        {
            self.cells.set(i, Cell::default());
            i += 1;
        }
        assert(self.cells_view() =~= Seq::new(old(self)@.cells.len(), |i: int| blank_cell()));
    }

    /// Row-major index of (`x`, `y`), or `None` when out of bounds.
    pub fn index(&self, x: u16, y: u16) -> (r: Option<usize>)
        ensures
            r == (if self@.in_bounds(x as int, y as int) {
                Some(self@.index_of(x as int, y as int) as usize)
            } else {
                None
            }),
            r matches Some(i) ==> i < self@.width * self@.height && i as int == self@.index_of(x as int, y as int),
            self@.width * self@.height <= 0xfffe_0001,
    {
        assert(self.width * self.height <= 0xfffe_0001) by (nonlinear_arith)
            requires
                self.width <= u16::MAX,
                self.height <= u16::MAX,
        ;
        if x < self.width && y < self.height {
            proof { lemma_index_in_range(self.width as nat, self.height as nat, x as int, y as int); }
            assert(self.width * self.height <= u16::MAX * u16::MAX) by (nonlinear_arith)
                requires
                    self.width <= u16::MAX,
                    self.height <= u16::MAX,
            ;
            Some(y as usize * self.width as usize + x as usize)
        } else {
            None
        }
    }

    /// Immutable access to the cell at (`x`, `y`).
    pub fn cell(&self, x: u16, y: u16) -> (r: Option<&Cell>)
        requires
            self.wf(),
        ensures
            (r is Some) == self@.in_bounds(x as int, y as int),
            r matches Some(c) ==> c@ == self@.at(x as int, y as int),
    {
        match self.index(x, y) {
            Some(i) => {
                assert(self.cells_view()[i as int] == self.cells@[i as int]@);
                Some(&self.cells[i])
            },
            None => None,
        }
    }

    /// Mutable access to the cell at (`x`, `y`): whatever the caller writes
    /// through it becomes the cell at that position.
    pub fn cell_mut(&mut self, x: u16, y: u16) -> (r: Option<&mut Cell>)
        requires
            old(self).wf(),
        ensures
            (r is Some) == old(self)@.in_bounds(x as int, y as int),
            r is Some ==> r.unwrap()@ == old(self)@.at(x as int, y as int),
            r is Some ==> final(self)@ == old(self)@.put(x as int, y as int, final(r.unwrap())@),
            r is None ==> final(self)@ == old(self)@,
            final(self).wf(),
    {
        match self.index(x, y) {
            Some(i) => {
                assert(self.cells_view()[i as int] == self.cells@[i as int]@);
                proof {
                    lemma_cells_update(self.cells@, i as int);
                }
                Some(&mut self.cells[i])
            },
            None => None,
        }
    }

    /// Overwrite the cell at (`x`, `y`) directly. Returns `false` (writing
    /// nothing) when the position is out of bounds.
    pub fn set_cell(&mut self, x: u16, y: u16, cell: Cell) -> (r: bool)
        requires
            old(self).wf(),
        ensures
            final(self).wf(),
            r == old(self)@.in_bounds(x as int, y as int),
            final(self)@ == (if r { old(self)@.put(x as int, y as int, cell@) } else { old(self)@ }),
    {
        match self.index(x, y) {
            Some(i) => {
                self.cells.set(i, cell);
                assert(self.cells_view() =~= old(self)@.put(x as int, y as int, cell@).cells);
                true
            },
            None => false,
        }
    }

    /// Break up the wide glyph, if any, that the cell at (`x`, `y`) is half
    /// of: its other half is reset to a blank cell (see [`unpair_spec`]).
    fn unpair(&mut self, x: u16, y: u16)
        requires
            old(self).wf(),
            old(self)@.in_bounds(x as int, y as int),
        ensures
            final(self).wf(),
            final(self)@ == unpair_spec(old(self)@, x as int, y as int),
    {
        let i = match self.index(x, y) {
            Some(i) => i,
            None => { return; },
        };
        proof {
            lemma_index_in_range(self.width as nat, self.height as nat, x as int, y as int);
        }
        let right_in = x as u32 + 1 < self.width as u32;
        if right_in {
            proof {
                lemma_index_in_range(self.width as nat, self.height as nat, x + 1, y as int);
            }
        }
        if self.cells[i].width == 0 && x >= 1 && self.cells[i - 1].width == 2 {
            self.cells.set(i - 1, Cell::default());
            assert(self.cells_view() =~= old(self)@.put(x - 1, y as int, blank_cell()).cells);
        } else if self.cells[i].width == 2 && right_in && self.cells[i + 1].width == 0 {
            self.cells.set(i + 1, Cell::default());
            assert(self.cells_view() =~= old(self)@.put(x + 1, y as int, blank_cell()).cells);
        }
    }

    /// Write a single character at (`x`, `y`), taking its display width into
    /// account. A wide character also writes its masked continuation cell at
    /// `x + 1`; a wide glyph the write lands on is broken up, its other half
    /// reset to a blank cell, so a wide cell is always followed by its masked
    /// continuation. Returns `false` (writing nothing) when the character does
    /// not fit.
    pub fn set_char(&mut self, x: u16, y: u16, ch: char, style: Style) -> (r: bool)
        requires
            old(self).wf(),
        ensures
            final(self).wf(),
            (r, final(self)@) == set_char_spec(old(self)@, x as int, y as int, ch, style@),
            wide_pairs_intact(old(self)@) ==> wide_pairs_intact(final(self)@),
    {
        proof {
            if wide_pairs_intact(self@) {
                set_char_keeps_wide_pairs(self@, x as int, y as int, ch, style@);
            }
        }
        let w = char_width(ch);
        if w == 2 {
            if x as u32 + 1 >= self.width as u32 || y >= self.height {
                return false;
            }
            proof {
                lemma_index_in_range(self.width as nat, self.height as nat, x + 1, y as int);
            }
            self.unpair(x, y);
            self.unpair(x + 1, y);
            let ghost split = self@;
            let i = match self.index(x, y) {
                Some(i) => i,
                None => { return false; },
            };
            let ghost st = style@;
            self.cells.set(i, Cell { ch, symbol: None, style: style.clone(), width: 2 });
            self.cells.set(i + 1, Cell::mask(style));
            assert(self.cells_view() =~= split.put(x as int, y as int, wide_lead(ch, st)).put(x + 1, y as int, mask_cell(st)).cells);
            return true;
        }
        if x >= self.width || y >= self.height {
            return false;
        }
        self.unpair(x, y);
        let ghost split = self@;
        let i = match self.index(x, y) {
            Some(i) => i,
            None => { return false; },
        };
        self.cells.set(i, Cell { ch, symbol: None, style, width: w });
        assert(self.cells_view() =~= split.put(x as int, y as int, CellView { ch, symbol: None, style: style@, width: w }).cells);
        true
    }

    /// Write a string starting at (`x`, `y`), advancing the cursor by each
    /// character's display width. Writing stops at the right edge so no wide
    /// character is ever truncated mid-glyph. Combining marks (width 0) are
    /// skipped.
    pub fn set_string(&mut self, x: u16, y: u16, text: &str, style: Style)
        requires
            old(self).wf(),
        ensures
            final(self).wf(),
            final(self)@ == set_string_spec(old(self)@, x as int, y as int, text@, style@),
            wide_pairs_intact(old(self)@) ==> wide_pairs_intact(final(self)@),
    {
        let cs = chars_of(text);
        let mut cx: u32 = x as u32;
        let mut i: usize = 0;
        assert(cs@.skip(0) =~= cs@);
        while i < cs.len()
            invariant
                self.wf(),
                i <= cs@.len(),
                cs@ == text@,
                cx <= u16::MAX + 2,
                set_string_spec(old(self)@, x as int, y as int, text@, style@)
                    == set_string_spec(self@, cx as int, y as int, cs@.skip(i as int), style@),
                wide_pairs_intact(old(self)@) ==> wide_pairs_intact(self@),
            ensures
                set_string_spec(old(self)@, x as int, y as int, text@, style@) == self@,
                self.wf(),
                wide_pairs_intact(old(self)@) ==> wide_pairs_intact(self@),
            decreases cs@.len() - i,
        {
            let ghost rest = cs@.skip(i as int);
            let ghost before = self@;
            let ch = cs[i];
            assert(rest[0] == ch);
            assert(rest.skip(1) =~= cs@.skip(i + 1));
            if cx >= self.width as u32 {
                break;
            }
            let w = char_width(ch);
            if w == 0 {
                i += 1;
                continue;
            }
            if cx + w as u32 > self.width as u32 {
                break;
            }
            self.set_char(cx as u16, y, ch, style.clone());
            assert(set_string_spec(before, cx as int, y as int, rest, style@)
                == set_string_spec(self@, cx + w, y as int, rest.skip(1), style@));
            cx += w as u32;
            i += 1;
        }
    }

    /// Write one character at content position (`x`, `y`) through `region`
    /// (coordinates as mathematical integers).
    fn put_char_region(&mut self, x: i64, y: i64, ch: char, style: Style, region: Region) -> (r: bool)
        requires
            old(self).wf(),
            region.clip.edges_fit(),
            -0x100_0000_0000 <= x <= 0x100_0000_0000,
            -0x100_0000_0000 <= y <= 0x100_0000_0000,
        ensures
            final(self).wf(),
            (r, final(self)@) == set_char_region_spec(old(self)@, x as int, y as int, ch, style@, region),
    {
        let w = char_width(ch);
        let bx: i64 = x - region.scroll_x as i64;
        let by: i64 = y - region.scroll_y as i64;
        if w == 2 {
            if bx < 0 || by < 0 || bx + 1 >= self.width as i64 || by >= self.height as i64 {
                return false;
            }
            if !region.clip.contains(bx as i32, by as i32) || !region.clip.contains(bx as i32 + 1, by as i32) {
                return false;
            }
            proof {
                lemma_index_in_range(self.width as nat, self.height as nat, bx + 1, by as int);
            }
            self.unpair(bx as u16, by as u16);
            self.unpair(bx as u16 + 1, by as u16);
            let ghost split = self@;
            let i = match self.index(bx as u16, by as u16) {
                Some(i) => i,
                None => { return false; },
            };
            let ghost st = style@;
            self.cells.set(i, Cell { ch, symbol: None, style: style.clone(), width: 2 });
            self.cells.set(i + 1, Cell::mask(style));
            assert(self.cells_view() =~= split.put(bx as int, by as int, wide_lead(ch, st)).put(bx + 1, by as int, mask_cell(st)).cells);
            return true;
        }
        if w == 0 {
            return false;
        }
        if bx < 0 || by < 0 || bx >= self.width as i64 || by >= self.height as i64 {
            return false;
        }
        if !region.clip.contains(bx as i32, by as i32) {
            return false;
        }
        self.unpair(bx as u16, by as u16);
        let ghost split = self@;
        let i = match self.index(bx as u16, by as u16) {
            Some(i) => i,
            None => { return false; },
        };
        self.cells.set(i, Cell { ch, symbol: None, style, width: w });
        assert(self.cells_view() =~= split.put(bx as int, by as int, CellView { ch, symbol: None, style: style@, width: w }).cells);
        true
    }

    /// Write a single character at content position (`x`, `y`) through
    /// `region`: the position is shifted by the region's scroll offset and
    /// must land inside its clip rect (and the buffer). A wide character is
    /// written only when both of its columns land inside the clip. Returns
    /// `false` when nothing was written.
    pub fn set_char_region(&mut self, x: i32, y: i32, ch: char, style: Style, region: Region) -> (r: bool)
        requires
            old(self).wf(),
            region.clip.edges_fit(),
        ensures
            final(self).wf(),
            (r, final(self)@) == set_char_region_spec(old(self)@, x as int, y as int, ch, style@, region),
            wide_pairs_intact(old(self)@) ==> wide_pairs_intact(final(self)@),
    {
        proof {
            if wide_pairs_intact(self@) {
                set_char_region_keeps_wide_pairs(self@, x as int, y as int, ch, style@, region);
            }
        }
        self.put_char_region(x as i64, y as i64, ch, style, region)
    }

    /// Write a string through `region` starting at content position (`x`,
    /// `y`), advancing by each character's display width. Writing stops at
    /// the clip rect's right edge so no wide character is ever truncated
    /// mid-glyph; combining marks (width 0) are skipped.
    pub fn set_string_region(&mut self, x: i32, y: i32, text: &str, style: Style, region: Region)
        requires
            old(self).wf(),
            region.clip.edges_fit(),
        ensures
            final(self).wf(),
            final(self)@ == set_string_region_spec(old(self)@, x as int, y as int, text@, style@, region),
            wide_pairs_intact(old(self)@) ==> wide_pairs_intact(final(self)@),
    {
        let cs = chars_of(text);
        let mut cx: i64 = x as i64;
        let right: i64 = region.clip.right() as i64;
        let mut i: usize = 0;
        assert(cs@.skip(0) =~= cs@);
        while i < cs.len()
            invariant
                self.wf(),
                region.clip.edges_fit(),
                right == region.clip.spec_right(),
                i <= cs@.len(),
                cs@ == text@,
                x <= cx,
                cx <= x || cx <= right + region.scroll_x,
                set_string_region_spec(old(self)@, x as int, y as int, text@, style@, region)
                    == set_string_region_spec(self@, cx as int, y as int, cs@.skip(i as int), style@, region),
                wide_pairs_intact(old(self)@) ==> wide_pairs_intact(self@),
            ensures
                set_string_region_spec(old(self)@, x as int, y as int, text@, style@, region) == self@,
                wide_pairs_intact(old(self)@) ==> wide_pairs_intact(self@),
                self.wf(),
            decreases cs@.len() - i,
        {
            let ghost rest = cs@.skip(i as int);
            let ghost before = self@;
            let ch = cs[i];
            assert(rest[0] == ch);
            assert(rest.skip(1) =~= cs@.skip(i + 1));
            let w = char_width(ch);
            if w == 0 {
                i += 1;
                continue;
            }
            let bx: i64 = cx - region.scroll_x as i64;
            if bx + w as i64 > right {
                break;
            }
            proof {
                if wide_pairs_intact(self@) {
                    set_char_region_keeps_wide_pairs(self@, cx as int, y as int, ch, style@, region);
                }
            }
            self.put_char_region(cx, y as i64, ch, style.clone(), region);
            assert(set_string_region_spec(before, cx as int, y as int, rest, style@, region)
                == set_string_region_spec(self@, cx + w, y as int, rest.skip(1), style@, region));
            cx += w as i64;
            i += 1;
        }
    }

    /// Paint a block caret into the buffer at the cursor's position.
    ///
    /// A no-op when the cursor is hidden, sits outside the buffer, or sits on
    /// a masked continuation cell (returns `false`). Otherwise the cell under
    /// the cursor has the caret's style merged over it: explicit caret colors
    /// replace the cell's, and the caret's modifiers are added to the cell's
    /// own.
    pub fn render_caret(&mut self, cursor: Cursor) -> (r: bool)
        requires
            old(self).wf(),
        ensures
            final(self).wf(),
            (r, final(self)@) == render_caret_spec(old(self)@, cursor.x as int, cursor.y as int, cursor.visible, cursor.style@),
    {
        if !cursor.visible {
            return false;
        }
        let i = match self.index(cursor.x, cursor.y) {
            Some(i) => i,
            None => { return false; },
        };
        if self.cells[i].is_masked() {
            return false;
        }
        let cell = self.cells[i].clone();
        let fg = if cursor.style.fg == Color::Default { cell.style.fg } else { cursor.style.fg };
        let bg = if cursor.style.bg == Color::Default { cell.style.bg } else { cursor.style.bg };
        let style = cell.style.clone().fg(fg).bg(bg).add_modifier(cursor.style.modifiers);
        let new_cell = Cell { ch: cell.ch, symbol: cell.symbol, style, width: cell.width };
        self.cells.set(i, new_cell);
        assert(self.cells_view() =~= render_caret_spec(old(self)@, cursor.x as int, cursor.y as int, cursor.visible, cursor.style@).1.cells);
        true
    }

    /// Resize the buffer to `width` x `height` cells. Content in the
    /// overlapping region is preserved; new cells are blank. A wide character
    /// straddling the new right edge is dropped (reset to blank). Resizing to
    /// the current size changes nothing.
    pub fn resize(&mut self, width: u16, height: u16)
        requires
            old(self).wf(),
        ensures
            final(self).wf(),
            final(self)@.width == width,
            final(self)@.height == height,
            width == old(self)@.width && height == old(self)@.height ==> final(self)@ == old(self)@,
            !(width == old(self)@.width && height == old(self)@.height) ==> forall|x: int, y: int|
                final(self)@.in_bounds(x, y) ==> final(self)@.at(x, y) == resized_cell(old(self)@, width as nat, height as nat, x, y),
    {
        if width == self.width && height == self.height {
            return;
        }
        let ghost old_view = self@;
        let mut cells: Vec<Cell> = Vec::new();
        let mut y: u16 = 0;
        while y < height
            invariant
                self@ == old_view,
                self.wf(),
                y <= height,
                cells@.len() == y * width,
                forall|yy: int, xx: int| 0 <= yy < y && 0 <= xx < width ==>
                    (#[trigger] cells@[yy * width + xx])@ == resized_cell(old_view, width as nat, height as nat, xx, yy),
            decreases height - y,
        {
            let mut x: u16 = 0;
            while x < width
                invariant
                    self@ == old_view,
                    self.wf(),
                    y < height,
                    x <= width,
                    cells@.len() == y * width + x,
                    forall|yy: int, xx: int| 0 <= yy < y && 0 <= xx < width ==>
                        (#[trigger] cells@[yy * width + xx])@ == resized_cell(old_view, width as nat, height as nat, xx, yy),
                    forall|xx: int| 0 <= xx < x ==>
                        (#[trigger] cells@[y * width + xx])@ == resized_cell(old_view, width as nat, height as nat, xx, y as int),
                decreases width - x,
            {
                let c = match self.cell(x, y) {
                    Some(old_cell) => {
                        if old_cell.width == 2 && x as u32 + 1 >= width as u32 {
                            Cell::default()
                        } else {
                            old_cell.clone()
                        }
                    },
                    None => Cell::default(),
                };
                let ghost k = y * width + x;
                cells.push(c);
                proof {
                    assert forall|yy: int, xx: int| 0 <= yy < y && 0 <= xx < width implies
                        (#[trigger] cells@[yy * width + xx])@ == resized_cell(old_view, width as nat, height as nat, xx, yy) by {
                        lemma_index_in_range(width as nat, y as nat, xx, yy);
                    }
                    assert forall|xx: int| 0 <= xx < x + 1 implies
                        (#[trigger] cells@[y * width + xx])@ == resized_cell(old_view, width as nat, height as nat, xx, y as int) by {
                    }
                }
                x += 1;
            }
            proof {
                assert(cells@.len() == (y + 1) * width) by (nonlinear_arith)
                    requires
                        cells@.len() == y * width + width,
                ;
                assert forall|yy: int, xx: int| 0 <= yy < y + 1 && 0 <= xx < width implies
                    (#[trigger] cells@[yy * width + xx])@ == resized_cell(old_view, width as nat, height as nat, xx, yy) by {
                    if yy < y {
                    } else {
                        assert(yy == y);
                    }
                }
            }
            y += 1;
        }
        self.width = width;
        self.height = height;
        self.cells = cells;
        proof {
            assert(height * width == width * height) by (nonlinear_arith);
            assert(self.cells_view().len() == width * height);
            assert forall|x: int, y: int| self@.in_bounds(x, y) implies self@.at(x, y)
                == resized_cell(old_view, width as nat, height as nat, x, y) by {
                lemma_index_in_range(width as nat, height as nat, x, y);
            }
        }
    }

    /// The minimal cell updates needed to turn `prev` into `self`.
    pub fn diff_from(&self, prev: &Buffer) -> (u: Vec<CellUpdate>)
        requires
            self.wf(),
            prev.wf(),
        ensures
            u@.len() == diff_spec(prev@, self@).len(),
            forall|i: int| 0 <= i < u@.len() ==> (#[trigger] u@[i])@ == diff_spec(prev@, self@)[i],
    {
        diff(prev, self)
    }
}

/// Whether the cell at (`x`, `y`) of `next` differs from `prev`'s (or from a
/// blank cell outside `prev`'s extent).
fn changed_at(prev: &Buffer, next: &Buffer, x: u16, y: u16) -> (b: bool)
    requires
        prev.wf(),
        next.wf(),
        next@.in_bounds(x as int, y as int),
    ensures
        b == cell_changed(prev@, next@, x as int, y as int),
{
    let n = match next.cell(x, y) {
        Some(n) => n,
        None => { return false; },
    };
    match prev.cell(x, y) {
        Some(p) => p != n,
        None => {
            let blank = Cell::default();
            *n != blank
        },
    }
}

/// The update reporting cell `c` at (`x`, `y`).
fn update_from(c: &Cell, x: u16, y: u16, width: u8, masked: bool) -> (u: CellUpdate)
    ensures
        u@ == update_of(c@, x as int, y as int, width, masked),
{
    CellUpdate {
        x,
        y,
        ch: c.ch,
        symbol: crate::style::clone_opt_string(&c.symbol),
        style: c.style.clone(),
        width,
        masked,
    }
}

/// Compute the minimal set of cell updates needed to turn `prev` into `next`.
///
/// Multi-width aware: a changed wide (2-column) lead cell is emitted together
/// with its masked continuation cell (when that neighbor also changed).
/// Cells outside `prev`'s extent are compared against a blank cell, so
/// default cells in newly-grown regions are not emitted. Updates are
/// produced row-major (top-to-bottom, left-to-right).
pub fn diff(prev: &Buffer, next: &Buffer) -> (u: Vec<CellUpdate>)
    requires
        prev.wf(),
        next.wf(),
    ensures
        u@.len() == diff_spec(prev@, next@).len(),
        forall|i: int| 0 <= i < u@.len() ==> (#[trigger] u@[i])@ == diff_spec(prev@, next@)[i],
{
    let ghost pv = prev@;
    let ghost nv = next@;
    let mut updates: Vec<CellUpdate> = Vec::new();
    let mut y: u16 = 0;
    while y < next.height
        invariant
            prev.wf(),
            next.wf(),
            pv == prev@,
            nv == next@,
            y <= next.height,
            updates@.map_values(|c: CellUpdate| c@) + diff_rows(pv, nv, y as int) == diff_spec(pv, nv),
        decreases next.height - y,
    {
        let mut x: u32 = 0;
        assert(diff_rows(pv, nv, y as int) == diff_row(pv, nv, y as int, 0) + diff_rows(pv, nv, y + 1));
        while x < next.width as u32
            invariant
                prev.wf(),
                next.wf(),
                pv == prev@,
                nv == next@,
                y < next.height,
                x <= next.width + 1,
                updates@.map_values(|c: CellUpdate| c@) + diff_row(pv, nv, y as int, x as int) + diff_rows(pv, nv, y + 1)
                    == diff_spec(pv, nv),
            decreases next.width + 1 - x,
        {
            let ghost before = updates@.map_values(|c: CellUpdate| c@);
            let xs = x as u16;
            if !changed_at(prev, next, xs, y) {
                x += 1;
                continue;
            }
            let n = match next.cell(xs, y) {
                Some(n) => n,
                None => { x += 1; continue; },
            };
            if n.width == 2 {
                updates.push(update_from(n, xs, y, 2, false));
                let nx: u32 = x + 1;
                if nx < next.width as u32 {
                    if changed_at(prev, next, nx as u16, y) {
                        match next.cell(nx as u16, y) {
                            Some(ncell) => {
                                updates.push(update_from(ncell, nx as u16, y, ncell.width, ncell.width == 0));
                            },
                            None => {},
                        }
                    }
                }
                assert(updates@.map_values(|c: CellUpdate| c@) + diff_row(pv, nv, y as int, x + 2) + diff_rows(pv, nv, y + 1)
                    =~= before + diff_row(pv, nv, y as int, x as int) + diff_rows(pv, nv, y + 1));
                x += 2;
            } else if n.width == 0 {
                updates.push(update_from(n, xs, y, 0, true));
                assert(updates@.map_values(|c: CellUpdate| c@) + diff_row(pv, nv, y as int, x + 1) + diff_rows(pv, nv, y + 1)
                    =~= before + diff_row(pv, nv, y as int, x as int) + diff_rows(pv, nv, y + 1));
                x += 1;
            } else {
                updates.push(update_from(n, xs, y, 1, false));
                assert(updates@.map_values(|c: CellUpdate| c@) + diff_row(pv, nv, y as int, x + 1) + diff_rows(pv, nv, y + 1)
                    =~= before + diff_row(pv, nv, y as int, x as int) + diff_rows(pv, nv, y + 1));
                x += 1;
            }
        }
        assert(diff_row(pv, nv, y as int, x as int) == Seq::<CellUpdateView>::empty());
        assert(updates@.map_values(|c: CellUpdate| c@) + diff_rows(pv, nv, y + 1)
            =~= updates@.map_values(|c: CellUpdate| c@) + diff_row(pv, nv, y as int, x as int) + diff_rows(pv, nv, y + 1));
        y += 1;
    }
    assert(diff_rows(pv, nv, y as int) == Seq::<CellUpdateView>::empty());
    assert(updates@.map_values(|c: CellUpdate| c@) =~= updates@.map_values(|c: CellUpdate| c@) + diff_rows(pv, nv, y as int));
    updates
}

} // verus!
