//! Geometry: rectangles (layout results) and sizes (viewports).

use vstd::prelude::*;

verus! {

/// A rectangular region in cell coordinates.
///
/// `x`/`y` are signed so a rect may sit partially off-screen; `width`/`height`
/// are unsigned and must stay non-negative.
#[derive(Debug, Clone, Copy, PartialEq, Eq, Structural, Hash, Default)]
pub struct Rect {
    /// Leftmost column (inclusive).
    pub x: i32,
    /// Topmost row (inclusive).
    pub y: i32,
    /// Width in cells.
    pub width: u32,
    /// Height in cells.
    pub height: u32,
}

impl Rect {
    /// The column just past the right edge, as a mathematical integer.
    pub open spec fn spec_right(self) -> int {
        self.x + (self.width as i32)
    }

    /// The row just past the bottom edge, as a mathematical integer.
    pub open spec fn spec_bottom(self) -> int {
        self.y + (self.height as i32)
    }

    /// Whether both far edges fit in an `i32` (the edge computations do not
    /// overflow).
    pub open spec fn edges_fit(self) -> bool {
        &&& i32::MIN <= self.spec_right() <= i32::MAX
        &&& i32::MIN <= self.spec_bottom() <= i32::MAX
    }

    /// Whether the cell (`x`, `y`) lies inside the rect.
    pub open spec fn spec_contains(self, x: int, y: int) -> bool {
        &&& self.x <= x < self.spec_right()
        &&& self.y <= y < self.spec_bottom()
    }

    /// A rect at (`x`, `y`) with the given size.
    pub fn new(x: i32, y: i32, width: u32, height: u32) -> (r: Self)
        ensures
            r == (Rect { x, y, width, height }),
    {
        Self { x, y, width, height }
    }

    /// The empty rect at the origin.
    pub fn zero() -> (r: Self)
        ensures
            r == (Rect { x: 0, y: 0, width: 0, height: 0 }),
    {
        Self::new(0, 0, 0, 0)
    }

    /// Number of cells covered by this rect.
    pub fn area(&self) -> (a: u64)
        ensures
            a == self.width * self.height,
    {
        proof {
            vstd::arithmetic::mul::lemma_mul_upper_bound(
                self.width as int, u32::MAX as int, self.height as int, u32::MAX as int);
        }
        assert(u32::MAX * u32::MAX <= u64::MAX) by (nonlinear_arith);
        self.width as u64 * self.height as u64
    }

    /// Column just past the right edge (exclusive).
    pub fn right(&self) -> (r: i32)
        requires
            i32::MIN <= self.spec_right() <= i32::MAX,
        ensures
            r == self.spec_right(),
    {
        self.x + self.width as i32
    }

    /// Row just past the bottom edge (exclusive).
    pub fn bottom(&self) -> (b: i32)
        requires
            i32::MIN <= self.spec_bottom() <= i32::MAX,
        ensures
            b == self.spec_bottom(),
    {
        self.y + self.height as i32
    }

    /// Whether the cell (`x`, `y`) lies inside the rect.
    pub fn contains(&self, x: i32, y: i32) -> (b: bool)
        requires
            self.edges_fit(),
        ensures
            b == self.spec_contains(x as int, y as int),
    {
        x >= self.x && x < self.right() && y >= self.y && y < self.bottom()
    }

    /// The overlap of two rects, or `None` when they are disjoint.
    pub fn intersection(&self, other: &Rect) -> (r: Option<Rect>)
        requires
            self.edges_fit(),
            other.edges_fit(),
        ensures
            ({
                let x0 = if self.x >= other.x { self.x as int } else { other.x as int };
                let y0 = if self.y >= other.y { self.y as int } else { other.y as int };
                let x1 = if self.spec_right() <= other.spec_right() { self.spec_right() } else { other.spec_right() };
                let y1 = if self.spec_bottom() <= other.spec_bottom() { self.spec_bottom() } else { other.spec_bottom() };
                if x1 <= x0 || y1 <= y0 {
                    r is None
                } else {
                    r == Some(Rect { x: x0 as i32, y: y0 as i32, width: (x1 - x0) as u32, height: (y1 - y0) as u32 })
                }
            }),
    {
        let x0 = if self.x >= other.x { self.x } else { other.x };
        let y0 = if self.y >= other.y { self.y } else { other.y };
        let sr = self.right();
        let or = other.right();
        let sb = self.bottom();
        let ob = other.bottom();
        let x1 = if sr <= or { sr } else { or };
        let y1 = if sb <= ob { sb } else { ob };
        if x1 <= x0 || y1 <= y0 {
            return None;
        }
        let w: i64 = x1 as i64 - x0 as i64;
        let h: i64 = y1 as i64 - y0 as i64;
        Some(Rect::new(x0, y0, w as u32, h as u32))
    }

    /// A copy translated by (`dx`, `dy`).
    pub fn offset(&self, dx: i32, dy: i32) -> (r: Rect)
        requires
            i32::MIN <= self.x + dx <= i32::MAX,
            i32::MIN <= self.y + dy <= i32::MAX,
        ensures
            r == (Rect { x: (self.x + dx) as i32, y: (self.y + dy) as i32, width: self.width, height: self.height }),
    {
        Rect::new(self.x + dx, self.y + dy, self.width, self.height)
    }
}

/// A 2D size in cells, e.g. the terminal viewport passed to the layout
/// engine. Dimensions are `u16` to match the terminal size protocol.
#[derive(Debug, Clone, Copy, PartialEq, Eq, Structural, Hash, Default)]
pub struct Size {
    /// Width in cells.
    pub width: u16,
    /// Height in cells.
    pub height: u16,
}

impl Size {
    /// A size with the given dimensions.
    pub fn new(width: u16, height: u16) -> (s: Self)
        ensures
            s == (Size { width, height }),
    {
        Self { width, height }
    }
}

} // verus!
