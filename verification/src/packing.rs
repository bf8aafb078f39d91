//! Packing: a grid of equal cells inside a texture whose sides are powers of
//! two.
//!
//! Glyph bitmaps of one face share their size, so the atlas is a grid. Slot
//! `k` is the cell in column `k % columns` of row `k / columns`; the grid is
//! as close to square as the count allows, and the texture is the smallest
//! with power-of-two sides that holds it.

use vstd::prelude::*;

verus! {

/// Largest side of a cell, in pixels.
pub const MAX_CELL_SIDE: u32 = 64;

/// Largest number of cells in an atlas.
pub const MAX_CELLS: u32 = 65536;

/// Largest side of an atlas texture, in pixels.
pub const MAX_ATLAS_SIDE: u32 = 16384;

/// `n` is a power of two.
pub open spec fn is_pow2(n: int) -> bool
    decreases n,
{
    if n <= 1 {
        n == 1
    } else {
        n % 2 == 0 && is_pow2(n / 2)
    }
}

/// `r` is the least power of two that is not below `n`.
pub open spec fn is_pow2_ceil(r: int, n: int) -> bool {
    &&& is_pow2(r)
    &&& r >= n
    &&& r == 1 || r / 2 < n
}

/// Of two powers of two, the larger is at least twice the smaller.
pub proof fn lemma_pow2_gap(p: int, q: int)
    requires
        is_pow2(p),
        is_pow2(q),
        p < q,
    ensures
        2 * p <= q,
    decreases q,
{
    if p > 1 {
        lemma_pow2_gap(p / 2, q / 2);
    }
}

/// What `is_pow2_ceil` picks is below every other power of two that is not
/// below `n`.
pub proof fn lemma_pow2_ceil_is_least(r: int, n: int, p: int)
    requires
        is_pow2_ceil(r, n),
        is_pow2(p),
        p >= n,
    ensures
        r <= p,
{
    if p < r {
        lemma_pow2_gap(p, r);
    }
}

/// Finds the least power of two that is not below `n`.
pub fn next_pow2(n: u32) -> (r: u32)
    requires
        n <= 0x8000_0000,
    ensures
        is_pow2_ceil(r as int, n as int),
{
    let mut r: u32 = 1;
    while r < n
        invariant
            n <= 0x8000_0000,
            r >= 1,
            is_pow2(r as int),
            r == 1 || r / 2 < n,
        decreases 0x1_0000_0000 - r,
    {
        r = r * 2;
    }
    r
}

/// A rectangle of pixels in the atlas texture.
#[derive(Clone, Copy, Debug, PartialEq, Eq, Structural)]
pub struct PixelRect {
    pub x: u32,
    pub y: u32,
    pub width: u32,
    pub height: u32,
}

impl PixelRect {
    /// The two rectangles have no pixel in common.
    pub open spec fn disjoint(self, other: PixelRect) -> bool {
        ||| self.x + self.width <= other.x
        ||| other.x + other.width <= self.x
        ||| self.y + self.height <= other.y
        ||| other.y + other.height <= self.y
    }
}

/// A grid of equal cells and the texture that holds it.
#[derive(Clone, Copy, Debug, PartialEq, Eq, Structural)]
pub struct AtlasLayout {
    pub cell_width: u32,
    pub cell_height: u32,
    pub columns: u32,
    pub rows: u32,
    pub width: u32,
    pub height: u32,
}

impl AtlasLayout {
    /// The grid has cells, and the texture holds it.
    pub open spec fn wf(self) -> bool {
        &&& 1 <= self.cell_width <= MAX_CELL_SIDE
        &&& 1 <= self.cell_height <= MAX_CELL_SIDE
        &&& 1 <= self.columns <= 256
        &&& 1 <= self.rows <= 256
        &&& self.columns * self.cell_width <= self.width <= MAX_ATLAS_SIDE
        &&& self.rows * self.cell_height <= self.height <= MAX_ATLAS_SIDE
    }

    /// The number of cells.
    pub open spec fn capacity(self) -> int {
        self.columns * self.rows
    }

    /// The rectangle of slot `k`.
    pub open spec fn rect_of(self, k: int) -> PixelRect {
        PixelRect {
            x: ((k % self.columns as int) * self.cell_width) as u32,
            y: ((k / self.columns as int) * self.cell_height) as u32,
            width: self.cell_width,
            height: self.cell_height,
        }
    }

    /// The layout is the one for `count` cells of `cell_width` by
    /// `cell_height` pixels: the least number of columns whose square reaches
    /// the count, the least number of rows that then holds the count, at
    /// least one of each, and the least power-of-two sides that hold the
    /// grid.
    pub open spec fn is_grid_for(self, count: int, cell_width: u32, cell_height: u32) -> bool {
        &&& self.cell_width == cell_width
        &&& self.cell_height == cell_height
        &&& self.columns >= 1
        &&& self.columns * self.columns >= count
        &&& self.columns == 1 || (self.columns - 1) * (self.columns - 1) < count
        &&& self.rows >= 1
        &&& self.rows * self.columns >= count
        &&& self.rows == 1 || (self.rows - 1) * self.columns < count
        &&& is_pow2_ceil(self.width as int, self.columns * cell_width)
        &&& is_pow2_ceil(self.height as int, self.rows * cell_height)
    }

    /// Gives the rectangle of slot `k`.
    pub fn slot_rect(&self, k: u32) -> (r: PixelRect)
        requires
            self.wf(),
            k < self.capacity(),
        ensures
            r == self.rect_of(k as int),
            r.x + r.width <= self.width,
            r.y + r.height <= self.height,
    {
        proof {
            lemma_slot_cell(self.columns as int, self.rows as int, k as int);
            lemma_slot_in_texture(*self, k as int);
        }
        let col: u32 = k % self.columns;
        let row: u32 = k / self.columns;
        assert(col * self.cell_width <= 255 * 64 && row * self.cell_height <= 255 * 64)
            by (nonlinear_arith)
            requires
                col <= 255,
                row <= 255,
                self.cell_width <= 64,
                self.cell_height <= 64,
        ;
        PixelRect {
            x: col * self.cell_width,
            y: row * self.cell_height,
            width: self.cell_width,
            height: self.cell_height,
        }
    }
}

proof fn lemma_slot_cell(columns: int, rows: int, k: int)
    requires
        columns >= 1,
        0 <= k < columns * rows,
    ensures
        0 <= k % columns < columns,
        0 <= k / columns < rows,
        k == columns * (k / columns) + k % columns,
{
    assert(0 <= k / columns < rows && k == columns * (k / columns) + k % columns && 0 <= k
        % columns < columns) by (nonlinear_arith)
        requires
            columns >= 1,
            0 <= k < columns * rows,
    ;
}

/// The rectangle of every slot of the grid lies within the texture.
pub proof fn lemma_slot_in_texture(layout: AtlasLayout, k: int)
    requires
        layout.wf(),
        0 <= k < layout.capacity(),
    ensures
        layout.rect_of(k).x == (k % layout.columns as int) * layout.cell_width,
        layout.rect_of(k).y == (k / layout.columns as int) * layout.cell_height,
        layout.rect_of(k).x + layout.cell_width <= layout.width,
        layout.rect_of(k).y + layout.cell_height <= layout.height,
{
    let c = layout.columns as int;
    let r = layout.rows as int;
    let cw = layout.cell_width as int;
    let ch = layout.cell_height as int;
    lemma_slot_cell(c, r, k);
    let col = k % c;
    let row = k / c;
    assert(0 <= col * cw && col * cw + cw <= c * cw) by (nonlinear_arith)
        requires
            0 <= col < c,
            cw >= 1,
    ;
    assert(0 <= row * ch && row * ch + ch <= r * ch) by (nonlinear_arith)
        requires
            0 <= row < r,
            ch >= 1,
    ;
}

/// Two different slots of a grid never overlap.
pub proof fn lemma_slots_do_not_overlap(layout: AtlasLayout, a: int, b: int)
    requires
        layout.wf(),
        0 <= a < layout.capacity(),
        0 <= b < layout.capacity(),
        a != b,
    ensures
        layout.rect_of(a).disjoint(layout.rect_of(b)),
{
    let c = layout.columns as int;
    let r = layout.rows as int;
    let cw = layout.cell_width as int;
    let ch = layout.cell_height as int;
    lemma_slot_cell(c, r, a);
    lemma_slot_cell(c, r, b);
    lemma_slot_in_texture(layout, a);
    lemma_slot_in_texture(layout, b);
    let (ca, ra) = (a % c, a / c);
    let (cb, rb) = (b % c, b / c);
    if ca < cb {
        assert(ca * cw + cw <= cb * cw) by (nonlinear_arith)
            requires
                ca < cb,
                cw >= 1,
        ;
    } else if cb < ca {
        assert(cb * cw + cw <= ca * cw) by (nonlinear_arith)
            requires
                cb < ca,
                cw >= 1,
        ;
    } else if ra < rb {
        assert(ra * ch + ch <= rb * ch) by (nonlinear_arith)
            requires
                ra < rb,
                ch >= 1,
        ;
    } else {
        assert(rb < ra);
        assert(rb * ch + ch <= ra * ch) by (nonlinear_arith)
            requires
                rb < ra,
                ch >= 1,
        ;
    }
}

/// Lays out a grid for `count` cells of `cell_width` by `cell_height` pixels.
///
/// There is a layout unless a cell side is zero or above `MAX_CELL_SIDE`, or
/// the count is above `MAX_CELLS`.
pub fn plan_grid(count: u32, cell_width: u32, cell_height: u32) -> (r: Option<AtlasLayout>)
    ensures
        r is None <==> (cell_width == 0 || cell_height == 0 || cell_width > MAX_CELL_SIDE
            || cell_height > MAX_CELL_SIDE || count > MAX_CELLS),
        r matches Some(layout) ==> layout.wf() && layout.is_grid_for(
            count as int,
            cell_width,
            cell_height,
        ) && layout.capacity() >= count,
{
    if cell_width == 0 || cell_height == 0 || cell_width > MAX_CELL_SIDE || cell_height
        > MAX_CELL_SIDE || count > MAX_CELLS {
        return None;
    }
    let mut columns: u32 = 1;
    while columns * columns < count
        invariant
            1 <= columns <= 256,
            count <= 65536,
            columns * columns <= 65536,
            columns == 1 || (columns - 1) * (columns - 1) < count,
        decreases 256 - columns,
    {
        assert(columns < 256) by (nonlinear_arith)
            requires
                columns * columns < count,
                count <= 65536,
                columns <= 256,
        ;
        columns = columns + 1;
        assert(columns * columns <= 65536) by (nonlinear_arith)
            requires
                columns <= 256,
        ;
    }
    let mut rows: u32 = 1;
    assert(rows * columns <= 65536) by (nonlinear_arith)
        requires
            rows == 1,
            columns <= 256,
    ;
    while rows * columns < count
        invariant
            1 <= rows <= 256,
            1 <= columns <= 256,
            count <= 65536,
            columns * columns >= count,
            rows * columns <= 65536,
            rows == 1 || (rows - 1) * columns < count,
        decreases 256 - rows,
    {
        assert(rows < columns) by (nonlinear_arith)
            requires
                rows * columns < count,
                columns * columns >= count,
                columns >= 1,
        ;
        rows = rows + 1;
        assert(rows * columns <= 65536) by (nonlinear_arith)
            requires
                rows <= 256,
                columns <= 256,
        ;
    }
    assert(columns * cell_width <= 16384 && rows * cell_height <= 16384) by (nonlinear_arith)
        requires
            columns <= 256,
            rows <= 256,
            cell_width <= 64,
            cell_height <= 64,
    ;
    assert(columns * cell_width >= 1 && rows * cell_height >= 1) by (nonlinear_arith)
        requires
            columns >= 1,
            rows >= 1,
            cell_width >= 1,
            cell_height >= 1,
    ;
    let width: u32 = next_pow2(columns * cell_width);
    let height: u32 = next_pow2(rows * cell_height);
    proof {
        assert(columns * rows == rows * columns) by (nonlinear_arith);
        assert(is_pow2(16384)) by {
            reveal_with_fuel(is_pow2, 16);
        }
        lemma_pow2_ceil_is_least(width as int, columns * cell_width, 16384);
        lemma_pow2_ceil_is_least(height as int, rows * cell_height, 16384);
    }
    Some(AtlasLayout { cell_width, cell_height, columns, rows, width, height })
}

} // verus!
