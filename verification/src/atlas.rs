//! The atlas: one texture that holds the bitmap of every drawn glyph, and
//! the record of every glyph that was handed in.
//!
//! Drawn glyphs take the slots of the grid in the order of their glyph ids,
//! whatever the order in which they were handed in. An atlas is not changed
//! once it is made.

use vstd::prelude::*;
use crate::bitmap::CHANNELS;
use crate::glyph::{AtlasConfig, GlyphMetrics};
use crate::packing::{
    AtlasLayout, PixelRect, lemma_pow2_ceil_is_least, lemma_slot_in_texture,
    lemma_slots_do_not_overlap,
};

verus! {

/// What was handed in for one glyph: its metrics, and its bitmap unless it
/// draws nothing.
pub struct GlyphEntry {
    pub metrics: GlyphMetrics,
    pub bitmap: Option<Seq<u8>>,
}

/// What an atlas knows of one glyph: its metrics, and its slot in the grid
/// unless it draws nothing.
#[derive(Clone, Copy, Debug, PartialEq, Eq, Structural)]
pub struct GlyphRecord {
    pub metrics: GlyphMetrics,
    pub slot: Option<u32>,
}

/// The rectangle of a glyph in the texture, in pixels, with the sides of the
/// texture: the normalised rectangle is `x / atlas_width`,
/// `y / atlas_height`, `width / atlas_width` and `height / atlas_height`.
#[derive(Clone, Copy, Debug, PartialEq, Eq, Structural)]
pub struct UvRect {
    pub x: u32,
    pub y: u32,
    pub width: u32,
    pub height: u32,
    pub atlas_width: u32,
    pub atlas_height: u32,
}

/// Glyph `g` was handed in with a bitmap.
pub open spec fn is_drawn(entries: Seq<Option<GlyphEntry>>, g: int) -> bool {
    &&& 0 <= g < entries.len()
    &&& entries[g] matches Some(e)
    &&& e.bitmap is Some
}

/// The number of drawn glyphs with an id below `g`.
pub open spec fn drawn_before(entries: Seq<Option<GlyphEntry>>, g: int) -> int
    decreases g,
{
    if g <= 0 {
        0
    } else {
        drawn_before(entries, g - 1) + if is_drawn(entries, g - 1) {
            1int
        } else {
            0
        }
    }
}

/// The number of drawn glyphs.
pub open spec fn drawn_count(entries: Seq<Option<GlyphEntry>>) -> int {
    drawn_before(entries, entries.len() as int)
}

/// The bitmaps of the drawn glyphs with an id below `g`, by glyph id.
pub open spec fn bitmaps_before(entries: Seq<Option<GlyphEntry>>, g: int) -> Seq<Seq<u8>>
    decreases g,
{
    if g <= 0 {
        Seq::empty()
    } else if is_drawn(entries, g - 1) {
        bitmaps_before(entries, g - 1).push(entries[g - 1].unwrap().bitmap.unwrap())
    } else {
        bitmaps_before(entries, g - 1)
    }
}

/// The bitmaps of the drawn glyphs, by glyph id: the bitmap of slot `k` at
/// place `k`.
pub open spec fn drawn_bitmaps(entries: Seq<Option<GlyphEntry>>) -> Seq<Seq<u8>> {
    bitmaps_before(entries, entries.len() as int)
}

/// The record of glyph `g`: a drawn glyph takes the slot that counts the
/// drawn glyphs before it.
pub open spec fn record_of(entries: Seq<Option<GlyphEntry>>, g: int) -> Option<GlyphRecord> {
    if 0 <= g < entries.len() {
        match entries[g] {
            Some(e) => Some(
                GlyphRecord {
                    metrics: e.metrics,
                    slot: if e.bitmap is Some {
                        Some(drawn_before(entries, g) as u32)
                    } else {
                        None
                    },
                },
            ),
            None => None,
        }
    } else {
        None
    }
}

/// The index of channel `c` of the pixel in column `px` of row `py` of a
/// texture that is `width` pixels wide.
pub open spec fn texel_index(width: int, px: int, py: int, c: int) -> int {
    (py * width + px) * CHANNELS + c
}

/// The byte at index `i` of the texture of a grid whose slot `k` holds
/// `bitmaps[k]`: the byte of the bitmap whose cell the pixel lies in, and
/// zero in a cell without bitmap and outside the grid.
pub open spec fn texel_value(layout: AtlasLayout, bitmaps: Seq<Seq<u8>>, i: int) -> u8 {
    let c = i % (CHANNELS as int);
    let px = (i / (CHANNELS as int)) % (layout.width as int);
    let py = (i / (CHANNELS as int)) / (layout.width as int);
    let col = px / (layout.cell_width as int);
    let row = py / (layout.cell_height as int);
    let k = row * layout.columns + col;
    if col < layout.columns && row < layout.rows && k < bitmaps.len() {
        bitmaps[k][texel_index(
            layout.cell_width as int,
            px % (layout.cell_width as int),
            py % (layout.cell_height as int),
            c,
        )]
    } else {
        0
    }
}

/// The texture of a grid whose slot `k` holds `bitmaps[k]`.
pub open spec fn texture_of(layout: AtlasLayout, bitmaps: Seq<Seq<u8>>) -> Seq<u8> {
    Seq::new((layout.width * layout.height * CHANNELS) as nat, |i: int| texel_value(layout, bitmaps, i))
}

/// An atlas as a value: its grid, its texture and its records by glyph id.
#[verifier::ext_equal]
pub struct AtlasView {
    pub layout: AtlasLayout,
    pub pixels: Seq<u8>,
    pub records: Seq<Option<GlyphRecord>>,
}

impl AtlasView {
    /// The record of a glyph, if it was handed in.
    pub open spec fn record(self, glyph: u16) -> Option<GlyphRecord> {
        if glyph < self.records.len() {
            self.records[glyph as int]
        } else {
            None
        }
    }

    /// The metrics of a glyph, if it was handed in.
    pub open spec fn metrics_of(self, glyph: u16) -> Option<GlyphMetrics> {
        match self.record(glyph) {
            Some(r) => Some(r.metrics),
            None => None,
        }
    }

    /// The slot of a glyph, if it was handed in with a bitmap.
    pub open spec fn slot_of(self, glyph: u16) -> Option<u32> {
        match self.record(glyph) {
            Some(r) => r.slot,
            None => None,
        }
    }

    /// The rectangle of a glyph in the texture, if it has a slot.
    pub open spec fn rect_of(self, glyph: u16) -> Option<PixelRect> {
        match self.slot_of(glyph) {
            Some(k) => Some(self.layout.rect_of(k as int)),
            None => None,
        }
    }

    /// The grid holds every slot, no slot is given twice, and the texture
    /// has three bytes for each of its pixels.
    pub open spec fn wf(self) -> bool {
        &&& self.layout.wf()
        &&& self.pixels.len() == self.layout.width * self.layout.height * CHANNELS
        &&& self.records.len() <= 0x10000
        &&& forall|g: u16| (#[trigger] self.slot_of(g)) matches Some(k) ==> k < self.layout.capacity()
        &&& forall|g: u16, h: u16|
            g != h && (#[trigger] self.slot_of(g)) is Some && (#[trigger] self.slot_of(h)) is Some
                ==> self.slot_of(g) != self.slot_of(h)
    }
}

/// `atlas` is the atlas of what was handed in: the grid is the one for the
/// number of drawn glyphs, each glyph has its record, and the texture holds
/// the bitmaps in their slots.
pub open spec fn is_atlas_of(atlas: AtlasView, entries: Seq<Option<GlyphEntry>>, config: AtlasConfig) -> bool {
    &&& atlas.layout.wf()
    &&& atlas.layout.is_grid_for(drawn_count(entries), config.cell_width, config.cell_height)
    &&& atlas.records =~= Seq::new(entries.len(), |g: int| record_of(entries, g))
    &&& atlas.pixels =~= texture_of(atlas.layout, drawn_bitmaps(entries))
}

/// The drawn glyphs before `g` are counted one by one.
pub proof fn lemma_drawn_before_bounds(entries: Seq<Option<GlyphEntry>>, a: int, b: int)
    requires
        0 <= a <= b,
    ensures
        0 <= drawn_before(entries, a) <= drawn_before(entries, b),
        drawn_before(entries, a) <= a,
        bitmaps_before(entries, a).len() == drawn_before(entries, a),
        is_drawn(entries, a) && a < b ==> drawn_before(entries, a) < drawn_before(entries, b),
    decreases b,
{
    if a < b {
        lemma_drawn_before_bounds(entries, a, b - 1);
    } else if a > 0 {
        lemma_drawn_before_bounds(entries, a - 1, a - 1);
    }
}

/// The bitmap of a drawn glyph stands at the place of its slot.
pub proof fn lemma_bitmap_at_slot(entries: Seq<Option<GlyphEntry>>, g: int, n: int)
    requires
        is_drawn(entries, g),
        g < n,
    ensures
        0 <= drawn_before(entries, g) < bitmaps_before(entries, n).len(),
        bitmaps_before(entries, n)[drawn_before(entries, g)] == entries[g].unwrap().bitmap.unwrap(),
    decreases n,
{
    lemma_drawn_before_bounds(entries, g, n);
    lemma_drawn_before_bounds(entries, g, g);
    lemma_drawn_before_bounds(entries, n, n);
    if g < n - 1 {
        lemma_bitmap_at_slot(entries, g, n - 1);
        lemma_drawn_before_bounds(entries, n - 1, n - 1);
    } else {
        lemma_drawn_before_bounds(entries, g, g);
    }
}


/// Drawn glyphs with different ids have different slots, and the grid holds
/// every slot.
pub proof fn lemma_atlas_wf(atlas: AtlasView, entries: Seq<Option<GlyphEntry>>, config: AtlasConfig)
    requires
        is_atlas_of(atlas, entries, config),
        entries.len() <= 0x10000,
    ensures
        atlas.wf(),
{
    let n = entries.len() as int;
    lemma_drawn_before_bounds(entries, n, n);
    assert(atlas.layout.columns * atlas.layout.rows == atlas.layout.rows * atlas.layout.columns)
        by (nonlinear_arith);
    assert forall|g: u16| (#[trigger] atlas.slot_of(g)) is Some implies atlas.slot_of(g).unwrap()
        < atlas.layout.capacity() by {
        assert(atlas.records[g as int] == record_of(entries, g as int));
        lemma_drawn_before_bounds(entries, g as int, n);
    }
    assert forall|g: u16, h: u16|
        g != h && (#[trigger] atlas.slot_of(g)) is Some && (#[trigger] atlas.slot_of(h)) is Some implies atlas.slot_of(
        g,
    ) != atlas.slot_of(h) by {
        assert(atlas.records[g as int] == record_of(entries, g as int));
        assert(atlas.records[h as int] == record_of(entries, h as int));
        lemma_drawn_before_bounds(entries, g as int, n);
        lemma_drawn_before_bounds(entries, h as int, n);
        if g < h {
            lemma_drawn_before_bounds(entries, g as int, h as int);
        } else {
            lemma_drawn_before_bounds(entries, h as int, g as int);
        }
    }
}

/// The rectangles of two different glyphs of an atlas never overlap, and
/// each lies within the texture.
pub proof fn lemma_glyph_rects_do_not_overlap(atlas: AtlasView, g: u16, h: u16)
    requires
        atlas.wf(),
        g != h,
        atlas.rect_of(g) is Some,
        atlas.rect_of(h) is Some,
    ensures
        atlas.rect_of(g).unwrap().disjoint(atlas.rect_of(h).unwrap()),
        atlas.rect_of(g).unwrap().x + atlas.rect_of(g).unwrap().width <= atlas.layout.width,
        atlas.rect_of(g).unwrap().y + atlas.rect_of(g).unwrap().height <= atlas.layout.height,
{
    let a = atlas.slot_of(g).unwrap();
    let b = atlas.slot_of(h).unwrap();
    assert(atlas.slot_of(g) != atlas.slot_of(h));
    lemma_slots_do_not_overlap(atlas.layout, a as int, b as int);
    lemma_slot_in_texture(atlas.layout, a as int);
}

proof fn lemma_cell_of_pixel(cell: int, index: int, offset: int)
    requires
        cell >= 1,
        index >= 0,
        0 <= offset < cell,
    ensures
        (index * cell + offset) / cell == index,
        (index * cell + offset) % cell == offset,
{
    assert((index * cell + offset) / cell == index && (index * cell + offset) % cell == offset)
        by (nonlinear_arith)
        requires
            cell >= 1,
            index >= 0,
            0 <= offset < cell,
    ;
}

/// The texture holds the bitmap of slot `k` in the rectangle of slot `k`:
/// channel `c` of the pixel in column `x` of row `y` of the bitmap is channel
/// `c` of the pixel that lies `x` columns and `y` rows into the rectangle.
pub proof fn lemma_texture_holds_bitmap(
    layout: AtlasLayout,
    bitmaps: Seq<Seq<u8>>,
    k: int,
    x: int,
    y: int,
    c: int,
)
    requires
        layout.wf(),
        0 <= k < bitmaps.len(),
        k < layout.capacity(),
        0 <= x < layout.cell_width,
        0 <= y < layout.cell_height,
        0 <= c < CHANNELS,
    ensures
        0 <= texel_index(
            layout.width as int,
            layout.rect_of(k).x + x,
            layout.rect_of(k).y + y,
            c,
        ) < texture_of(layout, bitmaps).len(),
        texture_of(layout, bitmaps)[texel_index(
            layout.width as int,
            layout.rect_of(k).x + x,
            layout.rect_of(k).y + y,
            c,
        )] == bitmaps[k][texel_index(layout.cell_width as int, x, y, c)],
{
    let w = layout.width as int;
    let h = layout.height as int;
    let cw = layout.cell_width as int;
    let ch = layout.cell_height as int;
    let cols = layout.columns as int;
    lemma_slot_in_texture(layout, k);
    let col = k % cols;
    let row = k / cols;
    assert(0 <= col < cols && 0 <= row < layout.rows && k == cols * row + col) by (nonlinear_arith)
        requires
            cols >= 1,
            0 <= k < cols * layout.rows,
            col == k % cols,
            row == k / cols,
    ;
    let px = col * cw + x;
    let py = row * ch + y;
    assert(px == layout.rect_of(k).x + x && py == layout.rect_of(k).y + y);
    assert(0 <= px < w && 0 <= py < h);
    let p = py * w + px;
    let i = p * 3 + c;
    assert(i == texel_index(w, px, py, c));
    lemma_cell_of_pixel(3, p, c);
    lemma_cell_of_pixel(w, py, px);
    lemma_cell_of_pixel(cw, col, x);
    lemma_cell_of_pixel(ch, row, y);
    assert(0 <= p < w * h) by (nonlinear_arith)
        requires
            0 <= px < w,
            0 <= py < h,
            p == py * w + px,
    ;
    assert(row * cols + col == k) by (nonlinear_arith)
        requires
            k == cols * row + col,
    ;
    assert(0 <= i < w * h * 3);
    assert(texel_value(layout, bitmaps, i) == bitmaps[k][texel_index(cw, x, y, c)]);
}

/// Two grids for the same count and the same cell are the same grid.
pub proof fn lemma_grid_is_unique(a: AtlasLayout, b: AtlasLayout, count: int, cell_width: u32, cell_height: u32)
    requires
        a.is_grid_for(count, cell_width, cell_height),
        b.is_grid_for(count, cell_width, cell_height),
    ensures
        a == b,
{
    let (ca, cb) = (a.columns as int, b.columns as int);
    assert(ca == cb) by (nonlinear_arith)
        requires
            ca >= 1,
            cb >= 1,
            ca * ca >= count,
            cb * cb >= count,
            ca == 1 || (ca - 1) * (ca - 1) < count,
            cb == 1 || (cb - 1) * (cb - 1) < count,
    ;
    let (ra, rb) = (a.rows as int, b.rows as int);
    assert(ra == rb) by (nonlinear_arith)
        requires
            ca == cb,
            ca >= 1,
            ra >= 1,
            rb >= 1,
            ra * ca >= count,
            rb * cb >= count,
            ra == 1 || (ra - 1) * ca < count,
            rb == 1 || (rb - 1) * cb < count,
    ;
    lemma_pow2_ceil_is_least(a.width as int, a.columns * cell_width, b.width as int);
    lemma_pow2_ceil_is_least(b.width as int, b.columns * cell_width, a.width as int);
    lemma_pow2_ceil_is_least(a.height as int, a.rows * cell_height, b.height as int);
    lemma_pow2_ceil_is_least(b.height as int, b.rows * cell_height, a.height as int);
}

/// What was handed in decides the atlas: two atlases of the same entries at
/// the same configuration have the same grid, the same records and the same
/// texture, byte for byte.
pub proof fn lemma_atlas_is_determined(
    a: AtlasView,
    b: AtlasView,
    entries: Seq<Option<GlyphEntry>>,
    config: AtlasConfig,
)
    requires
        is_atlas_of(a, entries, config),
        is_atlas_of(b, entries, config),
    ensures
        a == b,
{
    lemma_grid_is_unique(
        a.layout,
        b.layout,
        drawn_count(entries),
        config.cell_width,
        config.cell_height,
    );
    assert(a.pixels =~= b.pixels);
    assert(a.records =~= b.records);
    assert(a =~= b);
}

/// The order in which two different glyphs are handed in does not matter.
pub proof fn lemma_entry_order_is_irrelevant(
    entries: Seq<Option<GlyphEntry>>,
    g: int,
    first: Option<GlyphEntry>,
    h: int,
    second: Option<GlyphEntry>,
)
    requires
        0 <= g < entries.len(),
        0 <= h < entries.len(),
        g != h,
    ensures
        entries.update(g, first).update(h, second) == entries.update(h, second).update(g, first),
{
    assert(entries.update(g, first).update(h, second) =~= entries.update(h, second).update(
        g,
        first,
    ));
}

/// The finished atlas: the texture and the record of every glyph.
pub struct GlyphAtlas {
    layout: AtlasLayout,
    pixels: Vec<u8>,
    records: Vec<Option<GlyphRecord>>,
}

impl View for GlyphAtlas {
    type V = AtlasView;

    closed spec fn view(&self) -> AtlasView {
        AtlasView { layout: self.layout, pixels: self.pixels@, records: self.records@ }
    }
}

impl GlyphAtlas {
    #[verifier::type_invariant]
    spec fn inv(self) -> bool {
        self@.wf()
    }

    pub(crate) fn from_parts(
        layout: AtlasLayout,
        pixels: Vec<u8>,
        records: Vec<Option<GlyphRecord>>,
    ) -> (atlas: GlyphAtlas)
        requires
            (AtlasView { layout, pixels: pixels@, records: records@ }).wf(),
        ensures
            atlas@ == (AtlasView { layout, pixels: pixels@, records: records@ }),
    {
        GlyphAtlas { layout, pixels, records }
    }

    /// The metrics of a glyph, for every glyph that was handed in.
    pub fn metrics(&self, glyph: u16) -> (r: Option<GlyphMetrics>)
        ensures
            r == self@.metrics_of(glyph),
    {
        if (glyph as usize) < self.records.len() {
            match &self.records[glyph as usize] {
                Some(record) => Some(record.metrics),
                None => None,
            }
        } else {
            None
        }
    }

    /// The rectangle of a glyph in the texture, for every glyph that was
    /// handed in with a bitmap.
    ///
    /// The rectangle has the size of a cell, lies within the texture, and
    /// overlaps the rectangle of no other glyph.
    pub fn uv_rect(&self, glyph: u16) -> (r: Option<UvRect>)
        ensures
            self@.wf(),
            r is Some <==> self@.rect_of(glyph) is Some,
            r matches Some(uv) ==> {
                &&& self@.rect_of(glyph) == Some(
                    PixelRect { x: uv.x, y: uv.y, width: uv.width, height: uv.height },
                )
                &&& uv.atlas_width == self@.layout.width
                &&& uv.atlas_height == self@.layout.height
                &&& uv.width > 0
                &&& uv.height > 0
                &&& uv.x + uv.width <= uv.atlas_width
                &&& uv.y + uv.height <= uv.atlas_height
                &&& forall|other: u16|
                    other != glyph && (#[trigger] self@.rect_of(other)) is Some
                        ==> self@.rect_of(other).unwrap().disjoint(self@.rect_of(glyph).unwrap())
            },
    {
        proof {
            use_type_invariant(self);
        }
        if (glyph as usize) >= self.records.len() {
            return None;
        }
        let slot = match &self.records[glyph as usize] {
            Some(record) => record.slot,
            None => None,
        };
        match slot {
            Some(k) => {
                assert(self@.slot_of(glyph) == Some(k));
                let rect = self.layout.slot_rect(k);
                proof {
                    assert forall|other: u16|
                        other != glyph && (#[trigger] self@.rect_of(other)) is Some implies self@.rect_of(
                        other,
                    ).unwrap().disjoint(rect) by {
                        lemma_glyph_rects_do_not_overlap(self@, other, glyph);
                    }
                }
                Some(
                    UvRect {
                        x: rect.x,
                        y: rect.y,
                        width: rect.width,
                        height: rect.height,
                        atlas_width: self.layout.width,
                        atlas_height: self.layout.height,
                    },
                )
            },
            None => None,
        }
    }

    /// The width of the texture in pixels: a power of two.
    pub fn width(&self) -> (w: u32)
        ensures
            w == self@.layout.width,
    {
        self.layout.width
    }

    /// The height of the texture in pixels: a power of two.
    pub fn height(&self) -> (h: u32)
        ensures
            h == self@.layout.height,
    {
        self.layout.height
    }

    /// The number of channels of a pixel of the texture.
    pub fn channel_count(&self) -> (n: usize)
        ensures
            n == CHANNELS,
    {
        CHANNELS
    }

    /// The grid of the atlas.
    pub fn layout(&self) -> (l: AtlasLayout)
        ensures
            l == self@.layout,
            l.wf(),
    {
        proof {
            use_type_invariant(self);
        }
        self.layout
    }

    /// The bytes of the texture: rows of pixels from the first row on, three
    /// bytes a pixel.
    pub fn pixels(&self) -> (p: &Vec<u8>)
        ensures
            p@ == self@.pixels,
            p@.len() == self@.layout.width * self@.layout.height * CHANNELS,
    {
        proof {
            use_type_invariant(self);
        }
        &self.pixels
    }
}

} // verus!
