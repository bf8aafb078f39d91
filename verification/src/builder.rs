//! Building an atlas, one glyph at a time.
//!
//! The builder decides; the caller does what needs the font parser's outline
//! reader and the distance field generator. For each glyph the caller reads
//! the path commands and hands them to [`AtlasBuilder::plan`]. Where a plan
//! comes back, the caller samples the distance field for it and hands the
//! distances to [`AtlasBuilder::accept`]. [`AtlasBuilder::finish`] packs what
//! was accepted and hands out the atlas with the errors of the glyphs that
//! failed.

use vstd::prelude::*;
use crate::atlas::{
    AtlasView, GlyphAtlas, GlyphEntry, GlyphRecord, drawn_before, drawn_bitmaps, drawn_count,
    is_atlas_of, is_drawn, lemma_atlas_wf, lemma_bitmap_at_slot, lemma_drawn_before_bounds,
    record_of, texel_value, texture_of,
};
use crate::bitmap::{CHANNELS, GlyphBitmap, encoded};
use crate::error::MsdfAtlasLoaderError;
use crate::glyph::{
    AtlasConfig, GlyphMetrics, GlyphPlan, OutlineReading, is_plan_of, metrics_of, outline_read,
    plan_fault, plan_frame, plan_glyph,
};
use crate::outline::PathCommand;
use crate::packing::{AtlasLayout, plan_grid};

verus! {

/// What was accepted for one glyph.
struct RenderedGlyph {
    metrics: GlyphMetrics,
    bitmap: Option<GlyphBitmap>,
}

impl RenderedGlyph {
    spec fn entry(self) -> GlyphEntry {
        GlyphEntry {
            metrics: self.metrics,
            bitmap: match self.bitmap {
                Some(b) => Some(b@),
                None => None,
            },
        }
    }

    spec fn fits(self, config: AtlasConfig) -> bool {
        self.bitmap matches Some(b) ==> b.spec_width() == config.cell_width && b.spec_height()
            == config.cell_height && b@.len() == config.cell_width * config.cell_height * CHANNELS
    }
}

spec fn entry_of(slot: Option<RenderedGlyph>) -> Option<GlyphEntry> {
    match slot {
        Some(r) => Some(r.entry()),
        None => None,
    }
}

/// The bytes that stand for a sequence of distances at a range.
pub open spec fn encoded_all(distances: Seq<i32>, range: u32) -> Seq<u8> {
    Seq::new(distances.len(), |i: int| encoded(distances[i] as int, range as int) as u8)
}

/// What [`AtlasBuilder::plan`] does to a builder, and what it hands back.
pub open spec fn plan_effect(
    before: &AtlasBuilder,
    after: &AtlasBuilder,
    r: Option<GlyphPlan>,
    glyph: u16,
    advance: Option<u16>,
    commands: Seq<PathCommand>,
    reading: OutlineReading,
) -> bool {
    &&& after.config() == before.config()
    &&& after.units_per_em() == before.units_per_em()
    &&& after.entries().len() == before.entries().len()
    &&& match plan_fault(
        before.config(),
        before.units_per_em(),
        glyph,
        before.entries().len() as u16,
        commands,
        reading,
    ) {
        Some(e) => {
            &&& r is None
            &&& after.errors() == before.errors().push(e)
            &&& after.entries() == before.entries()
        },
        None => {
            let contours = outline_read(
                glyph,
                before.entries().len() as u16,
                commands,
                reading,
            )->Ok_0;
            let frame = plan_frame(contours, before.units_per_em(), before.config())->Some_0;
            &&& after.errors() == before.errors()
            &&& if contours.len() == 0 {
                &&& r is None
                &&& after.entries() == before.entries().update(
                    glyph as int,
                    Some(GlyphEntry { metrics: metrics_of(advance, contours, frame), bitmap: None }),
                )
            } else {
                &&& r matches Some(plan)
                &&& is_plan_of(
                    plan,
                    before.config(),
                    before.units_per_em(),
                    glyph,
                    advance,
                    contours,
                )
                &&& after.entries() == before.entries()
            }
        },
    }
}

/// What [`AtlasBuilder::accept`] does to a builder, and what it answers.
pub open spec fn accept_effect(
    before: &AtlasBuilder,
    after: &AtlasBuilder,
    ok: bool,
    plan: GlyphPlan,
    distances: Seq<i32>,
) -> bool {
    &&& after.config() == before.config()
    &&& after.units_per_em() == before.units_per_em()
    &&& after.entries().len() == before.entries().len()
    &&& ok <==> (plan.glyph < before.entries().len() && distances.len() == before.config().cell_width
        * before.config().cell_height * CHANNELS)
    &&& if ok {
        &&& after.errors() == before.errors()
        &&& after.entries() == before.entries().update(
            plan.glyph as int,
            Some(
                GlyphEntry {
                    metrics: plan.metrics,
                    bitmap: Some(encoded_all(distances, before.config().range)),
                },
            ),
        )
    } else {
        &&& after.errors() == before.errors().push(MsdfAtlasLoaderError::GlyphShape(plan.glyph))
        &&& after.entries() == before.entries()
    }
}

/// The state of an atlas that is being built.
pub struct AtlasBuilder {
    config: AtlasConfig,
    units_per_em: u16,
    table: Vec<Option<RenderedGlyph>>,
    errors: Vec<MsdfAtlasLoaderError>,
}

impl AtlasBuilder {
    /// The builder is in order: what [`AtlasBuilder::new`] hands out is, and
    /// every method keeps it so.
    pub closed spec fn wf(&self) -> bool {
        &&& self.config.valid()
        &&& self.units_per_em > 0
        &&& self.table@.len() <= 0xffff
        &&& forall|g: int|
            0 <= g < self.table@.len() ==> ((#[trigger] self.table@[g]) matches Some(r) ==> r.fits(
                self.config,
            ))
    }

    /// The configuration that the builder was made with.
    pub closed spec fn config(&self) -> AtlasConfig {
        self.config
    }

    /// The units of the em that the builder was made with.
    pub closed spec fn units_per_em(&self) -> u16 {
        self.units_per_em
    }

    /// What was handed in so far, by glyph id: one place for each glyph of
    /// the face.
    pub closed spec fn entries(&self) -> Seq<Option<GlyphEntry>> {
        Seq::new(self.table@.len(), |g: int| entry_of(self.table@[g]))
    }

    /// The errors of the glyphs that failed so far, in the order in which
    /// they failed.
    pub closed spec fn errors(&self) -> Seq<MsdfAtlasLoaderError> {
        self.errors@
    }

    /// Starts an atlas for a face of `glyph_count` glyphs.
    ///
    /// There is no builder for a configuration that is not valid, and none
    /// for an em without units.
    pub fn new(config: AtlasConfig, units_per_em: u16, glyph_count: u16) -> (r: Option<AtlasBuilder>)
        ensures
            r is Some <==> (config.valid() && units_per_em > 0),
            r matches Some(b) ==> {
                &&& b.wf()
                &&& b.config() == config
                &&& b.units_per_em() == units_per_em
                &&& b.entries() == Seq::new(glyph_count as nat, |g: int| None::<GlyphEntry>)
                &&& b.errors() == Seq::<MsdfAtlasLoaderError>::empty()
            },
    {
        if !config.is_valid() || units_per_em == 0 {
            return None;
        }
        let mut table: Vec<Option<RenderedGlyph>> = Vec::new();
        let mut g: u16 = 0;
        while g < glyph_count
            invariant
                g <= glyph_count,
                table@.len() == g,
                forall|j: int| 0 <= j < g ==> (#[trigger] table@[j]) is None,
            decreases glyph_count - g,
        {
            table.push(None);
            g = g + 1;
        }
        let builder = AtlasBuilder { config, units_per_em, table, errors: Vec::new() };
        assert(builder.entries() =~= Seq::new(glyph_count as nat, |g: int| None::<GlyphEntry>));
        Some(builder)
    }

    /// The number of glyphs of the face.
    pub fn glyph_count(&self) -> (n: u16)
        requires
            self.wf(),
        ensures
            n == self.entries().len(),
    {
        self.table.len() as u16
    }

    /// Plans one glyph from the path commands that the face handed out.
    ///
    /// A glyph that cannot be planned, as [`plan_glyph`] says, leaves one
    /// error and nothing else. A glyph without contours is entered with its
    /// metrics and without bitmap, and is no error. For any other glyph the
    /// plan comes back and the builder is as it was: the glyph is entered
    /// when its distances are accepted.
    pub fn plan(
        &mut self,
        glyph: u16,
        advance: Option<u16>,
        commands: &Vec<PathCommand>,
        reading: OutlineReading,
    ) -> (r: Option<GlyphPlan>)
        requires
            old(self).wf(),
        ensures
            final(self).wf(),
            plan_effect(old(self), final(self), r, glyph, advance, commands@, reading),
    {
        let count: u16 = self.table.len() as u16;
        match plan_glyph(
            &self.config,
            self.units_per_em,
            glyph,
            count,
            advance,
            commands,
            reading,
        ) {
            Err(e) => {
                self.errors.push(e);
                None
            },
            Ok(plan) => {
                if plan.contours.len() == 0 {
                    let ghost before = self.entries();
                    self.table.set(
                        glyph as usize,
                        Some(RenderedGlyph { metrics: plan.metrics, bitmap: None }),
                    );
                    assert(self.entries() =~= before.update(
                        glyph as int,
                        Some(GlyphEntry { metrics: plan.metrics, bitmap: None }),
                    ));
                    None
                } else {
                    Some(plan)
                }
            },
        }
    }

    /// Accepts the distances that were sampled for a plan: one signed
    /// distance, in distance units, for each channel of each pixel of the
    /// cell, row by row, positive outside the glyph.
    ///
    /// The glyph is entered with the metrics of the plan and the bitmap of
    /// the distances at the range of the configuration. Where the glyph is
    /// none of the face, or where the number of distances is not that of the
    /// cell, nothing is entered, the glyph is reported with `GlyphShape`, and
    /// the result is `false`.
    pub fn accept(&mut self, plan: &GlyphPlan, distances: &Vec<i32>) -> (ok: bool)
        requires
            old(self).wf(),
        ensures
            final(self).wf(),
            accept_effect(old(self), final(self), ok, *plan, distances@),
    {
        if plan.glyph as usize >= self.table.len() {
            self.errors.push(MsdfAtlasLoaderError::GlyphShape(plan.glyph));
            return false;
        }
        let bitmap = match GlyphBitmap::from_distances(
            self.config.cell_width,
            self.config.cell_height,
            self.config.range,
            distances,
        ) {
            Some(bitmap) => bitmap,
            None => {
                self.errors.push(MsdfAtlasLoaderError::GlyphShape(plan.glyph));
                return false;
            },
        };
        let ghost before = self.entries();
        assert(bitmap@ =~= encoded_all(distances@, self.config.range)) by {
            crate::bitmap::lemma_encoded_sign(0, self.config.range as int);
            assert forall|i: int| 0 <= i < distances@.len() implies (#[trigger] bitmap@[i])
                == encoded_all(distances@, self.config.range)[i] by {
                crate::bitmap::lemma_encoded_sign(distances@[i] as int, self.config.range as int);
            }
        }
        self.table.set(
            plan.glyph as usize,
            Some(RenderedGlyph { metrics: plan.metrics, bitmap: Some(bitmap) }),
        );
        assert(self.entries() =~= before.update(
            plan.glyph as int,
            Some(
                GlyphEntry {
                    metrics: plan.metrics,
                    bitmap: Some(encoded_all(distances@, self.config.range)),
                },
            ),
        ));
        true
    }

    /// The byte at index `i` of the texture.
    fn texel(&self, layout: &AtlasLayout, order: &Vec<u16>, i: usize) -> (byte: u8)
        requires
            self.wf(),
            layout.wf(),
            layout.cell_width == self.config().cell_width,
            layout.cell_height == self.config().cell_height,
            i < layout.width * layout.height * CHANNELS,
            is_slot_order(order@, self.entries()),
        ensures
            byte == texel_value(*layout, drawn_bitmaps(self.entries()), i as int),
    {
        let ghost entries = self.entries();
        let ghost n = entries.len() as int;
        assert(layout.width >= 1 && layout.height >= 1) by (nonlinear_arith)
            requires
                layout.columns * layout.cell_width <= layout.width,
                layout.rows * layout.cell_height <= layout.height,
                layout.columns >= 1,
                layout.rows >= 1,
                layout.cell_width >= 1,
                layout.cell_height >= 1,
        ;
        let c: usize = i % 3;
        let p: usize = i / 3;
        let px: usize = p % (layout.width as usize);
        let py: usize = p / (layout.width as usize);
        let cw: usize = layout.cell_width as usize;
        let ch: usize = layout.cell_height as usize;
        let col: usize = px / cw;
        let row: usize = py / ch;
        proof {
            lemma_drawn_before_bounds(entries, n, n);
            assert(py < layout.height) by (nonlinear_arith)
                requires
                    p < layout.width * layout.height,
                    py == p / (layout.width as usize),
                    layout.width > 0,
            ;
        }
        if col >= layout.columns as usize || row >= layout.rows as usize {
            return 0;
        }
        assert(row * layout.columns + col < 256 * 256) by (nonlinear_arith)
            requires
                row < layout.rows,
                col < layout.columns,
                layout.rows <= 256,
                layout.columns <= 256,
        ;
        let k: usize = row * (layout.columns as usize) + col;
        if k >= order.len() {
            return 0;
        }
        let g: usize = order[k] as usize;
        proof {
            lemma_bitmap_at_slot(entries, g as int, n);
            assert(entries[g as int] == entry_of(self.table@[g as int]));
        }
        let x: usize = px % cw;
        let y: usize = py % ch;
        assert(y * cw + x < cw * ch && cw * ch <= 64 * 64) by (nonlinear_arith)
            requires
                x < cw,
                y < ch,
                cw <= 64,
                ch <= 64,
        ;
        let index: usize = (y * cw + x) * 3 + c;
        match &self.table[g] {
            Some(rendered) => match &rendered.bitmap {
                Some(bitmap) => {
                    assert(rendered.fits(self.config));
                    bitmap.data()[index]
                },
                None => 0,
            },
            None => 0,
        }
    }

    /// Packs what was accepted into the atlas, and hands it out with the
    /// errors of the glyphs that failed.
    ///
    /// The drawn glyphs take the slots of the grid by glyph id. A glyph that
    /// was entered twice counts as it was entered last.
    pub fn finish(self) -> (r: (GlyphAtlas, Vec<MsdfAtlasLoaderError>))
        requires
            self.wf(),
        ensures
            is_atlas_of(r.0@, self.entries(), self.config()),
            r.0@.wf(),
            r.1@ == self.errors(),
    {
        let ghost entries = self.entries();
        let n: usize = self.table.len();
        let mut order: Vec<u16> = Vec::new();
        let mut records: Vec<Option<GlyphRecord>> = Vec::new();
        let mut g: usize = 0;
        while g < n
            invariant
                g <= n,
                n == self.table@.len(),
                n <= 0xffff,
                entries == self.entries(),
                order@.len() == drawn_before(entries, g as int),
                order@.len() <= g,
                records@.len() == g,
                forall|j: int| 0 <= j < g ==> (#[trigger] records@[j]) == record_of(entries, j),
                forall|k: int|
                    0 <= k < order@.len() ==> (#[trigger] order@[k]) < g && is_drawn(
                        entries,
                        order@[k] as int,
                    ) && drawn_before(entries, order@[k] as int) == k,
            decreases n - g,
        {
            assert(entries[g as int] == entry_of(self.table@[g as int]));
            match &self.table[g] {
                Some(rendered) => {
                    let slot: Option<u32> = if rendered.bitmap.is_some() {
                        let k: u32 = order.len() as u32;
                        order.push(g as u16);
                        Some(k)
                    } else {
                        None
                    };
                    records.push(Some(GlyphRecord { metrics: rendered.metrics, slot }));
                },
                None => {
                    records.push(None);
                },
            }
            g = g + 1;
        }
        proof {
            lemma_drawn_before_bounds(entries, n as int, n as int);
        }
        let layout = plan_grid(
            order.len() as u32,
            self.config.cell_width,
            self.config.cell_height,
        ).unwrap();
        assert(layout.width * layout.height <= 16384 * 16384) by (nonlinear_arith)
            requires
                layout.width <= 16384,
                layout.height <= 16384,
        ;
        let total: usize = (layout.width as usize) * (layout.height as usize) * 3;
        let ghost bitmaps = drawn_bitmaps(entries);
        let mut pixels: Vec<u8> = Vec::new();
        let mut i: usize = 0;
        while i < total
            invariant
                i <= total,
                total == layout.width * layout.height * CHANNELS,
                self.wf(),
                layout.wf(),
                layout.cell_width == self.config().cell_width,
                layout.cell_height == self.config().cell_height,
                entries == self.entries(),
                bitmaps == drawn_bitmaps(entries),
                is_slot_order(order@, entries),
                pixels@.len() == i,
                forall|j: int| 0 <= j < i ==> (#[trigger] pixels@[j]) == texel_value(layout, bitmaps, j),
            decreases total - i,
        {
            let byte: u8 = self.texel(&layout, &order, i);
            pixels.push(byte);
            i = i + 1;
        }
        proof {
            let view = AtlasView { layout, pixels: pixels@, records: records@ };
            assert(view.pixels =~= texture_of(layout, bitmaps));
            assert(view.records =~= Seq::new(entries.len(), |g: int| record_of(entries, g)));
            assert(is_atlas_of(view, entries, self.config()));
            lemma_atlas_wf(view, entries, self.config());
        }
        let atlas = GlyphAtlas::from_parts(layout, pixels, records);
        (atlas, self.errors)
    }
}

/// What holds of every builder that is in order.
pub proof fn lemma_builder_in_order(builder: &AtlasBuilder)
    requires
        builder.wf(),
    ensures
        builder.config().valid(),
        builder.units_per_em() > 0,
        builder.entries().len() <= 0xffff,
{
}

/// A glyph without contours is no error.
///
/// Where the outline of a glyph of the face is read and has no contours,
/// planning it leaves the errors as they were and enters the glyph without
/// bitmap, with its metrics; and its advance is above zero where the font's
/// is.
pub proof fn lemma_empty_glyph_is_entered(
    before: &AtlasBuilder,
    after: &AtlasBuilder,
    r: Option<GlyphPlan>,
    glyph: u16,
    advance: Option<u16>,
    commands: Seq<PathCommand>,
    reading: OutlineReading,
)
    requires
        before.wf(),
        plan_effect(before, after, r, glyph, advance, commands, reading),
        outline_read(glyph, before.entries().len() as u16, commands, reading) matches Ok(contours)
            && contours.len() == 0,
    ensures
        r is None,
        after.errors() == before.errors(),
        crate::atlas::record_of(after.entries(), glyph as int) matches Some(record)
            && record.slot is None && ((advance is Some && advance->Some_0 > 0)
            ==> record.metrics.advance > 0),
        forall|other: int|
            0 <= other < before.entries().len() && other != glyph ==> after.entries()[other]
                == before.entries()[other],
{
    let count = before.entries().len() as u16;
    let contours = outline_read(glyph, count, commands, reading)->Ok_0;
    crate::glyph::lemma_empty_outline_never_fails(
        before.config(),
        before.units_per_em(),
        glyph,
        count,
        commands,
        reading,
    );
    let frame = plan_frame(contours, before.units_per_em(), before.config())->Some_0;
    crate::glyph::lemma_frame_of_plan(contours, before.units_per_em(), before.config());
    if advance is Some && advance->Some_0 > 0 {
        crate::glyph::lemma_positive_advance_stays_positive(advance->Some_0, contours, frame);
    }
    assert(glyph < count);
}

/// A glyph that fails leaves exactly one error, which names it, and leaves
/// every glyph as it was entered.
pub proof fn lemma_failed_glyph_leaves_one_error(
    before: &AtlasBuilder,
    after: &AtlasBuilder,
    r: Option<GlyphPlan>,
    glyph: u16,
    advance: Option<u16>,
    commands: Seq<PathCommand>,
    reading: OutlineReading,
)
    requires
        plan_effect(before, after, r, glyph, advance, commands, reading),
        plan_fault(
            before.config(),
            before.units_per_em(),
            glyph,
            before.entries().len() as u16,
            commands,
            reading,
        ) is Some,
    ensures
        r is None,
        after.errors().len() == before.errors().len() + 1,
        after.errors().last().glyph_of() == Some(glyph),
        after.errors().drop_last() == before.errors(),
        after.entries() == before.entries(),
{
    assert(after.errors().drop_last() =~= before.errors());
}

/// Planning is repeatable: two builders that hold the same plan the same
/// glyph alike, and hold the same afterwards.
pub proof fn lemma_plan_is_repeatable(
    a_before: &AtlasBuilder,
    a_after: &AtlasBuilder,
    a: Option<GlyphPlan>,
    b_before: &AtlasBuilder,
    b_after: &AtlasBuilder,
    b: Option<GlyphPlan>,
    glyph: u16,
    advance: Option<u16>,
    commands: Seq<PathCommand>,
    reading: OutlineReading,
)
    requires
        plan_effect(a_before, a_after, a, glyph, advance, commands, reading),
        plan_effect(b_before, b_after, b, glyph, advance, commands, reading),
        a_before.config() == b_before.config(),
        a_before.units_per_em() == b_before.units_per_em(),
        a_before.entries() == b_before.entries(),
        a_before.errors() == b_before.errors(),
    ensures
        a_after.config() == b_after.config(),
        a_after.units_per_em() == b_after.units_per_em(),
        a_after.entries() == b_after.entries(),
        a_after.errors() == b_after.errors(),
        a is Some <==> b is Some,
        a is Some ==> {
            &&& a->Some_0.glyph == b->Some_0.glyph
            &&& a->Some_0.frame == b->Some_0.frame
            &&& a->Some_0.metrics == b->Some_0.metrics
            &&& a->Some_0.contours@.len() == b->Some_0.contours@.len()
            &&& forall|k: int|
                0 <= k < a->Some_0.contours@.len() ==> (#[trigger] a->Some_0.contours@[k])@
                    == b->Some_0.contours@[k]@
        },
{
    if a is Some {
        let contours = outline_read(
            glyph,
            a_before.entries().len() as u16,
            commands,
            reading,
        )->Ok_0;
        crate::glyph::lemma_plan_is_determined(
            a->Some_0,
            b->Some_0,
            a_before.config(),
            a_before.units_per_em(),
            glyph,
            advance,
            contours,
        );
    }
}

/// Accepting is repeatable: two builders that hold the same and accept the
/// same distances for plans with the same glyph and metrics hold the same
/// afterwards.
pub proof fn lemma_accept_is_repeatable(
    a_before: &AtlasBuilder,
    a_after: &AtlasBuilder,
    a_ok: bool,
    a_plan: GlyphPlan,
    b_before: &AtlasBuilder,
    b_after: &AtlasBuilder,
    b_ok: bool,
    b_plan: GlyphPlan,
    distances: Seq<i32>,
)
    requires
        accept_effect(a_before, a_after, a_ok, a_plan, distances),
        accept_effect(b_before, b_after, b_ok, b_plan, distances),
        a_plan.glyph == b_plan.glyph,
        a_plan.metrics == b_plan.metrics,
        a_before.config() == b_before.config(),
        a_before.units_per_em() == b_before.units_per_em(),
        a_before.entries() == b_before.entries(),
        a_before.errors() == b_before.errors(),
    ensures
        a_ok == b_ok,
        a_after.config() == b_after.config(),
        a_after.units_per_em() == b_after.units_per_em(),
        a_after.entries() == b_after.entries(),
        a_after.errors() == b_after.errors(),
{
}

/// `order` lists the drawn glyphs by slot.
pub open spec fn is_slot_order(order: Seq<u16>, entries: Seq<Option<GlyphEntry>>) -> bool {
    &&& order.len() == drawn_count(entries)
    &&& forall|k: int|
        0 <= k < order.len() ==> is_drawn(entries, (#[trigger] order[k]) as int) && drawn_before(
            entries,
            order[k] as int,
        ) == k
}

} // verus!
