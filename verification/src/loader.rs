//! Loading a font into an atlas.

use vstd::prelude::*;
use crate::atlas::{GlyphAtlas, is_atlas_of};
use crate::builder::{AtlasBuilder, accept_effect, plan_effect};
use crate::error::MsdfAtlasLoaderError;
use crate::face::{FontFace, advance_units, em_units, glyph_total, is_font_data};
use crate::glyph::{AtlasConfig, GlyphPlan, OutlineReading};
use crate::outline::PathCommand;

verus! {

/// A font face with the atlas of its glyphs.
pub struct MsdfAtlas {
    pub face: FontFace,
    pub atlas: GlyphAtlas,
}

/// Loads fonts into atlases with cells of 32 by 32 pixels and a range of 4
/// pixels.
#[derive(Default)]
pub struct MsdfAtlasLoader;

/// The atlas of one face while it is being made.
pub struct AtlasJob {
    face: FontFace,
    builder: AtlasBuilder,
}

impl AtlasJob {
    /// The job is in order: what [`MsdfAtlasLoader::begin`] hands out is, and
    /// every method keeps it so.
    pub closed spec fn wf(&self) -> bool {
        &&& self.builder.wf()
        &&& self.builder.entries().len() == glyph_total(self.face@)
        &&& self.builder.units_per_em() == em_units(self.face@)
    }

    /// The bytes of the font.
    pub closed spec fn font_data(&self) -> Seq<u8> {
        self.face@
    }

    /// The builder of the atlas.
    pub closed spec fn builder(&self) -> &AtlasBuilder {
        &self.builder
    }

    /// The face that the atlas is made for.
    pub fn face(&self) -> (face: &FontFace)
        ensures
            face@ == self.font_data(),
    {
        &self.face
    }

    /// What holds of every job that is in order: its builder is in order,
    /// and holds the glyph count and the units of the em of the font.
    pub proof fn lemma_in_order(&self)
        requires
            self.wf(),
        ensures
            self.builder().wf(),
            self.builder().entries().len() == glyph_total(self.font_data()),
            self.builder().units_per_em() == em_units(self.font_data()),
    {
    }

    /// The number of glyphs of the face: each glyph id below it is to be
    /// planned once.
    pub fn glyph_count(&self) -> (n: u16)
        requires
            self.wf(),
        ensures
            n == glyph_total(self.font_data()),
            n == self.builder().entries().len(),
    {
        self.builder.glyph_count()
    }

    /// Plans one glyph, as [`AtlasBuilder::plan`] does, with the advance
    /// that the font gives for the glyph.
    pub fn plan(&mut self, glyph: u16, commands: &Vec<PathCommand>, reading: OutlineReading) -> (r: Option<
        GlyphPlan,
    >)
        requires
            old(self).wf(),
        ensures
            final(self).wf(),
            final(self).font_data() == old(self).font_data(),
            plan_effect(
                old(self).builder(),
                final(self).builder(),
                r,
                glyph,
                advance_units(old(self).font_data(), glyph),
                commands@,
                reading,
            ),
    {
        let advance = self.face.advance(glyph);
        self.builder.plan(glyph, advance, commands, reading)
    }

    /// Accepts the distances that were sampled for a plan, as
    /// [`AtlasBuilder::accept`] does.
    pub fn accept(&mut self, plan: &GlyphPlan, distances: &Vec<i32>) -> (ok: bool)
        requires
            old(self).wf(),
        ensures
            final(self).wf(),
            final(self).font_data() == old(self).font_data(),
            accept_effect(old(self).builder(), final(self).builder(), ok, *plan, distances@),
    {
        self.builder.accept(plan, distances)
    }

    /// Packs the atlas, and hands it out with the face and with the errors
    /// of the glyphs that failed.
    pub fn finish(self) -> (r: (MsdfAtlas, Vec<MsdfAtlasLoaderError>))
        requires
            self.wf(),
        ensures
            r.0.face@ == self.font_data(),
            is_atlas_of(r.0.atlas@, self.builder().entries(), self.builder().config()),
            r.0.atlas@.wf(),
            r.1@ == self.builder().errors(),
    {
        let (atlas, errors) = self.builder.finish();
        (MsdfAtlas { face: self.face, atlas }, errors)
    }
}

impl MsdfAtlasLoader {
    /// The configuration of the loader.
    pub open spec fn config() -> AtlasConfig {
        AtlasConfig { cell_width: 32, cell_height: 32, range: 4 }
    }

    /// Parses the bytes of a font and starts the atlas of its first face.
    ///
    /// Bytes that are no font give `FontInvalid`, and no atlas; nothing else
    /// fails here.
    pub fn begin(&self, bytes: Vec<u8>) -> (r: Result<AtlasJob, MsdfAtlasLoaderError>)
        ensures
            r is Ok <==> is_font_data(bytes@),
            r matches Err(e) ==> e is FontInvalid,
            r matches Ok(job) ==> {
                &&& job.wf()
                &&& job.font_data() == bytes@
                &&& job.builder().wf()
                &&& job.builder().config() == Self::config()
                &&& job.builder().units_per_em() == em_units(bytes@)
                &&& 16 <= job.builder().units_per_em() <= 16384
                &&& glyph_total(bytes@) > 0
                &&& job.builder().entries() == Seq::new(
                    glyph_total(bytes@) as nat,
                    |g: int| None::<crate::atlas::GlyphEntry>,
                )
                &&& job.builder().errors() == Seq::<MsdfAtlasLoaderError>::empty()
            },
    {
        let face = match FontFace::parse(bytes) {
            Ok(face) => face,
            Err(e) => {
                return Err(e);
            },
        };
        let config = AtlasConfig { cell_width: 32, cell_height: 32, range: 4 };
        let builder = AtlasBuilder::new(config, face.units_per_em(), face.glyph_count()).unwrap();
        Ok(AtlasJob { face, builder })
    }
}

} // verus!
