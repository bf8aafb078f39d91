//! A whole run: every glyph of a face, one after the other.
//!
//! The steps of a run are taken by the caller, who reads the path of each
//! glyph and samples the field of each plan. What a run comes to is said
//! here, over what the caller handed in for each glyph: which glyphs are
//! entered, and which errors are left, in which order.

use vstd::prelude::*;
use crate::atlas::{AtlasView, GlyphEntry, is_atlas_of, is_drawn, lemma_atlas_wf, record_of};
use crate::bitmap::CHANNELS;
use crate::builder::{AtlasBuilder, accept_effect, encoded_all, plan_effect};
use crate::error::MsdfAtlasLoaderError;
use crate::glyph::{
    AtlasConfig, GlyphPlan, OutlineReading, lemma_empty_outline_never_fails, metrics_of,
    outline_read, plan_fault, plan_frame,
};
use crate::outline::PathCommand;
use crate::packing::lemma_slot_in_texture;

verus! {

/// What the caller hands in for one glyph: the advance of the font, the path
/// as it was read, what the reader made of it, and the distances that were
/// sampled for the plan, if one came back.
pub struct GlyphInput {
    pub advance: Option<u16>,
    pub commands: Seq<PathCommand>,
    pub reading: OutlineReading,
    pub distances: Seq<i32>,
}

/// What a builder holds: the glyphs that are entered and the errors that are
/// left.
pub struct RunState {
    pub entries: Seq<Option<GlyphEntry>>,
    pub errors: Seq<MsdfAtlasLoaderError>,
}

/// What a builder holds.
pub open spec fn state_of(builder: &AtlasBuilder) -> RunState {
    RunState { entries: builder.entries(), errors: builder.errors() }
}

/// The contours of a glyph whose outline is read.
pub open spec fn contours_in(glyph: u16, count: u16, input: GlyphInput) -> Seq<Seq<crate::outline::Edge>> {
    outline_read(glyph, count, input.commands, input.reading)->Ok_0
}

/// Why a glyph fails, if it does: it cannot be planned, or the distances
/// for its plan do not fill the cell.
pub open spec fn glyph_fault(
    config: AtlasConfig,
    units_per_em: u16,
    count: u16,
    glyph: u16,
    input: GlyphInput,
) -> Option<MsdfAtlasLoaderError> {
    match plan_fault(config, units_per_em, glyph, count, input.commands, input.reading) {
        Some(e) => Some(e),
        None => if contours_in(glyph, count, input).len() > 0 && input.distances.len()
            != config.cell_width * config.cell_height * CHANNELS {
            Some(MsdfAtlasLoaderError::GlyphShape(glyph))
        } else {
            None
        },
    }
}

/// What is entered for a glyph that does not fail: its metrics, and the
/// bitmap of its distances unless it has no contours.
pub open spec fn glyph_entry(
    config: AtlasConfig,
    units_per_em: u16,
    count: u16,
    glyph: u16,
    input: GlyphInput,
) -> GlyphEntry {
    GlyphEntry {
        metrics: metrics_of(
            input.advance,
            contours_in(glyph, count, input),
            plan_frame(contours_in(glyph, count, input), units_per_em, config)->Some_0,
        ),
        bitmap: if contours_in(glyph, count, input).len() == 0 {
            None
        } else {
            Some(encoded_all(input.distances, config.range))
        },
    }
}

/// The state after one glyph is planned and, where a plan came back, its
/// distances are accepted.
pub open spec fn after_glyph(
    config: AtlasConfig,
    units_per_em: u16,
    state: RunState,
    glyph: u16,
    input: GlyphInput,
) -> RunState {
    match glyph_fault(config, units_per_em, state.entries.len() as u16, glyph, input) {
        Some(e) => RunState { entries: state.entries, errors: state.errors.push(e) },
        None => RunState {
            entries: state.entries.update(
                glyph as int,
                Some(glyph_entry(config, units_per_em, state.entries.len() as u16, glyph, input)),
            ),
            errors: state.errors,
        },
    }
}

/// One step of a run does what `after_glyph` says: the glyph is planned, and
/// where a plan comes back its distances are accepted.
pub proof fn lemma_step(
    before: &AtlasBuilder,
    planned: &AtlasBuilder,
    after: &AtlasBuilder,
    plan: Option<GlyphPlan>,
    ok: bool,
    glyph: u16,
    input: GlyphInput,
)
    requires
        before.entries().len() <= 0xffff,
        plan_effect(before, planned, plan, glyph, input.advance, input.commands, input.reading),
        plan is Some ==> accept_effect(planned, after, ok, plan->Some_0, input.distances),
        plan is None ==> state_of(after) == state_of(planned),
    ensures
        state_of(after) == after_glyph(
            before.config(),
            before.units_per_em(),
            state_of(before),
            glyph,
            input,
        ),
        plan is Some ==> (ok <==> glyph_fault(
            before.config(),
            before.units_per_em(),
            before.entries().len() as u16,
            glyph,
            input,
        ) is None),
{
}

/// The state after the first `n` glyphs of a face of `count` glyphs, each
/// taken once, in the order of their ids.
pub open spec fn run(
    config: AtlasConfig,
    units_per_em: u16,
    count: u16,
    inputs: Seq<GlyphInput>,
    n: int,
) -> RunState
    decreases n,
{
    if n <= 0 {
        RunState {
            entries: Seq::new(count as nat, |g: int| None::<GlyphEntry>),
            errors: Seq::empty(),
        }
    } else {
        after_glyph(
            config,
            units_per_em,
            run(config, units_per_em, count, inputs, n - 1),
            (n - 1) as u16,
            inputs[n - 1],
        )
    }
}

/// The errors of the glyphs below `n` that fail, in the order of their ids.
pub open spec fn faults(
    config: AtlasConfig,
    units_per_em: u16,
    count: u16,
    inputs: Seq<GlyphInput>,
    n: int,
) -> Seq<MsdfAtlasLoaderError>
    decreases n,
{
    if n <= 0 {
        Seq::empty()
    } else {
        match glyph_fault(config, units_per_em, count, (n - 1) as u16, inputs[n - 1]) {
            Some(e) => faults(config, units_per_em, count, inputs, n - 1).push(e),
            None => faults(config, units_per_em, count, inputs, n - 1),
        }
    }
}

/// The error of a glyph names the glyph.
pub proof fn lemma_fault_names_glyph(
    config: AtlasConfig,
    units_per_em: u16,
    count: u16,
    glyph: u16,
    input: GlyphInput,
)
    requires
        glyph_fault(config, units_per_em, count, glyph, input) is Some,
    ensures
        glyph_fault(config, units_per_em, count, glyph, input)->Some_0.glyph_of() == Some(glyph),
{
}

/// What a run comes to: the errors are those of the glyphs that fail, one
/// for each, in the order of the glyph ids; every glyph that does not fail
/// is entered, and no other.
pub proof fn lemma_run(
    config: AtlasConfig,
    units_per_em: u16,
    count: u16,
    inputs: Seq<GlyphInput>,
    n: int,
)
    requires
        0 <= n <= count,
        inputs.len() == count,
    ensures
        run(config, units_per_em, count, inputs, n).entries.len() == count,
        run(config, units_per_em, count, inputs, n).errors == faults(
            config,
            units_per_em,
            count,
            inputs,
            n,
        ),
        forall|g: int|
            0 <= g < count ==> #[trigger] run(config, units_per_em, count, inputs, n).entries[g]
                == if g < n && glyph_fault(config, units_per_em, count, g as u16, inputs[g])
                is None {
                Some(glyph_entry(config, units_per_em, count, g as u16, inputs[g]))
            } else {
                None
            },
    decreases n,
{
    if n > 0 {
        lemma_run(config, units_per_em, count, inputs, n - 1);
    }
}

/// One glyph that fails leaves one error, which names it, and every other
/// glyph in the atlas.
///
/// Where exactly one glyph of a face fails, the errors of the run are the
/// error of that glyph alone; that glyph is not entered, and every other
/// glyph is.
pub proof fn lemma_one_bad_glyph(
    config: AtlasConfig,
    units_per_em: u16,
    count: u16,
    inputs: Seq<GlyphInput>,
    bad: int,
)
    requires
        inputs.len() == count,
        0 <= bad < count,
        glyph_fault(config, units_per_em, count, bad as u16, inputs[bad]) is Some,
        forall|g: int|
            0 <= g < count && g != bad ==> #[trigger] glyph_fault(
                config,
                units_per_em,
                count,
                g as u16,
                inputs[g],
            ) is None,
    ensures
        run(config, units_per_em, count, inputs, count as int).errors == seq![
            glyph_fault(config, units_per_em, count, bad as u16, inputs[bad])->Some_0,
        ],
        run(config, units_per_em, count, inputs, count as int).errors[0].glyph_of() == Some(
            bad as u16,
        ),
        run(config, units_per_em, count, inputs, count as int).entries[bad] is None,
        forall|g: int|
            0 <= g < count && g != bad ==> #[trigger] run(
                config,
                units_per_em,
                count,
                inputs,
                count as int,
            ).entries[g] == Some(glyph_entry(config, units_per_em, count, g as u16, inputs[g])),
{
    lemma_run(config, units_per_em, count, inputs, count as int);
    lemma_faults_of_one(config, units_per_em, count, inputs, bad, count as int);
    lemma_fault_names_glyph(config, units_per_em, count, bad as u16, inputs[bad]);
}

proof fn lemma_faults_of_one(
    config: AtlasConfig,
    units_per_em: u16,
    count: u16,
    inputs: Seq<GlyphInput>,
    bad: int,
    n: int,
)
    requires
        inputs.len() == count,
        0 <= bad < count,
        0 <= n <= count,
        glyph_fault(config, units_per_em, count, bad as u16, inputs[bad]) is Some,
        forall|g: int|
            0 <= g < count && g != bad ==> #[trigger] glyph_fault(
                config,
                units_per_em,
                count,
                g as u16,
                inputs[g],
            ) is None,
    ensures
        faults(config, units_per_em, count, inputs, n) == if n > bad {
            seq![glyph_fault(config, units_per_em, count, bad as u16, inputs[bad])->Some_0]
        } else {
            Seq::empty()
        },
    decreases n,
{
    if n > 0 {
        lemma_faults_of_one(config, units_per_em, count, inputs, bad, n - 1);
        if n - 1 != bad {
            assert(glyph_fault(config, units_per_em, count, (n - 1) as u16, inputs[n - 1]) is None);
        } else {
            assert(faults(config, units_per_em, count, inputs, n) =~= seq![
                glyph_fault(config, units_per_em, count, bad as u16, inputs[bad])->Some_0,
            ]);
        }
    }
}

/// A glyph without contours is no error in any run: with a valid
/// configuration and an em of a unit or more, a glyph of the face whose outline
/// is read and is empty does not fail, and is entered without bitmap.
pub proof fn lemma_empty_glyph_in_run(
    config: AtlasConfig,
    units_per_em: u16,
    count: u16,
    inputs: Seq<GlyphInput>,
    glyph: int,
)
    requires
        config.valid(),
        units_per_em > 0,
        inputs.len() == count,
        0 <= glyph < count,
        outline_read(glyph as u16, count, inputs[glyph].commands, inputs[glyph].reading) matches Ok(
            contours,
        ) && contours.len() == 0,
    ensures
        glyph_fault(config, units_per_em, count, glyph as u16, inputs[glyph]) is None,
        run(config, units_per_em, count, inputs, count as int).entries[glyph] matches Some(entry)
            && entry.bitmap is None && ((inputs[glyph].advance is Some
            && inputs[glyph].advance->Some_0 > 0) ==> entry.metrics.advance > 0),
{
    let input = inputs[glyph];
    lemma_empty_outline_never_fails(
        config,
        units_per_em,
        glyph as u16,
        count,
        input.commands,
        input.reading,
    );
    lemma_run(config, units_per_em, count, inputs, count as int);
    let contours = contours_in(glyph as u16, count, input);
    crate::glyph::lemma_frame_of_plan(contours, units_per_em, config);
    if input.advance is Some && input.advance->Some_0 > 0 {
        crate::glyph::lemma_positive_advance_stays_positive(
            input.advance->Some_0,
            contours,
            plan_frame(contours, units_per_em, config)->Some_0,
        );
    }
}

/// In the atlas of what was handed in, a glyph that was entered has its
/// metrics; a glyph that was entered with a bitmap has a rectangle of the
/// size of a cell within the texture; and a glyph that was entered without
/// bitmap, or not at all, has none.
pub proof fn lemma_glyph_in_atlas(
    atlas: AtlasView,
    entries: Seq<Option<GlyphEntry>>,
    config: AtlasConfig,
    glyph: u16,
)
    requires
        is_atlas_of(atlas, entries, config),
        entries.len() <= 0x10000,
        config.valid(),
    ensures
        atlas.wf(),
        atlas.metrics_of(glyph) == (if glyph < entries.len() && entries[glyph as int] is Some {
            Some(entries[glyph as int]->Some_0.metrics)
        } else {
            None
        }),
        atlas.rect_of(glyph) is Some <==> is_drawn(entries, glyph as int),
        atlas.rect_of(glyph) matches Some(rect) ==> rect.width == config.cell_width && rect.height
            == config.cell_height && rect.width > 0 && rect.height > 0 && rect.x + rect.width
            <= atlas.layout.width && rect.y + rect.height <= atlas.layout.height,
{
    lemma_atlas_wf(atlas, entries, config);
    if glyph < entries.len() {
        assert(atlas.records[glyph as int] == record_of(entries, glyph as int));
    }
    if atlas.rect_of(glyph) is Some {
        let k = atlas.slot_of(glyph)->Some_0;
        lemma_slot_in_texture(atlas.layout, k as int);
    }
}


/// The atlas of a whole run, glyph by glyph.
///
/// A glyph that fails has no metrics and no rectangle. A glyph that does not
/// fail has its metrics; it has a rectangle with sides above zero where it
/// has contours, and none where it has not.
pub proof fn lemma_atlas_of_run(
    atlas: AtlasView,
    config: AtlasConfig,
    units_per_em: u16,
    count: u16,
    inputs: Seq<GlyphInput>,
    glyph: u16,
)
    requires
        config.valid(),
        inputs.len() == count,
        glyph < count,
        is_atlas_of(atlas, run(config, units_per_em, count, inputs, count as int).entries, config),
    ensures
        glyph_fault(config, units_per_em, count, glyph, inputs[glyph as int]) is Some ==> {
            &&& atlas.metrics_of(glyph) is None
            &&& atlas.rect_of(glyph) is None
        },
        glyph_fault(config, units_per_em, count, glyph, inputs[glyph as int]) is None ==> {
            &&& atlas.metrics_of(glyph) == Some(
                glyph_entry(config, units_per_em, count, glyph, inputs[glyph as int]).metrics,
            )
            &&& atlas.rect_of(glyph) is Some <==> contours_in(
                glyph,
                count,
                inputs[glyph as int],
            ).len() > 0
            &&& atlas.rect_of(glyph) matches Some(rect) ==> rect.width > 0 && rect.height > 0
        },
{
    let entries = run(config, units_per_em, count, inputs, count as int).entries;
    lemma_run(config, units_per_em, count, inputs, count as int);
    lemma_glyph_in_atlas(atlas, entries, config, glyph);
    assert(entries[glyph as int] == if glyph_fault(
        config,
        units_per_em,
        count,
        glyph,
        inputs[glyph as int],
    ) is None {
        Some(glyph_entry(config, units_per_em, count, glyph, inputs[glyph as int]))
    } else {
        None
    });
}

} // verus!
