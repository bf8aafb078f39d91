//! One glyph's way from path commands to a plan for its bitmap.
//!
//! A glyph is read, decomposed, coloured and framed by itself; nothing is
//! shared between glyphs. A glyph that fails is reported and left out, and
//! a glyph without contours is no failure: it has metrics and draws nothing.

use vstd::prelude::*;
use crate::coloring::{ColoredContour, color_outline, is_outline_coloring, outline_in_range};
use crate::error::MsdfAtlasLoaderError;
use crate::framing::{
    Bounds, Frame, autoframe, bounds_of_points, contour_points, edge_points, em_bounds, em_box,
    frame_of, outline_bounds, outline_points,
};
use crate::geometry::SUBUNITS_PER_UNIT;
use crate::outline::{Edge, Outline, PathCommand, contours_of, decompose};
use crate::packing::MAX_CELL_SIDE;

verus! {

/// Number of metric units in one pixel.
pub const METRIC_UNITS_PER_PIXEL: u64 = 64;

/// The cell that every glyph of an atlas is drawn into, and the reach of the
/// distance field, in pixels.
#[derive(Clone, Copy, Debug, PartialEq, Eq, Structural)]
pub struct AtlasConfig {
    pub cell_width: u32,
    pub cell_height: u32,
    pub range: u32,
}

impl AtlasConfig {
    /// The sides of the cell are between 1 and `MAX_CELL_SIDE`, so that the
    /// cells of every glyph a face can have fit into one texture. The range
    /// is free: where it leaves no room in the cell, no glyph with an outline
    /// can be framed, and each fails by itself.
    pub open spec fn valid(self) -> bool {
        &&& 1 <= self.cell_width <= MAX_CELL_SIDE
        &&& 1 <= self.cell_height <= MAX_CELL_SIDE
    }

    /// Tells whether the configuration can be used.
    pub fn is_valid(&self) -> (b: bool)
        ensures
            b == self.valid(),
    {
        1 <= self.cell_width && self.cell_width <= MAX_CELL_SIDE && 1 <= self.cell_height
            && self.cell_height <= MAX_CELL_SIDE
    }
}

impl Default for AtlasConfig {
    /// Cells of 32 by 32 pixels and a range of 4 pixels.
    fn default() -> (c: AtlasConfig)
        ensures
            c == (AtlasConfig { cell_width: 32, cell_height: 32, range: 4 }),
            c.valid(),
    {
        AtlasConfig { cell_width: 32, cell_height: 32, range: 4 }
    }
}

/// The metrics of a glyph, in metric units: 64 to the pixel of its cell.
///
/// The bearings are rounded down. The advance is rounded up, so that an
/// advance of the font that is above zero stays above zero.
#[derive(Clone, Copy, Debug, PartialEq, Eq, Structural)]
pub struct GlyphMetrics {
    /// The horizontal advance.
    pub advance: u64,
    /// The distance from the origin to the left side of the outline.
    pub bearing_x: i64,
    /// The distance from the baseline to the top of the outline.
    pub bearing_y: i64,
}

/// A length of `value` sub-units in metric units at the scale of a frame,
/// rounded down.
pub open spec fn scaled(value: int, frame: Frame) -> int {
    (value * frame.scale_num * METRIC_UNITS_PER_PIXEL) / (frame.scale_den as int)
}

/// A length of `value` sub-units in metric units at the scale of a frame,
/// rounded up.
pub open spec fn scaled_up(value: int, frame: Frame) -> int {
    (value * frame.scale_num * METRIC_UNITS_PER_PIXEL + (frame.scale_den - 1)) / (
    frame.scale_den as int)
}

/// Scales a length that is not negative from sub-units to metric units,
/// rounding up.
fn scale_length_up(value: i64, frame: &Frame) -> (r: i64)
    requires
        0 <= value <= 0x40_0000,
        0 < frame.scale_den,
        frame.scale_num <= 0xffff_ffff,
    ensures
        r == scaled_up(value as int, *frame),
        r >= 0,
        value > 0 && frame.scale_num > 0 ==> r > 0,
{
    let num: i128 = frame.scale_num as i128;
    let den: i128 = frame.scale_den as i128;
    let v: i128 = value as i128;
    assert(0 <= v * num <= 0x40_0000 * 0xffff_ffff) by (nonlinear_arith)
        requires
            0 <= v <= 0x40_0000,
            0 <= num <= 0xffff_ffff,
    ;
    assert(v > 0 && num > 0 ==> v * num > 0) by (nonlinear_arith);
    let product: i128 = v * num * 64;
    let q: i128 = (product + (den - 1)) / den;
    let ghost p: int = product as int;
    let ghost d: int = den as int;
    let ghost u: int = q as int;
    assert(0 <= u <= p && (p > 0 ==> u > 0)) by (nonlinear_arith)
        requires
            u == (p + (d - 1)) / d,
            p >= 0,
            d > 0,
    ;
    q as i64
}

/// Scales a length from sub-units to metric units, rounding down.
fn scale_length(value: i64, frame: &Frame) -> (r: i64)
    requires
        -0x40_0000 <= value <= 0x40_0000,
        0 < frame.scale_den,
        frame.scale_num <= 0xffff_ffff,
    ensures
        r == scaled(value as int, *frame),
        value >= 0 ==> r >= 0,
{
    let num: i128 = frame.scale_num as i128;
    let den: i128 = frame.scale_den as i128;
    let v: i128 = value as i128;
    assert(-0x40_0000 * 0xffff_ffff <= v * num <= 0x40_0000 * 0xffff_ffff) by (nonlinear_arith)
        requires
            -0x40_0000 <= v <= 0x40_0000,
            0 <= num <= 0xffff_ffff,
    ;
    let product: i128 = v * num * 64;
    if product >= 0 {
        let q: i128 = product / den;
        assert(0 <= q <= product) by (nonlinear_arith)
            requires
                q == product / den,
                product >= 0,
                den > 0,
        ;
        q as i64
    } else {
        let up: i128 = (-product + (den - 1)) / den;
        let ghost p: int = product as int;
        let ghost d: int = den as int;
        let ghost u: int = up as int;
        assert(p / d == -u && 0 <= u <= -p) by (nonlinear_arith)
            requires
                u == (-p + (d - 1)) / d,
                p < 0,
                d > 0,
        ;
        (-up) as i64
    }
}

/// What is to be drawn for one glyph.
#[derive(Clone, Debug, PartialEq, Eq)]
pub struct GlyphPlan {
    /// The glyph.
    pub glyph: u16,
    /// Its contours, each edge with its mask. None for a glyph that draws
    /// nothing.
    pub contours: Vec<ColoredContour>,
    /// Where the outline sits in the cell.
    pub frame: Frame,
    /// Its metrics, at the scale of the frame.
    pub metrics: GlyphMetrics,
}

/// What the reader of a face says of the outline of one glyph.
#[derive(Clone, Copy, Debug, PartialEq, Eq, Structural)]
pub enum OutlineReading {
    /// The outline was read, and the commands are the whole of it.
    Outline,
    /// The glyph has no outline: the font describes it without contours.
    Empty,
    /// The description of the glyph could not be read.
    Unreadable,
}

impl OutlineReading {
    /// What is to be made of a glyph for which the face reports no outline
    /// and hands out nothing, by the box that the font declares for it: a
    /// glyph with a box that has an area was to have an outline and could
    /// not be read; a glyph without box, or with a box without area, has
    /// none.
    pub open spec fn of_silence(declared: Option<Bounds>) -> OutlineReading {
        match declared {
            Some(b) => if b.width() > 0 && b.height() > 0 {
                OutlineReading::Unreadable
            } else {
                OutlineReading::Empty
            },
            None => OutlineReading::Empty,
        }
    }

    /// What the outcome of reading a glyph means: an outline that the face
    /// reports is the outline; commands without a reported outline are a
    /// reading that broke off; and silence means what the declared box says.
    pub open spec fn of_report(outlined: bool, emitted: bool, declared: Option<Bounds>) -> OutlineReading {
        if outlined {
            OutlineReading::Outline
        } else if emitted {
            OutlineReading::Unreadable
        } else {
            Self::of_silence(declared)
        }
    }

    /// Tells what the outcome of reading a glyph means: `outlined` where the
    /// face reported an outline, `emitted` where it handed out a command,
    /// and `declared` the box that the font declares for the glyph, if any.
    pub fn report(outlined: bool, emitted: bool, declared: Option<Bounds>) -> (r: OutlineReading)
        ensures
            r == Self::of_report(outlined, emitted, declared),
    {
        if outlined {
            OutlineReading::Outline
        } else if emitted {
            OutlineReading::Unreadable
        } else {
            Self::silent(declared)
        }
    }

    /// Tells what is to be made of a glyph for which the face reports no
    /// outline and hands out nothing, by the box that the font declares.
    pub fn silent(declared: Option<Bounds>) -> (r: OutlineReading)
        ensures
            r == Self::of_silence(declared),
    {
        match declared {
            Some(b) => if b.x_max > b.x_min && b.y_max > b.y_min {
                OutlineReading::Unreadable
            } else {
                OutlineReading::Empty
            },
            None => OutlineReading::Empty,
        }
    }
}

/// The outline of a glyph as read from a face.
///
/// The shape cannot be read where the glyph is none of the face, where the
/// reader says so, where the reader calls the glyph empty and yet hands out
/// commands, and where the commands are no outline.
pub open spec fn outline_read(
    glyph: u16,
    glyph_count: u16,
    commands: Seq<PathCommand>,
    reading: OutlineReading,
) -> Result<Seq<Seq<Edge>>, MsdfAtlasLoaderError> {
    if glyph >= glyph_count {
        Err(MsdfAtlasLoaderError::GlyphShape(glyph))
    } else if reading == OutlineReading::Unreadable {
        Err(MsdfAtlasLoaderError::GlyphShape(glyph))
    } else if reading == OutlineReading::Empty && commands.len() > 0 {
        Err(MsdfAtlasLoaderError::GlyphShape(glyph))
    } else {
        match contours_of(commands) {
            Ok(contours) => Ok(contours),
            Err(_) => Err(MsdfAtlasLoaderError::GlyphShape(glyph)),
        }
    }
}

/// Reads the outline of a glyph from the commands that a face handed out.
///
/// The glyph's shape cannot be read, and `GlyphShape` with the glyph is the
/// error, where the glyph is not below the glyph count, where the reader
/// could not read its description, where the reader calls it empty and yet
/// hands out commands, or where the commands are no outline. A glyph that
/// the reader calls empty has the empty outline.
pub fn read_outline(
    glyph: u16,
    glyph_count: u16,
    commands: &Vec<PathCommand>,
    reading: OutlineReading,
) -> (r: Result<Outline, MsdfAtlasLoaderError>)
    ensures
        match r {
            Ok(o) => outline_read(glyph, glyph_count, commands@, reading) == Ok::<
                Seq<Seq<Edge>>,
                MsdfAtlasLoaderError,
            >(o@) && o.wf(),
            Err(e) => outline_read(glyph, glyph_count, commands@, reading) == Err::<
                Seq<Seq<Edge>>,
                MsdfAtlasLoaderError,
            >(e),
        },
{
    if glyph >= glyph_count {
        return Err(MsdfAtlasLoaderError::GlyphShape(glyph));
    }
    match reading {
        OutlineReading::Unreadable => {
            return Err(MsdfAtlasLoaderError::GlyphShape(glyph));
        },
        OutlineReading::Empty => {
            if commands.len() > 0 {
                return Err(MsdfAtlasLoaderError::GlyphShape(glyph));
            }
        },
        OutlineReading::Outline => {},
    }
    match decompose(commands) {
        Ok(outline) => Ok(outline),
        Err(_) => Err(MsdfAtlasLoaderError::GlyphShape(glyph)),
    }
}


/// The box that a glyph is framed by: the bounding box of its outline, or the
/// em square where it has no outline.
pub open spec fn plan_box(contours: Seq<Seq<Edge>>, units_per_em: u16) -> Bounds {
    match bounds_of_points(outline_points(contours)) {
        Some(b) => b,
        None => em_box(units_per_em),
    }
}

/// The frame of a glyph: that of the bounding box of its outline in the cell
/// at the range. A glyph without outline is framed as the em square is, at
/// the range where that leaves room in the cell, and without margins where
/// it does not: it draws nothing, and needs a scale for its advance only.
pub open spec fn plan_frame(contours: Seq<Seq<Edge>>, units_per_em: u16, config: AtlasConfig) -> Option<
    Frame,
> {
    match bounds_of_points(outline_points(contours)) {
        Some(b) => frame_of(b, config.cell_width, config.cell_height, config.range),
        None => match frame_of(
            em_box(units_per_em),
            config.cell_width,
            config.cell_height,
            config.range,
        ) {
            Some(f) => Some(f),
            None => frame_of(em_box(units_per_em), config.cell_width, config.cell_height, 0),
        },
    }
}

/// The metrics of a glyph at the scale of its frame. A glyph for which the
/// font gives no advance has none, and a glyph without outline has no
/// bearings.
pub open spec fn metrics_of(advance: Option<u16>, contours: Seq<Seq<Edge>>, frame: Frame) -> GlyphMetrics {
    let units: int = match advance {
        Some(a) => a as int,
        None => 0,
    };
    GlyphMetrics {
        advance: scaled_up(units * SUBUNITS_PER_UNIT, frame) as u64,
        bearing_x: match bounds_of_points(outline_points(contours)) {
            Some(b) => scaled(b.x_min as int, frame) as i64,
            None => 0,
        },
        bearing_y: match bounds_of_points(outline_points(contours)) {
            Some(b) => scaled(b.y_max as int, frame) as i64,
            None => 0,
        },
    }
}

/// Why a glyph cannot be planned, if it cannot: its shape cannot be read, or
/// it cannot be framed.
pub open spec fn plan_fault(
    config: AtlasConfig,
    units_per_em: u16,
    glyph: u16,
    glyph_count: u16,
    commands: Seq<PathCommand>,
    reading: OutlineReading,
) -> Option<MsdfAtlasLoaderError> {
    match outline_read(glyph, glyph_count, commands, reading) {
        Err(e) => Some(e),
        Ok(contours) => match plan_frame(contours, units_per_em, config) {
            None => Some(
                MsdfAtlasLoaderError::AutoFraming {
                    glyph,
                    width: config.cell_width as usize,
                    height: config.cell_height as usize,
                    range: config.range,
                },
            ),
            Some(_) => None,
        },
    }
}

/// `plan` is the plan of the glyph with the given contours.
pub open spec fn is_plan_of(
    plan: GlyphPlan,
    config: AtlasConfig,
    units_per_em: u16,
    glyph: u16,
    advance: Option<u16>,
    contours: Seq<Seq<Edge>>,
) -> bool {
    &&& plan.glyph == glyph
    &&& is_outline_coloring(plan.contours@, contours)
    &&& Some(plan.frame) == plan_frame(contours, units_per_em, config)
    &&& plan.frame.encloses(plan_box(contours, units_per_em))
    &&& plan.frame.scale_num > 0
    &&& plan.metrics == metrics_of(advance, contours, plan.frame)
    &&& (advance is Some && advance->Some_0 > 0) ==> plan.metrics.advance > 0
}

proof fn lemma_contour_points_in_range(edges: Seq<Edge>)
    requires
        forall|i: int| 0 <= i < edges.len() ==> (#[trigger] edges[i]).in_range(),
    ensures
        forall|j: int|
            0 <= j < contour_points(edges).len() ==> (#[trigger] contour_points(edges)[j]).in_range(),
    decreases edges.len(),
{
    if edges.len() > 0 {
        let rest = edges.drop_last();
        assert forall|i: int| 0 <= i < rest.len() implies (#[trigger] rest[i]).in_range() by {
            assert(rest[i] == edges[i]);
        }
        lemma_contour_points_in_range(rest);
        let head = contour_points(rest);
        let tail = edge_points(edges.last());
        assert(edges.last().in_range());
        assert forall|j: int| 0 <= j < contour_points(edges).len() implies (
        #[trigger] contour_points(edges)[j]).in_range() by {
            if j < head.len() {
                assert(contour_points(edges)[j] == head[j]);
            } else {
                assert(contour_points(edges)[j] == tail[j - head.len()]);
            }
        }
    }
}

proof fn lemma_outline_points_in_range(outline: Seq<Seq<Edge>>)
    requires
        outline_in_range(outline),
    ensures
        forall|j: int|
            0 <= j < outline_points(outline).len() ==> (#[trigger] outline_points(outline)[j]).in_range(),
    decreases outline.len(),
{
    if outline.len() > 0 {
        let rest = outline.drop_last();
        assert(outline_in_range(rest)) by {
            assert forall|k: int, i: int|
                0 <= k < rest.len() && 0 <= i < rest[k].len() implies (#[trigger] rest[k][i]).in_range() by {
                assert(rest[k] == outline[k]);
                assert(outline[k][i].in_range());
            }
        }
        lemma_outline_points_in_range(rest);
        let last = outline.last();
        assert forall|i: int| 0 <= i < last.len() implies (#[trigger] last[i]).in_range() by {
            assert(outline[outline.len() - 1][i].in_range());
        }
        lemma_contour_points_in_range(last);
        let head = outline_points(rest);
        let tail = contour_points(last);
        assert forall|j: int| 0 <= j < outline_points(outline).len() implies (
        #[trigger] outline_points(outline)[j]).in_range() by {
            if j < head.len() {
                assert(outline_points(outline)[j] == head[j]);
            } else {
                assert(outline_points(outline)[j] == tail[j - head.len()]);
            }
        }
    }
}

/// Plans one glyph: reads its outline, colours it, frames it, and scales its
/// metrics.
///
/// `advance` is the glyph's horizontal advance in design units, where the
/// font gives one. A glyph without contours is framed as the em square is,
/// and its plan has no contours.
///
/// The error is `GlyphShape` where the outline cannot be read, as
/// [`read_outline`] says, and `AutoFraming` where the box of the outline has
/// no width or no height, or where the cell leaves no room between margins
/// of the range. A glyph without contours fails only where the cell or the
/// em has no side at all.
pub fn plan_glyph(
    config: &AtlasConfig,
    units_per_em: u16,
    glyph: u16,
    glyph_count: u16,
    advance: Option<u16>,
    commands: &Vec<PathCommand>,
    reading: OutlineReading,
) -> (r: Result<GlyphPlan, MsdfAtlasLoaderError>)
    ensures
        match r {
            Ok(plan) => {
                &&& plan_fault(*config, units_per_em, glyph, glyph_count, commands@, reading)
                    is None
                &&& outline_read(glyph, glyph_count, commands@, reading) matches Ok(contours)
                &&& is_plan_of(plan, *config, units_per_em, glyph, advance, contours)
            },
            Err(e) => plan_fault(*config, units_per_em, glyph, glyph_count, commands@, reading)
                == Some(e),
        },
{
    let outline = match read_outline(glyph, glyph_count, commands, reading) {
        Ok(outline) => outline,
        Err(e) => {
            return Err(e);
        },
    };
    assert(outline_in_range(outline@)) by {
        assert forall|k: int, i: int|
            0 <= k < outline@.len() && 0 <= i < outline@[k].len() implies (
            #[trigger] outline@[k][i]).in_range() by {
            assert(crate::outline::contour_wf(outline@[k]));
        }
    }
    let found = outline_bounds(&outline);
    let bounds = match found {
        Some(b) => b,
        None => em_bounds(units_per_em),
    };
    let mut framed = autoframe(&bounds, config.cell_width, config.cell_height, config.range);
    if found.is_none() && framed.is_none() {
        framed = autoframe(&bounds, config.cell_width, config.cell_height, 0);
    }
    let frame = match framed {
        Some(frame) => frame,
        None => {
            return Err(
                MsdfAtlasLoaderError::AutoFraming {
                    glyph,
                    width: config.cell_width as usize,
                    height: config.cell_height as usize,
                    range: config.range,
                },
            );
        },
    };
    let units: i64 = match advance {
        Some(a) => a as i64,
        None => 0,
    };
    let advance_scaled: i64 = scale_length_up(units * (SUBUNITS_PER_UNIT as i64), &frame);
    proof {
        lemma_outline_points_in_range(outline@);
    }
    let (bearing_x, bearing_y): (i64, i64) = match found {
        Some(b) => {
            proof {
                let points = outline_points(outline@);
                let jx = choose|j: int| 0 <= j < points.len() && (#[trigger] points[j]).x == b.x_min;
                let jy = choose|j: int| 0 <= j < points.len() && (#[trigger] points[j]).y == b.y_max;
                assert(points[jx].in_range());
                assert(points[jy].in_range());
            }
            (scale_length(b.x_min as i64, &frame), scale_length(b.y_max as i64, &frame))
        },
        None => (0, 0),
    };
    let contours = color_outline(&outline);
    Ok(
        GlyphPlan {
            glyph,
            contours,
            frame,
            metrics: GlyphMetrics { advance: advance_scaled as u64, bearing_x, bearing_y },
        },
    )
}


/// A glyph without contours never fails: with a valid configuration and an
/// em of at least one unit, a glyph whose outline is read and is empty has a
/// plan.
pub proof fn lemma_empty_outline_never_fails(
    config: AtlasConfig,
    units_per_em: u16,
    glyph: u16,
    glyph_count: u16,
    commands: Seq<PathCommand>,
    reading: OutlineReading,
)
    requires
        config.valid(),
        units_per_em > 0,
        outline_read(glyph, glyph_count, commands, reading) matches Ok(contours) && contours.len()
            == 0,
    ensures
        plan_fault(config, units_per_em, glyph, glyph_count, commands, reading) is None,
{
    let contours = outline_read(glyph, glyph_count, commands, reading)->Ok_0;
    assert(outline_points(contours).len() == 0);
    assert(bounds_of_points(outline_points(contours)) is None);
    assert(em_box(units_per_em).width() == units_per_em * SUBUNITS_PER_UNIT);
    assert(em_box(units_per_em).height() == units_per_em * SUBUNITS_PER_UNIT);
    assert(frame_of(em_box(units_per_em), config.cell_width, config.cell_height, 0) is Some);
}

/// An advance above zero stays above zero at every scale above zero.
pub proof fn lemma_positive_advance_stays_positive(
    advance: u16,
    contours: Seq<Seq<Edge>>,
    frame: Frame,
)
    requires
        advance > 0,
        0 < frame.scale_num <= 0xffff_ffff,
        0 < frame.scale_den,
    ensures
        metrics_of(Some(advance), contours, frame).advance > 0,
        metrics_of(Some(advance), contours, frame).advance == scaled_up(
            advance * SUBUNITS_PER_UNIT,
            frame,
        ),
{
    let v = (advance * SUBUNITS_PER_UNIT) as int;
    let num = frame.scale_num as int;
    let den = frame.scale_den as int;
    assert(0 < v * num <= 0x40_0000 * 0xffff_ffff) by (nonlinear_arith)
        requires
            0 < v <= 0x40_0000,
            0 < num <= 0xffff_ffff,
    ;
    let product = v * num * 64;
    assert(0 < (product + (den - 1)) / den <= product) by (nonlinear_arith)
        requires
            product > 0,
            den > 0,
    ;
}

/// A glyph whose outline has points but no width or no height cannot be
/// framed, and fails with `AutoFraming`.
pub proof fn lemma_flat_outline_fails(
    config: AtlasConfig,
    units_per_em: u16,
    glyph: u16,
    glyph_count: u16,
    commands: Seq<PathCommand>,
    reading: OutlineReading,
)
    requires
        outline_read(glyph, glyph_count, commands, reading) matches Ok(contours)
            && bounds_of_points(outline_points(contours)) matches Some(b) && (b.width() == 0
            || b.height() == 0),
    ensures
        plan_fault(config, units_per_em, glyph, glyph_count, commands, reading) == Some(
            MsdfAtlasLoaderError::AutoFraming {
                glyph,
                width: config.cell_width as usize,
                height: config.cell_height as usize,
                range: config.range,
            },
        ),
{
}


/// The contours of a glyph decide its plan: two plans of the same glyph have
/// the same frame, the same metrics, the same edges and the same masks.
pub proof fn lemma_plan_is_determined(
    a: GlyphPlan,
    b: GlyphPlan,
    config: AtlasConfig,
    units_per_em: u16,
    glyph: u16,
    advance: Option<u16>,
    contours: Seq<Seq<Edge>>,
)
    requires
        is_plan_of(a, config, units_per_em, glyph, advance, contours),
        is_plan_of(b, config, units_per_em, glyph, advance, contours),
    ensures
        a.glyph == b.glyph,
        a.frame == b.frame,
        a.metrics == b.metrics,
        a.contours@.len() == b.contours@.len(),
        forall|k: int| 0 <= k < a.contours@.len() ==> (#[trigger] a.contours@[k])@ == b.contours@[k]@,
{
    assert forall|k: int| 0 <= k < a.contours@.len() implies (#[trigger] a.contours@[k])@
        == b.contours@[k]@ by {
        let x = a.contours@[k]@;
        let y = b.contours@[k]@;
        assert(crate::coloring::is_coloring_of(x, contours[k]));
        assert(crate::coloring::is_coloring_of(y, contours[k]));
        if contours[k].len() != 1 {
            assert forall|i: int| 0 <= i < x.len() implies x[i] == y[i] by {
                assert(x[i].edge == contours[k][i] && y[i].edge == contours[k][i]);
            }
        }
        assert(x =~= y);
    }
}


/// The frame of a plan has a scale above zero, made of numbers that fit 32
/// bits.
pub proof fn lemma_frame_of_plan(contours: Seq<Seq<Edge>>, units_per_em: u16, config: AtlasConfig)
    requires
        plan_frame(contours, units_per_em, config) is Some,
    ensures
        0 < plan_frame(contours, units_per_em, config)->Some_0.scale_num <= 0xffff_ffff,
        0 < plan_frame(contours, units_per_em, config)->Some_0.scale_den <= 0xffff_ffff,
{
    let f = plan_frame(contours, units_per_em, config)->Some_0;
    match bounds_of_points(outline_points(contours)) {
        Some(b) => {
            crate::framing::lemma_frame_encloses(
                b,
                config.cell_width,
                config.cell_height,
                config.range,
            );
        },
        None => {
            if frame_of(em_box(units_per_em), config.cell_width, config.cell_height, config.range)
                is Some {
                crate::framing::lemma_frame_encloses(
                    em_box(units_per_em),
                    config.cell_width,
                    config.cell_height,
                    config.range,
                );
            } else {
                crate::framing::lemma_frame_encloses(
                    em_box(units_per_em),
                    config.cell_width,
                    config.cell_height,
                    0,
                );
            }
        },
    }
}

} // verus!
