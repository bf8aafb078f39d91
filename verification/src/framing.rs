//! Framing: the scale and the margins that place a glyph inside its cell.
//!
//! A frame maps glyph coordinates, in sub-units, to pixels. The scale is the
//! fraction `num / den` of pixels per sub-unit, the same along both axes, and
//! positions are kept as numerators over `den` so that nothing is rounded but
//! the centring, by less than one part in `den` of a pixel.

use vstd::prelude::*;
use crate::geometry::{Point, SUBUNITS_PER_UNIT};
use crate::outline::{Edge, Outline};

verus! {

/// The bounding box of an outline's points, in sub-units.
#[derive(Clone, Copy, Debug, PartialEq, Eq, Structural)]
pub struct Bounds {
    pub x_min: i32,
    pub y_min: i32,
    pub x_max: i32,
    pub y_max: i32,
}

impl Bounds {
    pub open spec fn width(self) -> int {
        self.x_max - self.x_min
    }

    pub open spec fn height(self) -> int {
        self.y_max - self.y_min
    }

    pub open spec fn contains(self, p: Point) -> bool {
        &&& self.x_min <= p.x <= self.x_max
        &&& self.y_min <= p.y <= self.y_max
    }

    /// The smallest box that holds both `self` and `p`.
    pub open spec fn with_point(self, p: Point) -> Bounds {
        Bounds {
            x_min: if p.x < self.x_min { p.x } else { self.x_min },
            y_min: if p.y < self.y_min { p.y } else { self.y_min },
            x_max: if p.x > self.x_max { p.x } else { self.x_max },
            y_max: if p.y > self.y_max { p.y } else { self.y_max },
        }
    }

    /// The box that holds `p` alone.
    pub open spec fn of_point(p: Point) -> Bounds {
        Bounds { x_min: p.x, y_min: p.y, x_max: p.x, y_max: p.y }
    }

    fn grown_by(&self, p: &Point) -> (b: Bounds)
        ensures
            b == self.with_point(*p),
    {
        Bounds {
            x_min: if p.x < self.x_min { p.x } else { self.x_min },
            y_min: if p.y < self.y_min { p.y } else { self.y_min },
            x_max: if p.x > self.x_max { p.x } else { self.x_max },
            y_max: if p.y > self.y_max { p.y } else { self.y_max },
        }
    }
}

/// The points of an edge: its end points and its control points.
pub open spec fn edge_points(e: Edge) -> Seq<Point> {
    match e {
        Edge::Line { from, to } => seq![from, to],
        Edge::Quad { from, ctrl, to } => seq![from, ctrl, to],
        Edge::Cubic { from, ctrl1, ctrl2, to } => seq![from, ctrl1, ctrl2, to],
    }
}

/// The points of a contour, edge by edge.
pub open spec fn contour_points(edges: Seq<Edge>) -> Seq<Point>
    decreases edges.len(),
{
    if edges.len() == 0 {
        Seq::empty()
    } else {
        contour_points(edges.drop_last()) + edge_points(edges.last())
    }
}

/// The points of an outline, contour by contour.
pub open spec fn outline_points(outline: Seq<Seq<Edge>>) -> Seq<Point>
    decreases outline.len(),
{
    if outline.len() == 0 {
        Seq::empty()
    } else {
        outline_points(outline.drop_last()) + contour_points(outline.last())
    }
}

/// The bounding box of a sequence of points; none for no points.
pub open spec fn bounds_of_points(points: Seq<Point>) -> Option<Bounds>
    decreases points.len(),
{
    if points.len() == 0 {
        None
    } else {
        match bounds_of_points(points.drop_last()) {
            None => Some(Bounds::of_point(points.last())),
            Some(b) => Some(b.with_point(points.last())),
        }
    }
}

/// `b` holds every point, and each of its four sides passes through one.
pub open spec fn is_bounding_box(b: Bounds, points: Seq<Point>) -> bool {
    &&& forall|j: int| 0 <= j < points.len() ==> b.contains(#[trigger] points[j])
    &&& exists|j: int| 0 <= j < points.len() && (#[trigger] points[j]).x == b.x_min
    &&& exists|j: int| 0 <= j < points.len() && (#[trigger] points[j]).x == b.x_max
    &&& exists|j: int| 0 <= j < points.len() && (#[trigger] points[j]).y == b.y_min
    &&& exists|j: int| 0 <= j < points.len() && (#[trigger] points[j]).y == b.y_max
}

/// The box that `bounds_of_points` gives is the bounding box, and there is
/// one unless there are no points.
pub proof fn lemma_bounds_of_points(points: Seq<Point>)
    ensures
        bounds_of_points(points) is None <==> points.len() == 0,
        bounds_of_points(points) matches Some(b) ==> is_bounding_box(b, points),
    decreases points.len(),
{
    if points.len() > 0 {
        let rest = points.drop_last();
        let last = points.last();
        let n = points.len() as int - 1;
        lemma_bounds_of_points(rest);
        let b = bounds_of_points(points).unwrap();
        assert(points[n] == last);
        match bounds_of_points(rest) {
            None => {
                assert(is_bounding_box(b, points));
            },
            Some(a) => {
                assert forall|j: int| 0 <= j < points.len() implies b.contains(
                    #[trigger] points[j],
                ) by {
                    if j < n {
                        assert(points[j] == rest[j]);
                        assert(a.contains(rest[j]));
                    }
                }
                let jx0 = choose|j: int| 0 <= j < rest.len() && (#[trigger] rest[j]).x == a.x_min;
                let jx1 = choose|j: int| 0 <= j < rest.len() && (#[trigger] rest[j]).x == a.x_max;
                let jy0 = choose|j: int| 0 <= j < rest.len() && (#[trigger] rest[j]).y == a.y_min;
                let jy1 = choose|j: int| 0 <= j < rest.len() && (#[trigger] rest[j]).y == a.y_max;
                assert(points[jx0] == rest[jx0] && points[jx1] == rest[jx1]);
                assert(points[jy0] == rest[jy0] && points[jy1] == rest[jy1]);
                let kx0 = if last.x < a.x_min { n } else { jx0 };
                let kx1 = if last.x > a.x_max { n } else { jx1 };
                let ky0 = if last.y < a.y_min { n } else { jy0 };
                let ky1 = if last.y > a.y_max { n } else { jy1 };
                assert(points[kx0].x == b.x_min);
                assert(points[kx1].x == b.x_max);
                assert(points[ky0].y == b.y_min);
                assert(points[ky1].y == b.y_max);
            },
        }
    }
}

fn grow(current: Option<Bounds>, p: &Point) -> (r: Option<Bounds>)
    ensures
        r == match current {
            None => Some(Bounds::of_point(*p)),
            Some(b) => Some(b.with_point(*p)),
        },
{
    match current {
        None => Some(Bounds { x_min: p.x, y_min: p.y, x_max: p.x, y_max: p.y }),
        Some(b) => Some(b.grown_by(p)),
    }
}

proof fn lemma_bounds_push(points: Seq<Point>, p: Point)
    ensures
        bounds_of_points(points.push(p)) == match bounds_of_points(points) {
            None => Some(Bounds::of_point(p)),
            Some(b) => Some(b.with_point(p)),
        },
{
    assert(points.push(p).drop_last() =~= points);
}

/// Finds the bounding box of an outline's end points and control points,
/// which encloses every edge. An outline without edges has none.
pub fn outline_bounds(outline: &Outline) -> (r: Option<Bounds>)
    ensures
        r == bounds_of_points(outline_points(outline@)),
        r is None <==> outline_points(outline@).len() == 0,
        r matches Some(b) ==> is_bounding_box(b, outline_points(outline@)),
{
    let mut current: Option<Bounds> = None;
    let mut k: usize = 0;
    assert(outline@.take(0) =~= Seq::<Seq<Edge>>::empty());
    while k < outline.contours.len()
        invariant
            k <= outline.contours.len(),
            current == bounds_of_points(outline_points(outline@.take(k as int))),
        decreases outline.contours.len() - k,
    {
        let contour = &outline.contours[k];
        let ghost before = outline_points(outline@.take(k as int));
        let mut i: usize = 0;
        assert(contour@.take(0) =~= Seq::<Edge>::empty());
        assert(before + contour_points(contour@.take(0)) =~= before);
        while i < contour.edges.len()
            invariant
                i <= contour.edges.len(),
                current == bounds_of_points(before + contour_points(contour@.take(i as int))),
            decreases contour.edges.len() - i,
        {
            let ghost so_far = before + contour_points(contour@.take(i as int));
            proof {
                assert(contour@.take(i + 1).drop_last() =~= contour@.take(i as int));
                assert(contour@.take(i + 1).last() == contour@[i as int]);
            }
            match &contour.edges[i] {
                Edge::Line { from, to } => {
                    proof {
                        lemma_bounds_push(so_far, *from);
                        lemma_bounds_push(so_far.push(*from), *to);
                        assert(before + contour_points(contour@.take(i + 1)) =~= so_far.push(
                            *from,
                        ).push(*to));
                    }
                    current = grow(current, from);
                    current = grow(current, to);
                },
                Edge::Quad { from, ctrl, to } => {
                    proof {
                        lemma_bounds_push(so_far, *from);
                        lemma_bounds_push(so_far.push(*from), *ctrl);
                        lemma_bounds_push(so_far.push(*from).push(*ctrl), *to);
                        assert(before + contour_points(contour@.take(i + 1)) =~= so_far.push(
                            *from,
                        ).push(*ctrl).push(*to));
                    }
                    current = grow(current, from);
                    current = grow(current, ctrl);
                    current = grow(current, to);
                },
                Edge::Cubic { from, ctrl1, ctrl2, to } => {
                    proof {
                        lemma_bounds_push(so_far, *from);
                        lemma_bounds_push(so_far.push(*from), *ctrl1);
                        lemma_bounds_push(so_far.push(*from).push(*ctrl1), *ctrl2);
                        lemma_bounds_push(so_far.push(*from).push(*ctrl1).push(*ctrl2), *to);
                        assert(before + contour_points(contour@.take(i + 1)) =~= so_far.push(
                            *from,
                        ).push(*ctrl1).push(*ctrl2).push(*to));
                    }
                    current = grow(current, from);
                    current = grow(current, ctrl1);
                    current = grow(current, ctrl2);
                    current = grow(current, to);
                },
            }
            i = i + 1;
        }
        proof {
            assert(contour@.take(i as int) =~= contour@);
            assert(outline@.take(k + 1).drop_last() =~= outline@.take(k as int));
            assert(outline@.take(k + 1).last() == contour@);
        }
        k = k + 1;
    }
    proof {
        assert(outline@.take(k as int) =~= outline@);
        lemma_bounds_of_points(outline_points(outline@));
    }
    current
}


/// Where a glyph sits in its cell.
///
/// The cell is `width` by `height` pixels. A glyph coordinate `x`, in
/// sub-units, lies at pixel `(scale_num * (x - origin_x) + pad_x) / scale_den`
/// of the cell, and likewise along `y`. `range` is the reach of the distance
/// field around the outline, in pixels.
#[derive(Clone, Copy, Debug, PartialEq, Eq, Structural)]
pub struct Frame {
    pub width: u32,
    pub height: u32,
    pub range: u32,
    pub scale_num: u64,
    pub scale_den: u64,
    pub origin_x: i32,
    pub origin_y: i32,
    pub pad_x: u64,
    pub pad_y: u64,
}

impl Frame {
    /// The pixel column of the glyph coordinate `x`, times `scale_den`.
    pub open spec fn col_num(self, x: int) -> int {
        self.scale_num * (x - self.origin_x) + self.pad_x
    }

    /// The pixel row of the glyph coordinate `y`, times `scale_den`.
    pub open spec fn row_num(self, y: int) -> int {
        self.scale_num * (y - self.origin_y) + self.pad_y
    }

    /// The box, widened by the range on every side, lies within the cell:
    /// it covers no pixel column but `0..width` and no row but `0..height`.
    pub open spec fn encloses(self, b: Bounds) -> bool {
        &&& self.scale_den > 0
        &&& self.range * self.scale_den <= self.col_num(b.x_min as int)
        &&& self.col_num(b.x_max as int) + self.range * self.scale_den <= self.width
            * self.scale_den
        &&& self.range * self.scale_den <= self.row_num(b.y_min as int)
        &&& self.row_num(b.y_max as int) + self.range * self.scale_den <= self.height
            * self.scale_den
    }
}

/// The frame of a box in a cell of `width` by `height` pixels with a range of
/// `range` pixels: the largest scale, the same along both axes, at which the
/// box fits between margins of `range` pixels, and the box in the middle of
/// what is left. There is none where the margins leave no room in the cell,
/// or where the box has no width or no height.
pub open spec fn frame_of(b: Bounds, width: u32, height: u32, range: u32) -> Option<Frame> {
    let room_x = width - 2 * range;
    let room_y = height - 2 * range;
    if room_x <= 0 || room_y <= 0 || b.width() <= 0 || b.height() <= 0 {
        None
    } else {
        let wide = room_x * b.height() <= room_y * b.width();
        let num = if wide { room_x } else { room_y };
        let den = if wide { b.width() } else { b.height() };
        Some(
            Frame {
                width,
                height,
                range,
                scale_num: num as u64,
                scale_den: den as u64,
                origin_x: b.x_min,
                origin_y: b.y_min,
                pad_x: (range * den + (room_x * den - num * b.width()) / 2) as u64,
                pad_y: (range * den + (room_y * den - num * b.height()) / 2) as u64,
            },
        )
    }
}

proof fn lemma_mul_le(a: int, b: int, la: int, lb: int)
    requires
        0 <= a <= la,
        0 <= b <= lb,
    ensures
        0 <= a * b <= la * lb,
{
    assert(0 <= a * b <= la * lb) by (nonlinear_arith)
        requires
            0 <= a <= la,
            0 <= b <= lb,
    ;
}

/// The frame that `frame_of` gives keeps the box, widened by the range,
/// within the cell.
pub proof fn lemma_frame_encloses(b: Bounds, width: u32, height: u32, range: u32)
    requires
        frame_of(b, width, height, range) is Some,
    ensures
        frame_of(b, width, height, range).unwrap().encloses(b),
        frame_of(b, width, height, range).unwrap().scale_num > 0,
{
    let f = frame_of(b, width, height, range).unwrap();
    let room_x = width - 2 * range;
    let room_y = height - 2 * range;
    let bw = b.width();
    let bh = b.height();
    let wide = room_x * bh <= room_y * bw;
    let num = if wide { room_x } else { room_y };
    let den = if wide { bw } else { bh };
    lemma_mul_le(room_x, den, 0xffff_ffff, 0xffff_ffff);
    lemma_mul_le(room_y, den, 0xffff_ffff, 0xffff_ffff);
    lemma_mul_le(num, bw, 0xffff_ffff, 0xffff_ffff);
    lemma_mul_le(num, bh, 0xffff_ffff, 0xffff_ffff);
    lemma_mul_le(range as int, den, 0x7fff_ffff, 0xffff_ffff);
    let slack_x = room_x * den - num * bw;
    let slack_y = room_y * den - num * bh;
    assert(slack_x >= 0 && slack_y >= 0) by {
        if wide {
            assert(room_x * bw == bw * room_x) by (nonlinear_arith);
        } else {
            assert(room_y * bh == bh * room_y) by (nonlinear_arith);
        }
    }
    assert(f.scale_num == num && f.scale_den == den);
    assert(f.pad_x == range * den + slack_x / 2);
    assert(f.pad_y == range * den + slack_y / 2);
    assert(f.col_num(b.x_min as int) == f.pad_x) by (nonlinear_arith)
        requires
            f.col_num(b.x_min as int) == f.scale_num * (b.x_min - f.origin_x) + f.pad_x,
            f.origin_x == b.x_min,
    ;
    assert(f.row_num(b.y_min as int) == f.pad_y) by (nonlinear_arith)
        requires
            f.row_num(b.y_min as int) == f.scale_num * (b.y_min - f.origin_y) + f.pad_y,
            f.origin_y == b.y_min,
    ;
    assert(f.col_num(b.x_max as int) == num * bw + f.pad_x);
    assert(f.row_num(b.y_max as int) == num * bh + f.pad_y);
    assert(width * den == room_x * den + 2 * (range * den)) by (nonlinear_arith)
        requires
            room_x == width - 2 * range,
    ;
    assert(height * den == room_y * den + 2 * (range * den)) by (nonlinear_arith)
        requires
            room_y == height - 2 * range,
    ;
}

/// No scale that fits the box between the margins is larger than the
/// frame's: for every fraction `n / d` with `n` sub-units of box no wider and
/// no taller than the room, `n / d` is at most `scale_num / scale_den`.
pub proof fn lemma_frame_scale_is_largest(
    b: Bounds,
    width: u32,
    height: u32,
    range: u32,
    n: int,
    d: int,
)
    requires
        frame_of(b, width, height, range) is Some,
        d > 0,
        n >= 0,
        n * b.width() <= (width - 2 * range) * d,
        n * b.height() <= (height - 2 * range) * d,
    ensures
        n * frame_of(b, width, height, range).unwrap().scale_den <= frame_of(
            b,
            width,
            height,
            range,
        ).unwrap().scale_num * d,
{
    lemma_frame_encloses(b, width, height, range);
    let room_x = width - 2 * range;
    let room_y = height - 2 * range;
    lemma_mul_le(room_x, b.width(), 0xffff_ffff, 0xffff_ffff);
    lemma_mul_le(room_y, b.height(), 0xffff_ffff, 0xffff_ffff);
}

/// Every point of a box that the frame encloses lies in the cell, at least
/// the range away from each of its sides.
pub proof fn lemma_frame_holds_point(f: Frame, b: Bounds, p: Point)
    requires
        f.encloses(b),
        b.contains(p),
    ensures
        f.range * f.scale_den <= f.col_num(p.x as int),
        f.col_num(p.x as int) + f.range * f.scale_den <= f.width * f.scale_den,
        f.range * f.scale_den <= f.row_num(p.y as int),
        f.row_num(p.y as int) + f.range * f.scale_den <= f.height * f.scale_den,
{
    let n = f.scale_num as int;
    assert(n * (b.x_min - f.origin_x) <= n * (p.x - f.origin_x) <= n * (b.x_max - f.origin_x))
        by (nonlinear_arith)
        requires
            n >= 0,
            b.x_min <= p.x <= b.x_max,
    ;
    assert(n * (b.y_min - f.origin_y) <= n * (p.y - f.origin_y) <= n * (b.y_max - f.origin_y))
        by (nonlinear_arith)
        requires
            n >= 0,
            b.y_min <= p.y <= b.y_max,
    ;
}

/// Frames a box in a cell.
///
/// The result is the largest uniform scale at which the box fits between
/// margins of `range` pixels, with the box centred; it encloses the box.
/// There is no frame where `width` or `height` is not more than twice the
/// range, or where the box has no width or no height.
pub fn autoframe(bounds: &Bounds, width: u32, height: u32, range: u32) -> (r: Option<Frame>)
    ensures
        r == frame_of(*bounds, width, height, range),
        r is None <==> (width <= 2 * range || height <= 2 * range || bounds.x_max
            <= bounds.x_min || bounds.y_max <= bounds.y_min),
        r matches Some(f) ==> f.encloses(*bounds) && f.scale_num > 0,
{
    let w: u64 = width as u64;
    let h: u64 = height as u64;
    let pad: u64 = range as u64;
    if w <= 2 * pad || h <= 2 * pad || bounds.x_max <= bounds.x_min || bounds.y_max
        <= bounds.y_min {
        return None;
    }
    let room_x: u64 = w - 2 * pad;
    let room_y: u64 = h - 2 * pad;
    let bw: u64 = (bounds.x_max as i64 - bounds.x_min as i64) as u64;
    let bh: u64 = (bounds.y_max as i64 - bounds.y_min as i64) as u64;
    proof {
        lemma_mul_le(room_x as int, bh as int, 0xffff_ffff, 0xffff_ffff);
        lemma_mul_le(room_y as int, bw as int, 0xffff_ffff, 0xffff_ffff);
        lemma_mul_le(room_x as int, bw as int, 0xffff_ffff, 0xffff_ffff);
        lemma_mul_le(room_y as int, bh as int, 0xffff_ffff, 0xffff_ffff);
        lemma_mul_le(pad as int, bw as int, 0x7fff_ffff, 0xffff_ffff);
        lemma_mul_le(pad as int, bh as int, 0x7fff_ffff, 0xffff_ffff);
        lemma_frame_encloses(*bounds, width, height, range);
    }
    let wide = room_x * bh <= room_y * bw;
    let num: u64 = if wide { room_x } else { room_y };
    let den: u64 = if wide { bw } else { bh };
    proof {
        lemma_mul_le(room_x as int, den as int, 0xffff_ffff, 0xffff_ffff);
        lemma_mul_le(room_y as int, den as int, 0xffff_ffff, 0xffff_ffff);
        lemma_mul_le(num as int, bw as int, 0xffff_ffff, 0xffff_ffff);
        lemma_mul_le(num as int, bh as int, 0xffff_ffff, 0xffff_ffff);
        lemma_mul_le(pad as int, den as int, 0x7fff_ffff, 0xffff_ffff);
        if wide {
            assert(room_x * bw == bw * room_x) by (nonlinear_arith);
        } else {
            assert(room_y * bh == bh * room_y) by (nonlinear_arith);
        }
    }
    let slack_x: u64 = room_x * den - num * bw;
    let slack_y: u64 = room_y * den - num * bh;
    Some(
        Frame {
            width,
            height,
            range,
            scale_num: num,
            scale_den: den,
            origin_x: bounds.x_min,
            origin_y: bounds.y_min,
            pad_x: pad * den + slack_x / 2,
            pad_y: pad * den + slack_y / 2,
        },
    )
}

/// The box that the em square of a face fills, in sub-units.
pub open spec fn em_box(units_per_em: u16) -> Bounds {
    Bounds {
        x_min: 0,
        y_min: 0,
        x_max: (units_per_em * SUBUNITS_PER_UNIT) as i32,
        y_max: (units_per_em * SUBUNITS_PER_UNIT) as i32,
    }
}

/// Gives the box that the em square of a face fills.
pub fn em_bounds(units_per_em: u16) -> (b: Bounds)
    ensures
        b == em_box(units_per_em),
{
    let side: i32 = units_per_em as i32 * SUBUNITS_PER_UNIT;
    Bounds { x_min: 0, y_min: 0, x_max: side, y_max: side }
}

} // verus!
