//! Edge colouring: which colour channels each edge of a contour feeds.
//!
//! A vertex is a corner where the outline turns by more than a fixed angle.
//! Corners cut a contour into arcs; the edges of one arc share a mask, and the
//! arcs on the two sides of a corner never do. No contour is left in one
//! colour: one with fewer than two corners is split in three by edge count,
//! and one of a single edge has that edge cut in three. The colouring depends
//! on the contour's shape and edge order alone.

use vstd::prelude::*;
use crate::geometry::{Point, Vector};
use crate::outline::{Contour, Edge, Outline};

verus! {

/// Numerator of the sine of the smallest turn that makes a corner.
///
/// A vertex is a corner where the outline turns by more than about ten
/// degrees, that is where the angle between the two edges is sharper than
/// about 170 degrees: `CORNER_SIN_NUM / CORNER_SIN_DEN` is 0.1736.
pub const CORNER_SIN_NUM: i128 = 217;

/// Denominator of the sine of the smallest turn that makes a corner.
pub const CORNER_SIN_DEN: i128 = 1250;

/// The colour channels that an edge feeds.
#[derive(Clone, Copy, Debug, PartialEq, Eq, Structural)]
pub struct ChannelMask {
    pub red: bool,
    pub green: bool,
    pub blue: bool,
}

impl ChannelMask {
    /// The number of channels in the mask.
    pub open spec fn channel_count(self) -> int {
        (if self.red { 1int } else { 0 }) + (if self.green { 1int } else { 0 }) + (if self.blue { 1int } else { 0 })
    }

    /// The number of channels that two masks have in common.
    pub open spec fn shared_count(self, other: ChannelMask) -> int {
        (if self.red && other.red { 1int } else { 0 }) + (if self.green && other.green { 1int } else { 0 })
            + (if self.blue && other.blue { 1int } else { 0 })
    }

    /// Tells whether the mask holds every channel of `other`.
    pub open spec fn covers(self, other: ChannelMask) -> bool {
        &&& other.red ==> self.red
        &&& other.green ==> self.green
        &&& other.blue ==> self.blue
    }
}

/// The palette: red with blue, green with blue, red with green.
pub open spec fn palette(index: int) -> ChannelMask {
    if index == 0 {
        ChannelMask { red: true, green: false, blue: true }
    } else if index == 1 {
        ChannelMask { red: false, green: true, blue: true }
    } else {
        ChannelMask { red: true, green: true, blue: false }
    }
}

/// The palette entry of an index below three.
pub fn palette_entry(index: u8) -> (mask: ChannelMask)
    requires
        index < 3,
    ensures
        mask == palette(index as int),
{
    if index == 0 {
        ChannelMask { red: true, green: false, blue: true }
    } else if index == 1 {
        ChannelMask { red: false, green: true, blue: true }
    } else {
        ChannelMask { red: true, green: true, blue: false }
    }
}

impl Edge {
    /// The direction in which the edge leaves its start: towards the first
    /// of its later points that differs from the start.
    pub open spec fn start_dir(self) -> Vector {
        match self {
            Edge::Line { from, to } => Vector::between(from, to),
            Edge::Quad { from, ctrl, to } => if ctrl != from {
                Vector::between(from, ctrl)
            } else {
                Vector::between(from, to)
            },
            Edge::Cubic { from, ctrl1, ctrl2, to } => if ctrl1 != from {
                Vector::between(from, ctrl1)
            } else if ctrl2 != from {
                Vector::between(from, ctrl2)
            } else {
                Vector::between(from, to)
            },
        }
    }

    /// The direction in which the edge reaches its end: from the last of its
    /// earlier points that differs from the end.
    pub open spec fn end_dir(self) -> Vector {
        match self {
            Edge::Line { from, to } => Vector::between(from, to),
            Edge::Quad { from, ctrl, to } => if ctrl != to {
                Vector::between(ctrl, to)
            } else {
                Vector::between(from, to)
            },
            Edge::Cubic { from, ctrl1, ctrl2, to } => if ctrl2 != to {
                Vector::between(ctrl2, to)
            } else if ctrl1 != to {
                Vector::between(ctrl1, to)
            } else {
                Vector::between(from, to)
            },
        }
    }

    pub fn start_direction(&self) -> (v: Vector)
        requires
            self.in_range(),
        ensures
            v == self.start_dir(),
            v.in_span(),
    {
        match self {
            Edge::Line { from, to } => Vector::from_points(from, to),
            Edge::Quad { from, ctrl, to } => if !ctrl.same(from) {
                Vector::from_points(from, ctrl)
            } else {
                Vector::from_points(from, to)
            },
            Edge::Cubic { from, ctrl1, ctrl2, to } => if !ctrl1.same(from) {
                Vector::from_points(from, ctrl1)
            } else if !ctrl2.same(from) {
                Vector::from_points(from, ctrl2)
            } else {
                Vector::from_points(from, to)
            },
        }
    }

    pub fn end_direction(&self) -> (v: Vector)
        requires
            self.in_range(),
        ensures
            v == self.end_dir(),
            v.in_span(),
    {
        match self {
            Edge::Line { from, to } => Vector::from_points(from, to),
            Edge::Quad { from, ctrl, to } => if !ctrl.same(to) {
                Vector::from_points(ctrl, to)
            } else {
                Vector::from_points(from, to)
            },
            Edge::Cubic { from, ctrl1, ctrl2, to } => if !ctrl2.same(to) {
                Vector::from_points(ctrl2, to)
            } else if !ctrl1.same(to) {
                Vector::from_points(ctrl1, to)
            } else {
                Vector::from_points(from, to)
            },
        }
    }
}

/// Two directions make a corner where they do not point the same way within
/// the threshold: their dot product is not positive, or the sine of the angle
/// between them exceeds `CORNER_SIN_NUM / CORNER_SIN_DEN`.
pub open spec fn is_corner(a: Vector, b: Vector) -> bool {
    ||| a.dot(b) <= 0
    ||| a.cross(b) * a.cross(b) * (CORNER_SIN_DEN * CORNER_SIN_DEN) > (CORNER_SIN_NUM
        * CORNER_SIN_NUM) * (a.norm_sq() * b.norm_sq())
}

proof fn lemma_product_bound(a: int, b: int, la: int, lb: int)
    requires
        -la <= a <= la,
        -lb <= b <= lb,
    ensures
        -(la * lb) <= a * b <= la * lb,
{
    assert(-(la * lb) <= a * b <= la * lb) by (nonlinear_arith)
        requires
            -la <= a <= la,
            -lb <= b <= lb,
    ;
}

/// Tells whether the outline turns a corner between the direction `a` in
/// which it arrives and the direction `b` in which it leaves.
pub fn turns_corner(a: &Vector, b: &Vector) -> (r: bool)
    requires
        a.in_span(),
        b.in_span(),
    ensures
        r == is_corner(*a, *b),
{
    let ax: i128 = a.dx as i128;
    let ay: i128 = a.dy as i128;
    let bx: i128 = b.dx as i128;
    let by: i128 = b.dy as i128;
    let ghost span: int = 8388608;
    proof {
        lemma_product_bound(ax as int, bx as int, span, span);
        lemma_product_bound(ay as int, by as int, span, span);
        lemma_product_bound(ax as int, by as int, span, span);
        lemma_product_bound(ay as int, bx as int, span, span);
        lemma_product_bound(ax as int, ax as int, span, span);
        lemma_product_bound(ay as int, ay as int, span, span);
        lemma_product_bound(bx as int, bx as int, span, span);
        lemma_product_bound(by as int, by as int, span, span);
        assert(span * span == 70368744177664);
    }
    let dot: i128 = ax * bx + ay * by;
    if dot <= 0 {
        return true;
    }
    let cross: i128 = ax * by - ay * bx;
    let na: i128 = ax * ax + ay * ay;
    let nb: i128 = bx * bx + by * by;
    let ghost area: int = 140737488355328;
    proof {
        lemma_product_bound(cross as int, cross as int, area, area);
        lemma_product_bound(na as int, nb as int, area, area);
        assert(area * area == 19807040628566084398385987584);
        assert(ax * ax >= 0 && ay * ay >= 0 && bx * bx >= 0 && by * by >= 0 && cross * cross >= 0) by (nonlinear_arith);
        assert(na * nb >= 0) by (nonlinear_arith)
            requires
                na >= 0,
                nb >= 0,
        ;
    }
    let cross_sq: i128 = cross * cross;
    let norms: i128 = na * nb;
    let den_sq: i128 = CORNER_SIN_DEN * CORNER_SIN_DEN;
    let num_sq: i128 = CORNER_SIN_NUM * CORNER_SIN_NUM;
    proof {
        assert(den_sq == 1562500 && num_sq == 47089);
        assert(0 <= cross_sq * den_sq <= 19807040628566084398385987584 * 1562500) by (nonlinear_arith)
            requires
                0 <= cross_sq <= 19807040628566084398385987584,
                den_sq == 1562500,
        ;
        assert(0 <= num_sq * norms <= 47089 * 19807040628566084398385987584) by (nonlinear_arith)
            requires
                0 <= norms <= 19807040628566084398385987584,
                num_sq == 47089,
        ;
    }
    let lhs: i128 = cross_sq * den_sq;
    let rhs: i128 = num_sq * norms;
    lhs > rhs
}


/// The index of the edge that precedes edge `i` in a contour of `m` edges.
pub open spec fn prev_index(i: int, m: int) -> int {
    if i == 0 {
        m - 1
    } else {
        i - 1
    }
}

/// The contour turns a corner at the vertex where edge `i` begins.
pub open spec fn corner_at(edges: Seq<Edge>, i: int) -> bool {
    is_corner(edges[prev_index(i, edges.len() as int)].end_dir(), edges[i].start_dir())
}

/// The number of corners among the start vertices of the first `n` edges.
pub open spec fn corners_upto(edges: Seq<Edge>, n: int) -> int
    decreases n,
{
    if n <= 0 {
        0
    } else {
        corners_upto(edges, n - 1) + if corner_at(edges, n - 1) {
            1int
        } else {
            0
        }
    }
}

/// The number of corners of a contour.
pub open spec fn corner_count(edges: Seq<Edge>) -> int {
    corners_upto(edges, edges.len() as int)
}

/// The least index below `n` at which a corner lies, or `n` where none does.
pub open spec fn first_corner(edges: Seq<Edge>, n: int) -> int
    decreases n,
{
    if n <= 0 {
        0
    } else if first_corner(edges, n - 1) < n - 1 {
        first_corner(edges, n - 1)
    } else if corner_at(edges, n - 1) {
        n - 1
    } else {
        n
    }
}

/// The edge at which the colouring of a contour with fewer than two corners
/// begins: the one that leaves the corner, or the first edge.
pub open spec fn pivot(edges: Seq<Edge>) -> int {
    if first_corner(edges, edges.len() as int) < edges.len() {
        first_corner(edges, edges.len() as int)
    } else {
        0
    }
}

/// The arc that edge `i` lies on. Arcs are numbered from the first corner;
/// the edges before it belong to the last arc, which runs past the end of the
/// edge sequence and round to the first corner.
pub open spec fn arc_of(edges: Seq<Edge>, i: int) -> int {
    if corners_upto(edges, i + 1) == 0 {
        corner_count(edges) - 1
    } else {
        corners_upto(edges, i + 1) - 1
    }
}

/// The palette index of arc `a` of `k`: round robin, but the last arc takes
/// the second entry where the round would hand it the first arc's.
pub open spec fn arc_colour(a: int, k: int) -> int {
    if a == k - 1 && a % 3 == 0 {
        1
    } else {
        a % 3
    }
}

/// The distance of edge `i` from the pivot, along the contour of `m` edges.
pub open spec fn from_pivot(i: int, pivot: int, m: int) -> int {
    if i >= pivot {
        i - pivot
    } else {
        i + m - pivot
    }
}

/// The palette index of the edge at distance `j` from the pivot when a
/// contour of `m` edges is split in three by edge count.
pub open spec fn thirds_colour(j: int, m: int) -> int {
    3 * j / m
}

/// The palette index of edge `i` of a contour.
pub open spec fn colour_index(edges: Seq<Edge>, i: int) -> int {
    if corner_count(edges) >= 2 {
        arc_colour(arc_of(edges, i), corner_count(edges))
    } else {
        thirds_colour(from_pivot(i, pivot(edges), edges.len() as int), edges.len() as int)
    }
}

/// The mask of edge `i` of a contour.
pub open spec fn edge_mask(edges: Seq<Edge>, i: int) -> ChannelMask {
    palette(colour_index(edges, i))
}

/// An edge with the channels it feeds.
#[derive(Clone, Copy, Debug, PartialEq, Eq)]
pub struct ColoredEdge {
    pub edge: Edge,
    pub mask: ChannelMask,
}

/// The coordinate that lies one part in `parts` of the way from `a` to `b`,
/// rounded towards `a`.
pub open spec fn part_way(a: int, b: int, parts: int) -> int {
    if b >= a {
        a + (b - a) / parts
    } else {
        a - (a - b) / parts
    }
}

/// The point that lies one part in `parts` of the way from `a` to `b`.
pub open spec fn point_part_way(a: Point, b: Point, parts: int) -> Point {
    Point {
        x: part_way(a.x as int, b.x as int, parts) as i32,
        y: part_way(a.y as int, b.y as int, parts) as i32,
    }
}

/// The two edges that an edge falls into when it is cut at one part in
/// `parts` of its run, with every new point rounded to the sub-unit. The
/// first ends where the second begins.
pub open spec fn cut(e: Edge, parts: int) -> (Edge, Edge) {
    match e {
        Edge::Line { from, to } => {
            let m = point_part_way(from, to, parts);
            (Edge::Line { from, to: m }, Edge::Line { from: m, to })
        },
        Edge::Quad { from, ctrl, to } => {
            let a = point_part_way(from, ctrl, parts);
            let b = point_part_way(ctrl, to, parts);
            let m = point_part_way(a, b, parts);
            (Edge::Quad { from, ctrl: a, to: m }, Edge::Quad { from: m, ctrl: b, to })
        },
        Edge::Cubic { from, ctrl1, ctrl2, to } => {
            let a = point_part_way(from, ctrl1, parts);
            let b = point_part_way(ctrl1, ctrl2, parts);
            let c = point_part_way(ctrl2, to, parts);
            let d = point_part_way(a, b, parts);
            let e = point_part_way(b, c, parts);
            let m = point_part_way(d, e, parts);
            (
                Edge::Cubic { from, ctrl1: a, ctrl2: d, to: m },
                Edge::Cubic { from: m, ctrl1: e, ctrl2: c, to },
            )
        },
    }
}

/// The three edges that an edge falls into when it is cut at one third and
/// at two thirds of its run, each with a mask of its own.
pub open spec fn thirds_colored(e: Edge) -> Seq<ColoredEdge> {
    seq![
        ColoredEdge { edge: cut(e, 3).0, mask: palette(0) },
        ColoredEdge { edge: cut(cut(e, 3).1, 2).0, mask: palette(1) },
        ColoredEdge { edge: cut(cut(e, 3).1, 2).1, mask: palette(2) },
    ]
}

/// `colored` is the colouring of the contour `edges`.
///
/// A contour of one edge is cut in three, so that it is not left in one
/// colour. The edges of every other contour stay as they are, each with its
/// mask.
pub open spec fn is_coloring_of(colored: Seq<ColoredEdge>, edges: Seq<Edge>) -> bool {
    if edges.len() == 1 {
        colored =~= thirds_colored(edges[0])
    } else {
        &&& colored.len() == edges.len()
        &&& forall|i: int|
            0 <= i < edges.len() ==> (#[trigger] colored[i]).edge == edges[i] && colored[i].mask
                == edge_mask(edges, i)
    }
}

proof fn lemma_part_way(a: int, b: int, parts: int)
    requires
        parts >= 2,
    ensures
        a <= b ==> a <= part_way(a, b, parts) <= b,
        b <= a ==> b <= part_way(a, b, parts) <= a,
{
    if b >= a {
        assert(0 <= (b - a) / parts <= b - a) by (nonlinear_arith)
            requires
                b - a >= 0,
                parts >= 2,
        ;
    } else {
        assert(0 <= (a - b) / parts <= a - b) by (nonlinear_arith)
            requires
                a - b >= 0,
                parts >= 2,
        ;
    }
}

/// Finds the point one part in `parts` of the way from `a` to `b`.
fn toward(a: &Point, b: &Point, parts: i32) -> (p: Point)
    requires
        a.in_range(),
        b.in_range(),
        2 <= parts <= 3,
    ensures
        p == point_part_way(*a, *b, parts as int),
        p.in_range(),
{
    proof {
        lemma_part_way(a.x as int, b.x as int, parts as int);
        lemma_part_way(a.y as int, b.y as int, parts as int);
    }
    let x: i32 = if b.x >= a.x {
        a.x + (b.x - a.x) / parts
    } else {
        a.x - (a.x - b.x) / parts
    };
    let y: i32 = if b.y >= a.y {
        a.y + (b.y - a.y) / parts
    } else {
        a.y - (a.y - b.y) / parts
    };
    Point { x, y }
}

/// Cuts an edge in two at one part in `parts` of its run.
fn cut_edge(e: &Edge, parts: i32) -> (r: (Edge, Edge))
    requires
        e.in_range(),
        2 <= parts <= 3,
    ensures
        r == cut(*e, parts as int),
        r.0.in_range(),
        r.1.in_range(),
{
    match e {
        Edge::Line { from, to } => {
            let m = toward(from, to, parts);
            (Edge::Line { from: *from, to: m }, Edge::Line { from: m, to: *to })
        },
        Edge::Quad { from, ctrl, to } => {
            let a = toward(from, ctrl, parts);
            let b = toward(ctrl, to, parts);
            let m = toward(&a, &b, parts);
            (Edge::Quad { from: *from, ctrl: a, to: m }, Edge::Quad { from: m, ctrl: b, to: *to })
        },
        Edge::Cubic { from, ctrl1, ctrl2, to } => {
            let a = toward(from, ctrl1, parts);
            let b = toward(ctrl1, ctrl2, parts);
            let c = toward(ctrl2, to, parts);
            let d = toward(&a, &b, parts);
            let e2 = toward(&b, &c, parts);
            let m = toward(&d, &e2, parts);
            (
                Edge::Cubic { from: *from, ctrl1: a, ctrl2: d, to: m },
                Edge::Cubic { from: m, ctrl1: e2, ctrl2: c, to: *to },
            )
        },
    }
}

/// The three parts of an edge lead from its start to its end, each ending
/// where the next begins, and bear the three masks of the palette.
pub proof fn lemma_thirds(e: Edge)
    ensures
        thirds_colored(e).len() == 3,
        thirds_colored(e)[0].edge.start() == e.start(),
        thirds_colored(e)[0].edge.end() == thirds_colored(e)[1].edge.start(),
        thirds_colored(e)[1].edge.end() == thirds_colored(e)[2].edge.start(),
        thirds_colored(e)[2].edge.end() == e.end(),
        thirds_colored(e)[0].mask != thirds_colored(e)[1].mask,
        thirds_colored(e)[1].mask != thirds_colored(e)[2].mask,
        thirds_colored(e)[2].mask != thirds_colored(e)[0].mask,
{
}

pub proof fn lemma_corners_upto_bounds(edges: Seq<Edge>, i: int, j: int)
    requires
        0 <= i <= j,
    ensures
        0 <= corners_upto(edges, i) <= corners_upto(edges, j),
        corners_upto(edges, j) - corners_upto(edges, i) <= j - i,
        corners_upto(edges, i) <= i,
    decreases j,
{
    if i < j {
        lemma_corners_upto_bounds(edges, i, j - 1);
    } else if i > 0 {
        lemma_corners_upto_bounds(edges, i - 1, i - 1);
    }
}

proof fn lemma_first_corner(edges: Seq<Edge>, n: int)
    requires
        0 <= n,
    ensures
        0 <= first_corner(edges, n) <= n,
        first_corner(edges, n) < n ==> corner_at(edges, first_corner(edges, n)),
        corners_upto(edges, first_corner(edges, n)) == 0,
        first_corner(edges, n) == n ==> corners_upto(edges, n) == 0,
    decreases n,
{
    if n > 0 {
        lemma_first_corner(edges, n - 1);
    }
}

proof fn lemma_split_by_count(j: int, m: int)
    requires
        0 <= j < m,
    ensures
        0 <= thirds_colour(j, m) <= 2,
        j == 0 ==> thirds_colour(j, m) == 0,
        (j == m - 1 && m >= 3) ==> thirds_colour(j, m) == 2,
        (j == m - 1 && m == 2) ==> thirds_colour(j, m) == 1,
        (m <= 3 * j < 2 * m) ==> thirds_colour(j, m) == 1,
{
    assert(0 <= 3 * j / m <= 2) by (nonlinear_arith)
        requires
            0 <= j < m,
    ;
    if j == 0 {
        assert(0int / m == 0) by (nonlinear_arith)
            requires
                m > 0,
        ;
    }
    if j == m - 1 && m >= 3 {
        assert((3 * j) / m >= 2) by (nonlinear_arith)
            requires
                3 * j >= 2 * m,
                m > 0,
        ;
    }
    if j == m - 1 && m == 2 {
        assert(3int / 2 == 1);
    }
    if m <= 3 * j < 2 * m {
        assert((3 * j) / m == 1) by (nonlinear_arith)
            requires
                m <= 3 * j < 2 * m,
                m > 0,
        ;
    }
}

/// Every mask holds two of the three channels.
pub proof fn lemma_mask_has_two_channels(edges: Seq<Edge>, i: int)
    ensures
        edge_mask(edges, i).channel_count() == 2,
{
}

/// Two palette entries of different index differ: they share one channel, and
/// neither holds every channel of the other.
pub proof fn lemma_palette_entries_differ(a: int, b: int)
    requires
        0 <= a <= 2,
        0 <= b <= 2,
        a != b,
    ensures
        palette(a) != palette(b),
        palette(a).shared_count(palette(b)) == 1,
        !palette(a).covers(palette(b)),
        !palette(b).covers(palette(a)),
{
}

/// The arcs on the two sides of a corner never share their mask.
///
/// In a contour with at least two corners, where a corner lies at the start
/// of edge `i`, the edge that arrives and the edge that leaves have different
/// masks: the two masks differ in two channels and share the third.
pub proof fn lemma_corner_masks_differ(edges: Seq<Edge>, i: int)
    requires
        0 <= i < edges.len(),
        corner_count(edges) >= 2,
        corner_at(edges, i),
    ensures
        edge_mask(edges, prev_index(i, edges.len() as int)) != edge_mask(edges, i),
        edge_mask(edges, prev_index(i, edges.len() as int)).shared_count(edge_mask(edges, i)) == 1,
        !edge_mask(edges, i).covers(edge_mask(edges, prev_index(i, edges.len() as int))),
        !edge_mask(edges, prev_index(i, edges.len() as int)).covers(edge_mask(edges, i)),
{
    let m = edges.len() as int;
    let k = corner_count(edges);
    let p = prev_index(i, m);
    lemma_corners_upto_bounds(edges, i + 1, m);
    lemma_corners_upto_bounds(edges, 0, i);
    lemma_corners_upto_bounds(edges, m, m);
    let u = corners_upto(edges, i);
    assert(corners_upto(edges, i + 1) == u + 1);
    assert(arc_of(edges, i) == u);
    if i == 0 {
        assert(corners_upto(edges, m) == k);
        assert(arc_of(edges, p) == k - 1);
    } else {
        assert(arc_of(edges, p) == if u == 0 { k - 1 } else { u - 1 });
    }
    let a = arc_of(edges, p);
    let b = arc_of(edges, i);
    assert(0 <= a < k && 0 <= b < k);
    assert(b == if a == k - 1 { 0 } else { a + 1 });
    assert(arc_colour(a, k) != arc_colour(b, k));
    lemma_palette_entries_differ(arc_colour(a, k), arc_colour(b, k));
}

/// With a single corner, the edge that arrives at it and the edge that leaves
/// it have different masks, unless the contour is one edge long.
pub proof fn lemma_single_corner_masks_differ(edges: Seq<Edge>, i: int)
    requires
        0 <= i < edges.len(),
        edges.len() >= 2,
        corner_count(edges) == 1,
        corner_at(edges, i),
    ensures
        edge_mask(edges, prev_index(i, edges.len() as int)) != edge_mask(edges, i),
{
    let m = edges.len() as int;
    lemma_first_corner(edges, m);
    let f = first_corner(edges, m);
    assert(f < m);
    // the one corner is the pivot
    lemma_corners_upto_bounds(edges, f + 1, m);
    lemma_corners_upto_bounds(edges, i + 1, m);
    lemma_corners_upto_bounds(edges, 0, i);
    lemma_corners_upto_bounds(edges, 0, f);
    if i < f {
        lemma_corners_upto_bounds(edges, i + 1, f);
    } else if f < i {
        lemma_corners_upto_bounds(edges, f + 1, i);
    }
    assert(i == f);
    assert(pivot(edges) == f);
    let p = prev_index(i, m);
    assert(from_pivot(i, f, m) == 0);
    assert(from_pivot(p, f, m) == m - 1);
    lemma_split_by_count(0, m);
    lemma_split_by_count(m - 1, m);
    lemma_palette_entries_differ(thirds_colour(m - 1, m), thirds_colour(0, m));
}

/// No contour of three or more edges is left in one colour: where it has
/// fewer than two corners, each of the three masks occurs on some edge.
pub proof fn lemma_smooth_contour_uses_every_mask(edges: Seq<Edge>, c: int)
    requires
        edges.len() >= 3,
        corner_count(edges) < 2,
        0 <= c <= 2,
    ensures
        exists|i: int| 0 <= i < edges.len() && colour_index(edges, i) == c,
{
    let m = edges.len() as int;
    lemma_first_corner(edges, m);
    let pv = pivot(edges);
    let j = if c == 0 {
        0
    } else if c == 1 {
        (m + 2) / 3
    } else {
        m - 1
    };
    assert(0 <= j < m);
    lemma_split_by_count(j, m);
    let i = if j + pv < m {
        j + pv
    } else {
        j + pv - m
    };
    assert(from_pivot(i, pv, m) == j);
    assert(colour_index(edges, i) == c);
}

/// No contour is left in one colour: in every colouring of a contour that
/// has an edge, two edges have different masks.
pub proof fn lemma_contour_is_not_monochrome(colored: Seq<ColoredEdge>, edges: Seq<Edge>)
    requires
        edges.len() >= 1,
        is_coloring_of(colored, edges),
    ensures
        exists|i: int, j: int|
            0 <= i < colored.len() && 0 <= j < colored.len() && (#[trigger] colored[i]).mask != (
            #[trigger] colored[j]).mask,
{
    let m = edges.len() as int;
    if m == 1 {
        lemma_thirds(edges[0]);
        assert(colored[0].mask != colored[1].mask);
    } else {
        lemma_first_corner(edges, m);
        if corner_count(edges) >= 2 {
            let f = first_corner(edges, m);
            lemma_corner_masks_differ(edges, f);
            assert(colored[prev_index(f, m)].mask != colored[f].mask);
        } else {
            let pv = pivot(edges);
            let last = prev_index(pv, m);
            assert(from_pivot(pv, pv, m) == 0);
            assert(from_pivot(last, pv, m) == m - 1);
            lemma_split_by_count(0, m);
            lemma_split_by_count(m - 1, m);
            lemma_palette_entries_differ(thirds_colour(m - 1, m), thirds_colour(0, m));
            assert(colored[last].mask != colored[pv].mask);
        }
    }
}

/// Colours the edges of one contour.
///
/// A contour with two or more corners is cut into arcs at its corners, and
/// the arcs take the palette's entries in turn. A contour with fewer corners
/// is split in three by edge count, beginning at its corner or at its first
/// edge; where it is one edge long, that edge is cut in three.
pub fn color_contour(contour: &Contour) -> (colored: Vec<ColoredEdge>)
    requires
        forall|i: int| 0 <= i < contour@.len() ==> (#[trigger] contour@[i]).in_range(),
    ensures
        is_coloring_of(colored@, contour@),
{
    let m: usize = contour.edges.len();
    let ghost edges = contour@;
    if m == 1 {
        assert(contour@[0].in_range());
        let (first, rest) = cut_edge(&contour.edges[0], 3);
        let (second, third) = cut_edge(&rest, 2);
        let mut parts: Vec<ColoredEdge> = Vec::new();
        parts.push(ColoredEdge { edge: first, mask: palette_entry(0) });
        parts.push(ColoredEdge { edge: second, mask: palette_entry(1) });
        parts.push(ColoredEdge { edge: third, mask: palette_entry(2) });
        assert(parts@ =~= thirds_colored(contour@[0]));
        return parts;
    }
    let mut flags: Vec<bool> = Vec::new();
    let mut count: usize = 0;
    let mut first: usize = 0;
    let mut i: usize = 0;
    while i < m
        invariant
            i <= m,
            m == contour.edges.len(),
            edges == contour@,
            forall|j: int| 0 <= j < edges.len() ==> (#[trigger] edges[j]).in_range(),
            flags@.len() == i,
            forall|j: int| 0 <= j < i ==> flags@[j] == corner_at(edges, j),
            count == corners_upto(edges, i as int),
            count <= i,
            first == first_corner(edges, i as int),
            first <= i,
        decreases m - i,
    {
        let p: usize = if i == 0 {
            m - 1
        } else {
            i - 1
        };
        let arrive = contour.edges[p].end_direction();
        let leave = contour.edges[i].start_direction();
        let corner = turns_corner(&arrive, &leave);
        assert(corner == corner_at(edges, i as int));
        flags.push(corner);
        if corner {
            count = count + 1;
        }
        if first == i && !corner {
            first = i + 1;
        }
        i = i + 1;
    }
    let pv: usize = if first < m {
        first
    } else {
        0
    };
    let mut colored: Vec<ColoredEdge> = Vec::new();
    let mut seen: usize = 0;
    let mut i: usize = 0;
    while i < m
        invariant
            i <= m,
            m == contour.edges.len(),
            edges == contour@,
            flags@.len() == m,
            forall|j: int| 0 <= j < m ==> flags@[j] == corner_at(edges, j),
            count == corner_count(edges),
            pv == pivot(edges),
            pv < m || m == 0,
            seen == corners_upto(edges, i as int),
            seen <= i,
            seen <= count,
            colored@.len() == i,
            forall|j: int|
                0 <= j < i ==> (#[trigger] colored@[j]).edge == edges[j] && colored@[j].mask
                    == edge_mask(edges, j),
        decreases m - i,
    {
        proof {
            lemma_corners_upto_bounds(edges, i as int + 1, m as int);
        }
        if flags[i] {
            seen = seen + 1;
        }
        let index: u8 = if count >= 2 {
            let arc: usize = if seen == 0 {
                count - 1
            } else {
                seen - 1
            };
            if arc == count - 1 && arc % 3 == 0 {
                1
            } else {
                (arc % 3) as u8
            }
        } else {
            let j: usize = if i >= pv {
                i - pv
            } else {
                i + (m - pv)
            };
            proof {
                lemma_split_by_count(j as int, m as int);
            }
            ((3 * (j as u128)) / (m as u128)) as u8
        };
        assert(index == colour_index(edges, i as int));
        colored.push(ColoredEdge { edge: contour.edges[i], mask: palette_entry(index) });
        i = i + 1;
    }
    colored
}


/// A contour whose edges carry their masks.
#[derive(Clone, Debug, PartialEq, Eq)]
pub struct ColoredContour {
    pub edges: Vec<ColoredEdge>,
}

impl View for ColoredContour {
    type V = Seq<ColoredEdge>;

    open spec fn view(&self) -> Seq<ColoredEdge> {
        self.edges@
    }
}

/// Each contour of `colored` is the colouring of the contour of `outline` at
/// the same place.
pub open spec fn is_outline_coloring(colored: Seq<ColoredContour>, outline: Seq<Seq<Edge>>) -> bool {
    &&& colored.len() == outline.len()
    &&& forall|k: int|
        0 <= k < outline.len() ==> is_coloring_of((#[trigger] colored[k])@, outline[k])
}

/// Every edge of the outline is within the accepted coordinate range.
pub open spec fn outline_in_range(outline: Seq<Seq<Edge>>) -> bool {
    forall|k: int, i: int|
        0 <= k < outline.len() && 0 <= i < outline[k].len() ==> (#[trigger] outline[k][i]).in_range()
}

/// Colours every contour of an outline, each by itself.
pub fn color_outline(outline: &Outline) -> (colored: Vec<ColoredContour>)
    requires
        outline_in_range(outline@),
    ensures
        is_outline_coloring(colored@, outline@),
{
    let mut colored: Vec<ColoredContour> = Vec::new();
    let mut k: usize = 0;
    while k < outline.contours.len()
        invariant
            k <= outline.contours.len(),
            outline_in_range(outline@),
            colored@.len() == k,
            forall|j: int| 0 <= j < k ==> is_coloring_of((#[trigger] colored@[j])@, outline@[j]),
        decreases outline.contours.len() - k,
    {
        let contour = &outline.contours[k];
        assert(contour@ == outline@[k as int]);
        assert forall|i: int| 0 <= i < contour@.len() implies (#[trigger] contour@[i]).in_range() by {
            assert(outline@[k as int][i].in_range());
        }
        let edges = color_contour(contour);
        colored.push(ColoredContour { edges });
        k = k + 1;
    }
    colored
}

} // verus!
