//! Outlines: path commands in, closed contours of edges out.

use vstd::prelude::*;
use crate::geometry::Point;

verus! {

/// One drawing command of a glyph path, in sub-units.
#[derive(Clone, Copy, Debug, PartialEq, Eq)]
pub enum PathCommand {
    /// Starts a new contour at the given point.
    MoveTo(Point),
    /// Straight line from the current point.
    LineTo(Point),
    /// Quadratic curve from the current point: control point, end point.
    QuadTo(Point, Point),
    /// Cubic curve from the current point: two control points, end point.
    CurveTo(Point, Point, Point),
    /// Closes the contour that is open.
    Close,
}

/// A directed edge of a contour.
#[derive(Clone, Copy, Debug, PartialEq, Eq)]
pub enum Edge {
    Line { from: Point, to: Point },
    Quad { from: Point, ctrl: Point, to: Point },
    Cubic { from: Point, ctrl1: Point, ctrl2: Point, to: Point },
}

impl Edge {
    /// The point at which the edge begins.
    pub open spec fn start(self) -> Point {
        match self {
            Edge::Line { from, .. } => from,
            Edge::Quad { from, .. } => from,
            Edge::Cubic { from, .. } => from,
        }
    }

    /// The point at which the edge ends.
    pub open spec fn end(self) -> Point {
        match self {
            Edge::Line { to, .. } => to,
            Edge::Quad { to, .. } => to,
            Edge::Cubic { to, .. } => to,
        }
    }

    /// An edge has zero length when all of its points coincide.
    pub open spec fn is_degenerate(self) -> bool {
        match self {
            Edge::Line { from, to } => from == to,
            Edge::Quad { from, ctrl, to } => from == ctrl && ctrl == to,
            Edge::Cubic { from, ctrl1, ctrl2, to } => from == ctrl1 && ctrl1 == ctrl2 && ctrl2
                == to,
        }
    }

    /// Every point of the edge is within the accepted coordinate range.
    pub open spec fn in_range(self) -> bool {
        match self {
            Edge::Line { from, to } => from.in_range() && to.in_range(),
            Edge::Quad { from, ctrl, to } => from.in_range() && ctrl.in_range() && to.in_range(),
            Edge::Cubic { from, ctrl1, ctrl2, to } => from.in_range() && ctrl1.in_range()
                && ctrl2.in_range() && to.in_range(),
        }
    }

    pub fn start_point(&self) -> (p: Point)
        ensures
            p == self.start(),
    {
        match self {
            Edge::Line { from, .. } => *from,
            Edge::Quad { from, .. } => *from,
            Edge::Cubic { from, .. } => *from,
        }
    }

    pub fn end_point(&self) -> (p: Point)
        ensures
            p == self.end(),
    {
        match self {
            Edge::Line { to, .. } => *to,
            Edge::Quad { to, .. } => *to,
            Edge::Cubic { to, .. } => *to,
        }
    }

    pub fn is_zero_length(&self) -> (b: bool)
        ensures
            b == self.is_degenerate(),
    {
        match self {
            Edge::Line { from, to } => from.same(to),
            Edge::Quad { from, ctrl, to } => from.same(ctrl) && ctrl.same(to),
            Edge::Cubic { from, ctrl1, ctrl2, to } => from.same(ctrl1) && ctrl1.same(ctrl2)
                && ctrl2.same(to),
        }
    }
}


/// A closed contour: its edges in drawing order.
#[derive(Clone, Debug, PartialEq, Eq)]
pub struct Contour {
    pub edges: Vec<Edge>,
}

impl View for Contour {
    type V = Seq<Edge>;

    open spec fn view(&self) -> Seq<Edge> {
        self.edges@
    }
}

/// The edges of a contour are in range, none has zero length, each ends where
/// the next begins, and the last ends where the first begins.
pub open spec fn contour_wf(edges: Seq<Edge>) -> bool {
    &&& edges.len() > 0
    &&& forall|i: int| 0 <= i < edges.len() ==> (#[trigger] edges[i]).in_range() && !edges[i].is_degenerate()
    &&& forall|i: int| 0 <= i < edges.len() - 1 ==> (#[trigger] edges[i]).end() == edges[i + 1].start()
    &&& edges.last().end() == edges[0].start()
}

/// The edge sequences of a sequence of contours.
pub open spec fn contour_views(contours: Seq<Contour>) -> Seq<Seq<Edge>> {
    Seq::new(contours.len(), |i: int| contours[i]@)
}

/// The outline of one glyph: closed contours in drawing order.
#[derive(Clone, Debug, PartialEq, Eq)]
pub struct Outline {
    pub contours: Vec<Contour>,
}

impl View for Outline {
    type V = Seq<Seq<Edge>>;

    open spec fn view(&self) -> Seq<Seq<Edge>> {
        contour_views(self.contours@)
    }
}

impl Outline {
    /// Every contour of the outline is well formed.
    pub open spec fn wf(&self) -> bool {
        forall|k: int| 0 <= k < self@.len() ==> contour_wf(#[trigger] self@[k])
    }

    /// An outline without contours draws nothing.
    pub fn is_empty(&self) -> (b: bool)
        ensures
            b == (self@.len() == 0),
    {
        self.contours.len() == 0
    }
}

/// Why a command sequence is not an outline.
#[derive(Clone, Copy, Debug, PartialEq, Eq, Structural)]
pub enum OutlineError {
    /// A drawing or closing command came while no contour was open.
    NoCurrentPoint,
    /// A command holds a coordinate beyond the accepted range.
    OutOfRange,
}

/// A contour that is still being drawn.
pub struct OpenPath {
    pub start: Point,
    pub cur: Point,
    pub edges: Seq<Edge>,
}

/// What a prefix of a command sequence has drawn.
pub struct Trace {
    pub done: Seq<Seq<Edge>>,
    pub open: Option<OpenPath>,
}

pub open spec fn command_in_range(c: PathCommand) -> bool {
    match c {
        PathCommand::MoveTo(p) => p.in_range(),
        PathCommand::LineTo(p) => p.in_range(),
        PathCommand::QuadTo(c, p) => c.in_range() && p.in_range(),
        PathCommand::CurveTo(c1, c2, p) => c1.in_range() && c2.in_range() && p.in_range(),
        PathCommand::Close => true,
    }
}

/// The edge that a drawing command adds when the pen rests at `cur`.
pub open spec fn command_edge(cur: Point, c: PathCommand) -> Option<Edge> {
    match c {
        PathCommand::LineTo(p) => Some(Edge::Line { from: cur, to: p }),
        PathCommand::QuadTo(c, p) => Some(Edge::Quad { from: cur, ctrl: c, to: p }),
        PathCommand::CurveTo(c1, c2, p) => Some(
            Edge::Cubic { from: cur, ctrl1: c1, ctrl2: c2, to: p },
        ),
        _ => None,
    }
}

/// The edges of an open path once it is closed: a straight edge leads back to
/// the start unless the pen already rests there.
pub open spec fn closed_edges(p: OpenPath) -> Seq<Edge> {
    if p.cur == p.start {
        p.edges
    } else {
        p.edges.push(Edge::Line { from: p.cur, to: p.start })
    }
}

/// The finished contours after the open path, if any, is closed. A path
/// without edges leaves no contour.
pub open spec fn seal(done: Seq<Seq<Edge>>, open: Option<OpenPath>) -> Seq<Seq<Edge>> {
    match open {
        None => done,
        Some(p) => if closed_edges(p).len() == 0 {
            done
        } else {
            done.push(closed_edges(p))
        },
    }
}

/// The open path after an edge is drawn; an edge of zero length is dropped.
pub open spec fn extend(p: OpenPath, e: Edge) -> OpenPath {
    OpenPath {
        start: p.start,
        cur: e.end(),
        edges: if e.is_degenerate() {
            p.edges
        } else {
            p.edges.push(e)
        },
    }
}

/// The effect of one command.
pub open spec fn step(t: Trace, c: PathCommand) -> Result<Trace, OutlineError> {
    if !command_in_range(c) {
        Err(OutlineError::OutOfRange)
    } else {
        match c {
            PathCommand::MoveTo(p) => Ok(
                Trace {
                    done: seal(t.done, t.open),
                    open: Some(OpenPath { start: p, cur: p, edges: Seq::empty() }),
                },
            ),
            PathCommand::Close => match t.open {
                None => Err(OutlineError::NoCurrentPoint),
                Some(_) => Ok(Trace { done: seal(t.done, t.open), open: None }),
            },
            _ => match t.open {
                None => Err(OutlineError::NoCurrentPoint),
                Some(p) => Ok(
                    Trace {
                        done: t.done,
                        open: Some(extend(p, command_edge(p.cur, c).unwrap())),
                    },
                ),
            },
        }
    }
}

/// The effect of a command sequence, or the fault of its first bad command.
pub open spec fn trace(cmds: Seq<PathCommand>) -> Result<Trace, OutlineError>
    decreases cmds.len(),
{
    if cmds.len() == 0 {
        Ok(Trace { done: Seq::empty(), open: None })
    } else {
        match trace(cmds.drop_last()) {
            Ok(t) => step(t, cmds.last()),
            Err(e) => Err(e),
        }
    }
}

/// The contours that a command sequence draws. A contour left open at the
/// end is closed.
pub open spec fn contours_of(cmds: Seq<PathCommand>) -> Result<Seq<Seq<Edge>>, OutlineError> {
    match trace(cmds) {
        Ok(t) => Ok(seal(t.done, t.open)),
        Err(e) => Err(e),
    }
}

/// What holds of a path while it is drawn.
pub open spec fn open_wf(p: OpenPath) -> bool {
    &&& p.start.in_range()
    &&& p.cur.in_range()
    &&& forall|i: int| 0 <= i < p.edges.len() ==> (#[trigger] p.edges[i]).in_range() && !p.edges[i].is_degenerate()
    &&& forall|i: int| 0 <= i < p.edges.len() - 1 ==> (#[trigger] p.edges[i]).end() == p.edges[i + 1].start()
    &&& if p.edges.len() == 0 {
        p.cur == p.start
    } else {
        p.edges[0].start() == p.start && p.edges.last().end() == p.cur
    }
}

pub open spec fn trace_wf(t: Trace) -> bool {
    &&& forall|k: int| 0 <= k < t.done.len() ==> contour_wf(#[trigger] t.done[k])
    &&& t.open matches Some(p) ==> open_wf(p)
}

proof fn lemma_extend_wf(p: OpenPath, e: Edge)
    requires
        open_wf(p),
        e.in_range(),
        e.start() == p.cur,
    ensures
        open_wf(extend(p, e)),
{
    let q = extend(p, e);
    if !e.is_degenerate() {
        assert forall|i: int| 0 <= i < q.edges.len() implies (#[trigger] q.edges[i]).in_range()
            && !q.edges[i].is_degenerate() by {
            if i < p.edges.len() {
                assert(q.edges[i] == p.edges[i]);
            }
        }
        assert forall|i: int| 0 <= i < q.edges.len() - 1 implies (#[trigger] q.edges[i]).end()
            == q.edges[i + 1].start() by {
            if i < p.edges.len() - 1 {
                assert(q.edges[i] == p.edges[i]);
                assert(q.edges[i + 1] == p.edges[i + 1]);
            } else {
                assert(q.edges[i] == p.edges.last());
            }
        }
    }
}

proof fn lemma_seal_wf(done: Seq<Seq<Edge>>, open: Option<OpenPath>)
    requires
        trace_wf(Trace { done, open }),
    ensures
        forall|k: int| 0 <= k < seal(done, open).len() ==> contour_wf(#[trigger] seal(done, open)[k]),
{
    let t = Trace { done, open };
    assert forall|k: int| 0 <= k < done.len() implies contour_wf(#[trigger] done[k]) by {
        assert(contour_wf(t.done[k]));
    }
    match open {
        None => {},
        Some(p) => {
            let edges = closed_edges(p);
            if edges.len() > 0 {
                if p.cur != p.start {
                    let back = Edge::Line { from: p.cur, to: p.start };
                    assert forall|i: int| 0 <= i < edges.len() implies (#[trigger] edges[i]).in_range()
                        && !edges[i].is_degenerate() by {
                        if i < p.edges.len() {
                            assert(edges[i] == p.edges[i]);
                        }
                    }
                    assert forall|i: int| 0 <= i < edges.len() - 1 implies (#[trigger] edges[i]).end()
                        == edges[i + 1].start() by {
                        if i < p.edges.len() - 1 {
                            assert(edges[i] == p.edges[i]);
                            assert(edges[i + 1] == p.edges[i + 1]);
                        } else {
                            assert(edges[i] == p.edges.last());
                        }
                    }
                    assert(edges.last() == back);
                    if p.edges.len() > 0 {
                        assert(edges[0] == p.edges[0]);
                    }
                }
                assert(contour_wf(edges));
                let sealed = seal(done, open);
                assert forall|k: int| 0 <= k < sealed.len() implies contour_wf(
                    #[trigger] sealed[k],
                ) by {
                    if k < done.len() {
                        assert(sealed[k] == done[k]);
                    } else {
                        assert(sealed[k] == edges);
                    }
                }
            }
        },
    }
}

proof fn lemma_step_wf(t: Trace, c: PathCommand)
    requires
        trace_wf(t),
    ensures
        step(t, c) matches Ok(u) ==> trace_wf(u),
{
    if command_in_range(c) {
        match c {
            PathCommand::MoveTo(p) => {
                lemma_seal_wf(t.done, t.open);
            },
            PathCommand::Close => {
                lemma_seal_wf(t.done, t.open);
            },
            _ => {
                if let Some(p) = t.open {
                    lemma_extend_wf(p, command_edge(p.cur, c).unwrap());
                }
            },
        }
    }
}

/// Whatever a command sequence draws is made of well-formed contours: each
/// is closed and connected, and holds no edge of zero length.
pub proof fn lemma_contours_wf(cmds: Seq<PathCommand>)
    ensures
        trace(cmds) matches Ok(t) ==> trace_wf(t),
        contours_of(cmds) matches Ok(cs) ==> forall|k: int|
            0 <= k < cs.len() ==> contour_wf(#[trigger] cs[k]),
    decreases cmds.len(),
{
    if cmds.len() > 0 {
        lemma_contours_wf(cmds.drop_last());
        if let Ok(t) = trace(cmds.drop_last()) {
            lemma_step_wf(t, cmds.last());
        }
    }
    if let Ok(t) = trace(cmds) {
        lemma_seal_wf(t.done, t.open);
    }
}


/// A fault in a prefix of a command sequence is the fault of the sequence.
proof fn lemma_trace_fault_persists(cmds: Seq<PathCommand>, n: int, e: OutlineError)
    requires
        0 <= n <= cmds.len(),
        trace(cmds.take(n)) == Err::<Trace, OutlineError>(e),
    ensures
        trace(cmds) == Err::<Trace, OutlineError>(e),
    decreases cmds.len(),
{
    if n == cmds.len() {
        assert(cmds.take(n) =~= cmds);
    } else {
        assert(cmds.drop_last().take(n) =~= cmds.take(n));
        lemma_trace_fault_persists(cmds.drop_last(), n, e);
    }
}

fn command_is_in_range(c: &PathCommand) -> (b: bool)
    ensures
        b == command_in_range(*c),
{
    match c {
        PathCommand::MoveTo(p) => p.is_in_range(),
        PathCommand::LineTo(p) => p.is_in_range(),
        PathCommand::QuadTo(c, p) => c.is_in_range() && p.is_in_range(),
        PathCommand::CurveTo(c1, c2, p) => c1.is_in_range() && c2.is_in_range() && p.is_in_range(),
        PathCommand::Close => true,
    }
}

/// Closes a path and files it among the finished contours.
fn seal_path(done: &mut Vec<Contour>, start: Point, cur: Point, edges: Vec<Edge>)
    ensures
        contour_views(final(done)@) == seal(
            contour_views(old(done)@),
            Some(OpenPath { start, cur, edges: edges@ }),
        ),
{
    let ghost path = OpenPath { start, cur, edges: edges@ };
    let mut edges = edges;
    if !cur.same(&start) {
        edges.push(Edge::Line { from: cur, to: start });
    }
    assert(edges@ == closed_edges(path));
    if edges.len() > 0 {
        done.push(Contour { edges });
        assert(contour_views(done@) =~= contour_views(old(done)@).push(closed_edges(path)));
    }
}

/// Turns the path commands of one glyph into closed contours.
///
/// A contour begins with `MoveTo` and ends with `Close`, with the next
/// `MoveTo`, or with the end of the commands; where the pen does not rest at
/// the contour's start by then, a straight edge leads back to it. Edges of
/// zero length are dropped, and so is a contour that is left without edges.
/// Curves stay curves.
///
/// The result is an error where a command holds a coordinate beyond
/// `COORD_LIMIT`, or where a drawing or closing command comes while no
/// contour is open; the first such command decides which.
pub fn decompose(commands: &Vec<PathCommand>) -> (r: Result<Outline, OutlineError>)
    ensures
        match r {
            Ok(o) => contours_of(commands@) == Ok::<Seq<Seq<Edge>>, OutlineError>(o@) && o.wf(),
            Err(e) => contours_of(commands@) == Err::<Seq<Seq<Edge>>, OutlineError>(e),
        },
{
    let mut done: Vec<Contour> = Vec::new();
    let mut is_open = false;
    let mut start = Point { x: 0, y: 0 };
    let mut cur = Point { x: 0, y: 0 };
    let mut edges: Vec<Edge> = Vec::new();
    let mut i: usize = 0;
    assert(contour_views(done@) =~= Seq::<Seq<Edge>>::empty());
    assert(commands@.take(0) =~= Seq::<PathCommand>::empty());
    while i < commands.len()
        invariant
            i <= commands.len(),
            trace(commands@.take(i as int)) == Ok::<Trace, OutlineError>(
                Trace {
                    done: contour_views(done@),
                    open: if is_open {
                        Some(OpenPath { start, cur, edges: edges@ })
                    } else {
                        None
                    },
                },
            ),
        decreases commands.len() - i,
    {
        let c = commands[i];
        proof {
            assert(commands@.take(i + 1).drop_last() =~= commands@.take(i as int));
            assert(commands@.take(i + 1).last() == c);
        }
        if !command_is_in_range(&c) {
            proof {
                lemma_trace_fault_persists(commands@, i + 1, OutlineError::OutOfRange);
            }
            return Err(OutlineError::OutOfRange);
        }
        match c {
            PathCommand::MoveTo(p) => {
                let finished = edges;
                edges = Vec::new();
                if is_open {
                    seal_path(&mut done, start, cur, finished);
                }
                is_open = true;
                start = p;
                cur = p;
                assert(edges@ =~= Seq::<Edge>::empty());
            },
            PathCommand::Close => {
                if !is_open {
                    proof {
                        lemma_trace_fault_persists(commands@, i + 1, OutlineError::NoCurrentPoint);
                    }
                    return Err(OutlineError::NoCurrentPoint);
                }
                let finished = edges;
                edges = Vec::new();
                seal_path(&mut done, start, cur, finished);
                is_open = false;
            },
            _ => {
                if !is_open {
                    proof {
                        lemma_trace_fault_persists(commands@, i + 1, OutlineError::NoCurrentPoint);
                    }
                    return Err(OutlineError::NoCurrentPoint);
                }
                let edge = match c {
                    PathCommand::LineTo(p) => Edge::Line { from: cur, to: p },
                    PathCommand::QuadTo(q, p) => Edge::Quad { from: cur, ctrl: q, to: p },
                    PathCommand::CurveTo(q1, q2, p) => Edge::Cubic {
                        from: cur,
                        ctrl1: q1,
                        ctrl2: q2,
                        to: p,
                    },
                    _ => Edge::Line { from: cur, to: cur },
                };
                assert(Some(edge) == command_edge(cur, c));
                if !edge.is_zero_length() {
                    edges.push(edge);
                }
                cur = edge.end_point();
            },
        }
        i += 1;
    }
    assert(commands@.take(i as int) =~= commands@);
    if is_open {
        seal_path(&mut done, start, cur, edges);
    }
    proof {
        lemma_contours_wf(commands@);
    }
    Ok(Outline { contours: done })
}

} // verus!
