use vstd::prelude::*;

use crate::contains::{edge_point_contains, edge_point_contains_spec, EdgePointContains, EdgePointProbe};
use crate::contour::is_path;
use crate::curve::Curve;
use crate::point::Point;

verus! {

/// An edge: the part of a curve from `start` to `end`. The start and end
/// point are not considered part of the edge, so two edges meeting only at
/// an end point do not intersect.
#[derive(Clone, Copy, Debug)]
pub struct Edge {
    pub start: Point,
    pub end: Point,
    pub curve: Curve,
}

/// Two edges describe the same point set when they run between the same
/// points along the same curve, or between swapped points along the
/// reversed curve. When the end points match in order, only the first
/// reading is considered.
pub open spec fn same_edge(a: Edge, b: Edge) -> bool {
    if a.start == b.start && a.end == b.end {
        a.curve == b.curve
    } else if a.start == b.end && a.end == b.start {
        a.curve == b.curve.spec_neg()
    } else {
        false
    }
}

impl Edge {
    /// An edge has non-zero length: its end points differ.
    pub open spec fn valid(&self) -> bool {
        self.start != self.end
    }

    /// Creates the edge from `start` to `end` along `curve`. Zero-length
    /// edges are not allowed.
    pub fn new(start: Point, end: Point, curve: Curve) -> (e: Edge)
        requires
            start != end,
        ensures
            e.start == start,
            e.end == end,
            e.curve == curve,
            e.valid(),
    {
        Edge { start, end, curve }
    }

    /// The edge run backwards along the same curve.
    pub open spec fn spec_neg(&self) -> Edge {
        Edge { start: self.end, end: self.start, curve: self.curve }
    }

    /// Returns the edge with start and end swapped, on the same curve.
    #[verifier::when_used_as_spec(spec_neg)]
    pub fn neg(&self) -> (e: Edge)
        requires
            self.valid(),
        ensures
            e == self.spec_neg(),
            e.valid(),
    {
        Edge::new(self.end, self.start, self.curve)
    }

    /// The edge run backwards along the reversed curve.
    pub open spec fn spec_flip(&self) -> Edge {
        Edge { start: self.end, end: self.start, curve: self.curve.spec_neg() }
    }

    /// Returns the edge with start and end swapped on the reversed curve:
    /// the same point set traversed the other way.
    #[verifier::when_used_as_spec(spec_flip)]
    pub fn flip(&self) -> (e: Edge)
        requires
            self.valid(),
        ensures
            e == self.spec_flip(),
            e.valid(),
    {
        Edge::new(self.end, self.start, self.curve.neg())
    }
}

impl Edge {
    /// Splits the edge at `point` when the point lies in its interior:
    /// gives the piece from the start to the point and the piece from the
    /// point to the end, in that order; otherwise gives the edge itself.
    /// `probe` is what the geometry layer reports about the point and the
    /// edge's curve.
    pub fn split_if_necessary(&self, point: &Point, probe: EdgePointProbe) -> (r: Vec<Edge>)
        requires
            self.valid(),
        ensures
            edge_point_contains_spec(*self, *point, probe) is Inside ==> r@ == seq![
                Edge { start: self.start, end: *point, curve: self.curve },
                Edge { start: *point, end: self.end, curve: self.curve },
            ],
            !(edge_point_contains_spec(*self, *point, probe) is Inside) ==> r@ == seq![*self],
            is_path(r@, self.start, self.end),
    {
        let mut r: Vec<Edge> = Vec::new();
        match edge_point_contains(self, point, probe) {
            EdgePointContains::Inside => {
                r.push(Edge::new(self.start, *point, self.curve));
                r.push(Edge::new(*point, self.end, self.curve));
            },
            _ => {
                r.push(*self);
            },
        }
        r
    }
}

/// The `k`-th stop of a walk from `start` through `points` to `end`.
pub open spec fn stop(start: Point, points: Seq<Point>, end: Point, k: int) -> Point {
    if k == 0 {
        start
    } else if k == points.len() + 1 {
        end
    } else {
        points[k - 1]
    }
}

/// The edges along `curve` from `start` through `points`, in order, to
/// `end`.
pub open spec fn path_through(start: Point, points: Seq<Point>, end: Point, curve: Curve) -> Seq<Edge> {
    Seq::new(points.len() + 1, |k: int| Edge {
        start: stop(start, points, end, k),
        end: stop(start, points, end, k + 1),
        curve: curve,
    })
}

/// Consecutive stops of the walk from `start` through `points` to `end`
/// differ, so the edges between them have non-zero length.
pub open spec fn spaced(start: Point, points: Seq<Point>, end: Point) -> bool {
    forall|k: int| 0 <= k <= points.len() ==> #[trigger] stop(start, points, end, k) != stop(start, points, end, k + 1)
}

/// The edges through well-spaced points form a path from the first point to
/// the last.
pub proof fn lemma_path_through_is_path(start: Point, points: Seq<Point>, end: Point, curve: Curve)
    requires
        spaced(start, points, end),
    ensures
        is_path(path_through(start, points, end, curve), start, end),
{
    let r = path_through(start, points, end, curve);
    assert forall|k: int| 0 <= k < r.len() implies #[trigger] r[k].valid() by {
        assert(stop(start, points, end, k) != stop(start, points, end, k + 1));
    }
}

/// The edges along `curve` from `start` through `points` to `end`.
fn chain_through(start: Point, points: &Vec<Point>, end: Point, curve: Curve) -> (r: Vec<Edge>)
    requires
        spaced(start, points@, end),
    ensures
        r@ == path_through(start, points@, end, curve),
{
    let n = points.len();
    let mut r: Vec<Edge> = Vec::new();
    let mut from = start;
    for i in 0..n
        invariant
            n == points.len(),
            spaced(start, points@, end),
            from == stop(start, points@, end, i as int),
            r@ == path_through(start, points@, end, curve).subrange(0, i as int),
    {
        assert(from != points@[i as int]) by {
            assert(stop(start, points@, end, i as int) != stop(start, points@, end, i + 1));
        }
        r.push(Edge::new(from, points[i], curve));
        from = points[i];
        assert(r@ =~= path_through(start, points@, end, curve).subrange(0, i + 1));
    }
    assert(from != end) by {
        assert(stop(start, points@, end, n as int) != stop(start, points@, end, n + 1));
    }
    r.push(Edge::new(from, end, curve));
    assert(r@ =~= path_through(start, points@, end, curve));
    r
}

impl Edge {
    /// Splits this edge and `other` at the points where they cross, so that
    /// afterwards they meet only at end points. `points_self` are the
    /// crossings in order along this edge, `points_other` the same crossings
    /// in order along `other`, both as found by the geometry layer. Each edge
    /// becomes the chain of pieces through its crossings; without crossings
    /// both edges stay as they are.
    pub fn split(&self, other: &Edge, points_self: &Vec<Point>, points_other: &Vec<Point>) -> (r: (Vec<Edge>, Vec<Edge>))
        requires
            spaced(self.start, points_self@, self.end),
            spaced(other.start, points_other@, other.end),
            points_other.len() == points_self.len(),
        ensures
            r.0@ == path_through(self.start, points_self@, self.end, self.curve),
            r.1@ == path_through(other.start, points_other@, other.end, other.curve),
            is_path(r.0@, self.start, self.end),
            is_path(r.1@, other.start, other.end),
    {
        proof {
            lemma_path_through_is_path(self.start, points_self@, self.end, self.curve);
            lemma_path_through_is_path(other.start, points_other@, other.end, other.curve);
        }
        if points_self.len() == 0 {
            let mut a: Vec<Edge> = Vec::new();
            a.push(*self);
            let mut b: Vec<Edge> = Vec::new();
            b.push(*other);
            assert(a@ =~= path_through(self.start, points_self@, self.end, self.curve));
            assert(b@ =~= path_through(other.start, points_other@, other.end, other.curve));
            return (a, b);
        }
        let a = chain_through(self.start, points_self, self.end, self.curve);
        let b = chain_through(other.start, points_other, other.end, other.curve);
        (a, b)
    }
}

/// What a line edge runs along.
#[derive(Clone, Copy, Debug, PartialEq, Eq, Structural)]
pub enum LineEdgeCurve {
    Line,
    Helix,
}

/// An edge along a line or a helix, between two points.
#[derive(Clone, Copy, Debug)]
pub struct LineEdge {
    pub curve: LineEdgeCurve,
    pub start: Point,
    pub end: Point,
}

impl PartialEq for Edge {
    fn eq(&self, other: &Edge) -> (r: bool) {
        if self.start == other.start && self.end == other.end {
            return self.curve == other.curve;
        }
        if self.start == other.end && self.end == other.start {
            return self.curve == other.curve.neg();
        }
        false
    }
}

impl vstd::std_specs::cmp::PartialEqSpecImpl for Edge {
    open spec fn obeys_eq_spec() -> bool {
        true
    }

    open spec fn eq_spec(&self, other: &Edge) -> bool {
        same_edge(*self, *other)
    }
}

/// Flipping an edge twice gives it back; a flipped edge describes the same
/// point set as the edge; reversing only the direction (`neg`) does not.
pub proof fn lemma_edge_flip_laws(e: Edge)
    ensures
        e.flip().flip() == e,
        e.neg().neg() == e,
        e.valid() ==> same_edge(e, e.flip()),
        e.valid() ==> !same_edge(e, e.neg()),
{
}

/// Edge equality is reflexive and symmetric, and transitive between valid
/// edges.
pub proof fn lemma_same_edge_equivalence(a: Edge, b: Edge, c: Edge)
    ensures
        same_edge(a, a),
        same_edge(a, b) ==> same_edge(b, a),
        a.valid() && same_edge(a, b) && same_edge(b, c) ==> same_edge(a, c),
{
}

} // verus!
