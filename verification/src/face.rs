use vstd::prelude::*;

use crate::contour::{flip_shape, lemma_flip_shape_involution, Contour, ContourShape};
use crate::curve::Surface;
use crate::edge::Edge;
use crate::point::Point;

verus! {

/// Whether a contour runs clockwise or counter-clockwise seen from the
/// surface normal.
#[derive(Clone, Copy, Debug, PartialEq, Eq, Structural)]
pub enum ContourDirection {
    Clockwise,
    CounterClockwise,
}

/// Where an edge lies relative to a face.
#[derive(Clone, Copy, Debug, PartialEq, Eq, Structural)]
pub enum FaceContainsEdge {
    Inside,
    OnBorderSameDir,
    OnBorderOppositeDir,
    Outside,
}

/// A bounded part of a surface. The first boundary is the outer one; the
/// others bound holes. Boundaries do not cross each other, though they may
/// touch at points.
#[derive(Debug)]
pub struct Face {
    pub boundaries: Vec<Contour>,
    pub surface: Surface,
}

/// The shapes of a face's boundaries, in order.
pub open spec fn boundary_shapes(boundaries: Seq<Contour>) -> Seq<ContourShape> {
    boundaries.map_values(|c: Contour| c.shape())
}

/// The edges of the boundaries made of edges, boundary after boundary.
pub open spec fn boundary_edges(boundaries: Seq<Contour>) -> Seq<Edge> {
    boundaries.map_values(|c: Contour| c.edge_seq()).flatten()
}

/// The corner points of the boundaries, boundary after boundary.
pub open spec fn boundary_points(boundaries: Seq<Contour>) -> Seq<Point> {
    boundaries.map_values(|c: Contour| c.point_seq()).flatten()
}

/// Every boundary that is made of edges closes up.
pub open spec fn all_wf(boundaries: Seq<Contour>) -> bool {
    forall|i: int| 0 <= i < boundaries.len() ==> #[trigger] boundaries[i].wf()
}

/// The boundaries of a face turned inside out: the boundaries in reverse
/// order, each run the other way.
pub open spec fn neg_shapes(s: Seq<ContourShape>) -> Seq<ContourShape> {
    Seq::new(s.len(), |i: int| flip_shape(s[s.len() - 1 - i]))
}

/// Each boundary run the other way, in the same order.
pub open spec fn flip_shapes(s: Seq<ContourShape>) -> Seq<ContourShape> {
    s.map_values(|c: ContourShape| flip_shape(c))
}

impl Face {
    /// Every boundary made of edges closes up.
    pub open spec fn wf(&self) -> bool {
        all_wf(self.boundaries@)
    }

    /// The shapes of the boundaries, in order.
    pub open spec fn shapes(&self) -> Seq<ContourShape> {
        boundary_shapes(self.boundaries@)
    }

    /// Creates the face bounded by `boundaries` on `surface`. That every
    /// edge lies on the surface is checked by the geometry layer.
    pub fn new(boundaries: Vec<Contour>, surface: Surface) -> (f: Face)
        requires
            all_wf(boundaries@),
        ensures
            f.boundaries@ == boundaries@,
            f.surface == surface,
            f.wf(),
    {
        Face { boundaries, surface }
    }

    /// The corner points of all boundaries.
    pub fn all_points(&self) -> (points: Vec<Point>)
        ensures
            points@ == boundary_points(self.boundaries@),
    {
        let mut points: Vec<Point> = Vec::new();
        let n = self.boundaries.len();
        for i in 0..n
            invariant
                n == self.boundaries.len(),
                points@ == boundary_points(self.boundaries@.subrange(0, i as int)),
        {
            let more = self.boundaries[i].all_points();
            let ghost before = points@;
            append_points(&mut points, more);
            proof {
                let b = self.boundaries@;
                let m = b.subrange(0, i as int).map_values(|c: Contour| c.point_seq());
                assert(b.subrange(0, i + 1).map_values(|c: Contour| c.point_seq()) =~= m.push(b[i as int].point_seq()));
                m.lemma_flatten_push(b[i as int].point_seq());
            }
        }
        assert(self.boundaries@.subrange(0, n as int) =~= self.boundaries@);
        points
    }

    /// The edges of all boundaries made of edges.
    pub fn all_edges(&self) -> (edges: Vec<Edge>)
        ensures
            edges@ == boundary_edges(self.boundaries@),
    {
        let mut edges: Vec<Edge> = Vec::new();
        let n = self.boundaries.len();
        for i in 0..n
            invariant
                n == self.boundaries.len(),
                edges@ == boundary_edges(self.boundaries@.subrange(0, i as int)),
        {
            match &self.boundaries[i] {
                Contour::ContourMultiPoint(c) => {
                    let k = c.edges.len();
                    let ghost before = edges@;
                    for j in 0..k
                        invariant
                            k == c.edges.len(),
                            edges@ == before + c.edges@.subrange(0, j as int),
                    {
                        edges.push(c.edges[j]);
                        assert(edges@ =~= before + c.edges@.subrange(0, j + 1));
                    }
                    assert(c.edges@.subrange(0, k as int) =~= c.edges@);
                },
                _ => {
                    assert(self.boundaries@[i as int].edge_seq() =~= Seq::<Edge>::empty());
                    assert(edges@ =~= edges@ + self.boundaries@[i as int].edge_seq());
                },
            }
            proof {
                let b = self.boundaries@;
                let m = b.subrange(0, i as int).map_values(|c: Contour| c.edge_seq());
                assert(b.subrange(0, i + 1).map_values(|c: Contour| c.edge_seq()) =~= m.push(b[i as int].edge_seq()));
                m.lemma_flatten_push(b[i as int].edge_seq());
            }
        }
        assert(self.boundaries@.subrange(0, n as int) =~= self.boundaries@);
        edges
    }

    /// The same region with its boundaries in reverse order, each run the
    /// other way, on the same surface.
    pub fn neg(&self) -> (f: Face)
        requires
            self.wf(),
        ensures
            f.shapes() == neg_shapes(self.shapes()),
            f.surface == self.surface,
            f.wf(),
    {
        let n = self.boundaries.len();
        let mut boundaries: Vec<Contour> = Vec::new();
        let mut k: usize = 0;
        while k < n
            invariant
                n == self.boundaries.len(),
                self.wf(),
                k <= n,
                boundaries.len() == k,
                boundary_shapes(boundaries@) == neg_shapes(self.shapes()).subrange(0, k as int),
                all_wf(boundaries@),
            decreases n - k,
        {
            assert(self.boundaries@[n - 1 - k].wf());
            let c = self.boundaries[n - 1 - k].flip();
            let ghost before = boundaries@;
            boundaries.push(c);
            proof {
                let b = boundaries@;
                assert(b == before.push(c));
                assert forall|i: int| 0 <= i < k + 1 implies #[trigger] boundary_shapes(b)[i] == neg_shapes(self.shapes())[i] by {
                    if i < k {
                        assert(b[i] == before[i]);
                        assert(boundary_shapes(before)[i] == neg_shapes(self.shapes()).subrange(0, k as int)[i]);
                    } else {
                        assert(b[i] == c);
                    }
                }
            }
            k = k + 1;
            assert(boundary_shapes(boundaries@) =~= neg_shapes(self.shapes()).subrange(0, k as int));
        }
        assert(neg_shapes(self.shapes()).subrange(0, n as int) =~= neg_shapes(self.shapes()));
        Face::new(boundaries, self.surface)
    }

    /// The same region seen from the other side: each boundary run the other
    /// way, and the surface normal reversed.
    pub fn flip(&self) -> (f: Face)
        requires
            self.wf(),
        ensures
            f.shapes() == flip_shapes(self.shapes()),
            f.surface == self.surface.spec_neg(),
            f.wf(),
    {
        let n = self.boundaries.len();
        let mut boundaries: Vec<Contour> = Vec::new();
        for k in 0..n
            invariant
                n == self.boundaries.len(),
                self.wf(),
                boundaries.len() == k,
                boundary_shapes(boundaries@) == flip_shapes(self.shapes()).subrange(0, k as int),
                all_wf(boundaries@),
        {
            assert(self.boundaries@[k as int].wf());
            let c = self.boundaries[k].flip();
            let ghost before = boundaries@;
            boundaries.push(c);
            proof {
                let b = boundaries@;
                assert(b == before.push(c));
                assert forall|i: int| 0 <= i < k + 1 implies #[trigger] boundary_shapes(b)[i] == flip_shapes(self.shapes())[i] by {
                    if i < k {
                        assert(b[i] == before[i]);
                        assert(boundary_shapes(before)[i] == flip_shapes(self.shapes()).subrange(0, k as int)[i]);
                    } else {
                        assert(b[i] == c);
                    }
                }
            }
            assert(boundary_shapes(boundaries@) =~= flip_shapes(self.shapes()).subrange(0, k + 1));
        }
        assert(flip_shapes(self.shapes()).subrange(0, n as int) =~= flip_shapes(self.shapes()));
        Face::new(boundaries, self.surface.neg())
    }
}

impl Clone for Face {
    fn clone(&self) -> (f: Self)
        ensures
            f.shapes() == self.shapes(),
            f.surface == self.surface,
            f.boundaries@.len() == self.boundaries@.len(),
    {
        let n = self.boundaries.len();
        let mut boundaries: Vec<Contour> = Vec::new();
        for k in 0..n
            invariant
                n == self.boundaries.len(),
                boundaries.len() == k,
                boundary_shapes(boundaries@) == boundary_shapes(self.boundaries@.subrange(0, k as int)),
        {
            let c = self.boundaries[k].clone();
            let ghost before = boundaries@;
            boundaries.push(c);
            proof {
                let b = boundaries@;
                assert(b == before.push(c));
                assert forall|i: int| 0 <= i < k + 1 implies #[trigger] boundary_shapes(b)[i] == boundary_shapes(self.boundaries@.subrange(0, k + 1))[i] by {
                    if i < k {
                        assert(b[i] == before[i]);
                        assert(boundary_shapes(before)[i] == boundary_shapes(self.boundaries@.subrange(0, k as int))[i]);
                    } else {
                        assert(b[i] == c);
                    }
                }
            }
            assert(boundary_shapes(boundaries@) =~= boundary_shapes(self.boundaries@.subrange(0, k + 1)));
        }
        assert(self.boundaries@.subrange(0, n as int) =~= self.boundaries@);
        Face { boundaries, surface: self.surface }
    }
}

fn append_points(points: &mut Vec<Point>, more: Vec<Point>)
    ensures
        final(points)@ == old(points)@ + more@,
{
    let k = more.len();
    let ghost before = points@;
    for j in 0..k
        invariant
            k == more.len(),
            points@ == before + more@.subrange(0, j as int),
    {
        points.push(more[j]);
        assert(points@ =~= before + more@.subrange(0, j + 1));
    }
    assert(more@.subrange(0, k as int) =~= more@);
}

/// Turning a face inside out twice, or flipping it twice, gives back the
/// same boundaries.
pub proof fn lemma_face_neg_flip_involution(s: Seq<ContourShape>)
    ensures
        neg_shapes(neg_shapes(s)) == s,
        flip_shapes(flip_shapes(s)) == s,
{
    assert forall|i: int| 0 <= i < s.len() implies #[trigger] neg_shapes(neg_shapes(s))[i] == s[i] by {
        lemma_flip_shape_involution(s[i]);
    }
    assert(neg_shapes(neg_shapes(s)) =~= s);
    assert forall|i: int| 0 <= i < s.len() implies #[trigger] flip_shapes(flip_shapes(s))[i] == s[i] by {
        lemma_flip_shape_involution(s[i]);
    }
    assert(flip_shapes(flip_shapes(s)) =~= s);
}

} // verus!
