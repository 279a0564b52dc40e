use vstd::prelude::*;

use crate::contains::{EdgePointProbe, FaceEdgeContains};
use crate::contour::all_valid;
use crate::edge::Edge;
use crate::contour::{Contour, ContourShape};
use crate::curve::Surface;
use crate::face::{boundary_edges, boundary_shapes, neg_shapes, Face};
use crate::point::Point;
use crate::remesh::{
    all_closed_edge_contours, assemble_spec, reassembles, contour_edge_seqs, even_degrees, face_remesh, face_split, face_split_spec,
    intersection_keeps, split_edge, split_edges, union_keeps, FaceSplit,
};
use crate::split::{cut_each, probe_deterministic, probe_report};

verus! {

/// Which kinds of classified pieces to keep when two faces are combined,
/// one flag per kind.
#[derive(Clone, Copy, Debug)]
pub struct SplitFilter {
    pub a_in_b: bool,
    pub a_on_b_same_side: bool,
    pub a_on_b_op_side: bool,
    pub a_out_b: bool,
    pub b_in_a: bool,
    pub b_on_a_same_side: bool,
    pub b_on_a_op_side: bool,
    pub b_out_a: bool,
}

/// Whether the filter keeps the piece: the flag of its kind.
pub open spec fn filter_keeps(f: SplitFilter, s: FaceSplit) -> bool {
    match s {
        FaceSplit::AinB(_) => f.a_in_b,
        FaceSplit::AonBSameSide(_) => f.a_on_b_same_side,
        FaceSplit::AonBOpSide(_) => f.a_on_b_op_side,
        FaceSplit::AoutB(_) => f.a_out_b,
        FaceSplit::BinA(_) => f.b_in_a,
        FaceSplit::BonASameSide(_) => f.b_on_a_same_side,
        FaceSplit::BonAOpSide(_) => f.b_on_a_op_side,
        FaceSplit::BoutA(_) => f.b_out_a,
    }
}

impl SplitFilter {
    /// Whether the filter keeps the piece.
    pub fn keeps(&self, s: &FaceSplit) -> (r: bool)
        ensures
            r == filter_keeps(*self, *s),
    {
        match s {
            FaceSplit::AinB(_) => self.a_in_b,
            FaceSplit::AonBSameSide(_) => self.a_on_b_same_side,
            FaceSplit::AonBOpSide(_) => self.a_on_b_op_side,
            FaceSplit::AoutB(_) => self.a_out_b,
            FaceSplit::BinA(_) => self.b_in_a,
            FaceSplit::BonASameSide(_) => self.b_on_a_same_side,
            FaceSplit::BonAOpSide(_) => self.b_on_a_op_side,
            FaceSplit::BoutA(_) => self.b_out_a,
        }
    }
}

/// The filter for a union: edges of either face outside the other, and
/// shared border running the same way, once.
pub open spec fn union_filter() -> SplitFilter {
    SplitFilter {
        a_in_b: false,
        a_on_b_same_side: true,
        a_on_b_op_side: false,
        a_out_b: true,
        b_in_a: false,
        b_on_a_same_side: false,
        b_on_a_op_side: false,
        b_out_a: true,
    }
}

/// The filter for an intersection: edges of either face inside the other,
/// and shared border running the same way, once.
pub open spec fn intersection_filter() -> SplitFilter {
    SplitFilter {
        a_in_b: true,
        a_on_b_same_side: true,
        a_on_b_op_side: false,
        a_out_b: false,
        b_in_a: true,
        b_on_a_same_side: false,
        b_on_a_op_side: false,
        b_out_a: false,
    }
}

/// The union and intersection filters keep exactly the pieces that bound
/// the union and the intersection.
pub proof fn lemma_filters_keep_bounding_pieces(s: FaceSplit)
    ensures
        filter_keeps(union_filter(), s) == union_keeps(s),
        filter_keeps(intersection_filter(), s) == intersection_keeps(s),
{
}

/// The face locator answers the same for the same edge against faces with
/// the same boundaries and surface.
pub open spec fn locate_deterministic<L: Fn(&Face, &Edge) -> FaceEdgeContains>(locate: L) -> bool {
    forall|f: &Face, g: &Face, e: &Edge, a: FaceEdgeContains, b: FaceEdgeContains|
        #![trigger call_ensures(locate, (f, e), a), call_ensures(locate, (g, e), b)]
        f.shapes() == g.shapes() && f.surface == g.surface && call_ensures(locate, (f, e), a) && call_ensures(locate, (g, e), b)
            ==> a == b
}

/// The face locator can answer `a` for the edge against some face with the
/// given boundaries and surface.
pub open spec fn locate_answers<L: Fn(&Face, &Edge) -> FaceEdgeContains>(
    locate: L,
    shapes: Seq<ContourShape>,
    surface: Surface,
    e: Edge,
    a: FaceEdgeContains,
) -> bool {
    exists|f: Face| f.shapes() == shapes && f.surface == surface && #[trigger] call_ensures(locate, (&f, &e), a)
}

/// What the face locator answers for an edge against a face with the given
/// boundaries and surface.
pub open spec fn locate_on<L: Fn(&Face, &Edge) -> FaceEdgeContains>(
    locate: L,
    shapes: Seq<ContourShape>,
    surface: Surface,
    e: Edge,
) -> FaceEdgeContains {
    choose|a: FaceEdgeContains| #[trigger] locate_answers(locate, shapes, surface, e, a)
}

/// What the face locator answers, as a function of the face's boundaries,
/// its surface and the edge.
pub open spec fn locate_report<L: Fn(&Face, &Edge) -> FaceEdgeContains>(locate: L) -> spec_fn(Seq<ContourShape>, Surface, Edge) -> FaceEdgeContains {
    |shapes: Seq<ContourShape>, surface: Surface, e: Edge| locate_on(locate, shapes, surface, e)
}

/// Where each of `edges` lies relative to `face`, as the locator reports.
pub(crate) fn locate_all<L: Fn(&Face, &Edge) -> FaceEdgeContains>(locate: &L, face: &Face, edges: &Vec<Edge>) -> (r: Vec<FaceEdgeContains>)
    requires
        locate_deterministic(*locate),
        forall|f: &Face, e: &Edge| #[trigger] locate.requires((f, e)),
    ensures
        r@ == edges@.map_values(|e: Edge| locate_report(*locate)(face.shapes(), face.surface, e)),
{
    let n = edges.len();
    let mut r: Vec<FaceEdgeContains> = Vec::new();
    for i in 0..n
        invariant
            n == edges.len(),
            locate_deterministic(*locate),
            forall|f: &Face, e: &Edge| #[trigger] locate.requires((f, e)),
            r@ == edges@.subrange(0, i as int).map_values(|e: Edge| locate_report(*locate)(face.shapes(), face.surface, e)),
    {
        let c = locate(face, &edges[i]);
        proof {
            let e = edges@[i as int];
            assert(call_ensures(*locate, (face, &e), c));
            assert(locate_answers(*locate, face.shapes(), face.surface, e, c));
            let a = locate_on(*locate, face.shapes(), face.surface, e);
            let g = choose|f: Face| f.shapes() == face.shapes() && f.surface == face.surface && #[trigger] call_ensures(*locate, (&f, &e), a);
            assert(call_ensures(*locate, (&g, &e), a));
            assert(a == c);
        }
        r.push(c);
        assert(r@ =~= edges@.subrange(0, i + 1).map_values(|e: Edge| locate_report(*locate)(face.shapes(), face.surface, e)));
    }
    assert(edges@.subrange(0, n as int) =~= edges@);
    r
}

/// The pieces the filter keeps, in order.
pub(crate) fn keep_pieces(filter: &SplitFilter, pieces: Vec<FaceSplit>) -> (r: Vec<FaceSplit>)
    ensures
        r@ == pieces@.filter(|s: FaceSplit| filter_keeps(*filter, s)),
{
    let n = pieces.len();
    let mut r: Vec<FaceSplit> = Vec::new();
    for i in 0..n
        invariant
            n == pieces.len(),
            r@ == pieces@.subrange(0, i as int).filter(|s: FaceSplit| filter_keeps(*filter, s)),
    {
        let keep = filter.keeps(&pieces[i]);
        proof {
            let sub = pieces@.subrange(0, i + 1);
            assert(sub.drop_last() =~= pieces@.subrange(0, i as int));
            reveal_with_fuel(Seq::filter, 1);
        }
        if keep {
            r.push(pieces[i]);
        }
    }
    assert(pieces@.subrange(0, n as int) =~= pieces@);
    r
}

/// The edges of the boundaries made of edges, boundary after boundary.
pub open spec fn shape_edges(shapes: Seq<ContourShape>) -> Seq<Edge> {
    shapes.map_values(|c: ContourShape| match c {
        ContourShape::Edges(e) => e,
        _ => Seq::empty(),
    }).flatten()
}

/// The boundary pieces of two faces, given by their boundaries and
/// surfaces, cut at `points` and classified against each other: the first
/// face's pieces tagged by where they lie relative to the second face, then
/// the second face's pieces tagged by where they lie relative to the first.
pub open spec fn split_parts_pieces_on(
    shapes_a: Seq<ContourShape>,
    surface_a: Surface,
    shapes_b: Seq<ContourShape>,
    surface_b: Surface,
    points: Seq<Point>,
    probe: spec_fn(Edge, Point) -> EdgePointProbe,
    locate: spec_fn(Seq<ContourShape>, Surface, Edge) -> FaceEdgeContains,
) -> Seq<FaceSplit> {
    let ea = cut_each(shape_edges(shapes_a), points, probe).flatten();
    let eb = cut_each(shape_edges(shapes_b), points, probe).flatten();
    face_split_spec(
        ea,
        ea.map_values(|e: Edge| locate(shapes_b, surface_b, e)),
        eb,
        eb.map_values(|e: Edge| locate(shapes_a, surface_a, e)),
    )
}

/// The edges of the pieces that `filter` keeps.
pub open spec fn split_parts_edges_on(
    shapes_a: Seq<ContourShape>,
    surface_a: Surface,
    shapes_b: Seq<ContourShape>,
    surface_b: Surface,
    points: Seq<Point>,
    probe: spec_fn(Edge, Point) -> EdgePointProbe,
    locate: spec_fn(Seq<ContourShape>, Surface, Edge) -> FaceEdgeContains,
    filter: SplitFilter,
) -> Seq<Edge> {
    split_edges(
        split_parts_pieces_on(shapes_a, surface_a, shapes_b, surface_b, points, probe, locate).filter(
            |s: FaceSplit| filter_keeps(filter, s),
        ),
    )
}

/// `split_parts_pieces_on` for two faces.
pub open spec fn split_parts_pieces(
    a: Face,
    b: Face,
    points: Seq<Point>,
    probe: spec_fn(Edge, Point) -> EdgePointProbe,
    locate: spec_fn(Seq<ContourShape>, Surface, Edge) -> FaceEdgeContains,
) -> Seq<FaceSplit> {
    split_parts_pieces_on(a.shapes(), a.surface, b.shapes(), b.surface, points, probe, locate)
}

/// `split_parts_edges_on` for two faces.
pub open spec fn split_parts_edges(
    a: Face,
    b: Face,
    points: Seq<Point>,
    probe: spec_fn(Edge, Point) -> EdgePointProbe,
    locate: spec_fn(Seq<ContourShape>, Surface, Edge) -> FaceEdgeContains,
    filter: SplitFilter,
) -> Seq<Edge> {
    split_parts_edges_on(a.shapes(), a.surface, b.shapes(), b.surface, points, probe, locate, filter)
}

/// The boundary edges of a face are the edges of its boundaries' shapes.
pub proof fn lemma_boundary_edges_of_shapes(boundaries: Seq<Contour>)
    ensures
        boundary_edges(boundaries) == shape_edges(boundary_shapes(boundaries)),
{
    let m1 = boundaries.map_values(|c: Contour| c.edge_seq());
    let m2 = boundary_shapes(boundaries).map_values(|c: ContourShape| match c {
        ContourShape::Edges(e) => e,
        _ => Seq::empty(),
    });
    assert(m1 =~= m2);
}

/// The kept pieces carry valid edges when all the pieces do.
pub(crate) proof fn lemma_kept_edges_valid(pieces: Seq<FaceSplit>, keep: spec_fn(FaceSplit) -> bool)
    requires
        all_valid(split_edges(pieces)),
    ensures
        all_valid(split_edges(pieces.filter(keep))),
{
    let kept = pieces.filter(keep);
    assert forall|k: int| 0 <= k < split_edges(kept).len() implies #[trigger] split_edges(kept)[k].valid() by {
        assert(kept.contains(kept[k]));
        pieces.lemma_filter_contains_rev(keep, kept[k]);
        let j = choose|j: int| 0 <= j < pieces.len() && pieces[j] == kept[k];
        assert(split_edges(pieces)[j] == split_edge(pieces[j]));
    }
}

impl Face {
    /// Combines this face with `other` on the same surface. Both boundaries
    /// are cut at `points`, where they cross (`probe` reports a point against
    /// an edge's curve); each piece of one face is classified against the
    /// other face (`locate`); the pieces that `filter` keeps are chained
    /// into the contours of the result. Every point has to be the end point
    /// of an even number of the kept edges, so that the contours close.
    pub fn split_parts<P: Fn(&Edge, &Point) -> EdgePointProbe, L: Fn(&Face, &Edge) -> FaceEdgeContains>(
        &self,
        other: &Face,
        points: &Vec<Point>,
        probe: &P,
        locate: &L,
        filter: &SplitFilter,
    ) -> (f: Face)
        requires
            self.surface == other.surface,
            self.wf(),
            other.wf(),
            probe_deterministic(*probe),
            forall|e: &Edge, q: &Point| #[trigger] probe.requires((e, q)),
            locate_deterministic(*locate),
            forall|g: &Face, e: &Edge| #[trigger] locate.requires((g, e)),
            even_degrees(split_parts_edges(*self, *other, points@, probe_report(*probe), locate_report(*locate), *filter)),
        ensures
            f.surface == self.surface,
            f.wf(),
            all_closed_edge_contours(f.boundaries@),
            contour_edge_seqs(f.boundaries@) == assemble_spec(
                split_parts_edges(*self, *other, points@, probe_report(*probe), locate_report(*locate), *filter),
            ),
            reassembles(
                boundary_edges(f.boundaries@),
                split_parts_edges(*self, *other, points@, probe_report(*probe), locate_report(*locate), *filter),
            ),
    {
        let pieces = face_split(self, other, points, probe, locate);
        proof {
            lemma_kept_edges_valid(pieces@, |s: FaceSplit| filter_keeps(*filter, s));
        }
        let kept = keep_pieces(filter, pieces);
        face_remesh(self.surface, kept)
    }

    /// The union of this face and `other` on the same surface: `split_parts`
    /// keeping the pieces of either face outside the other and the shared
    /// border running the same way.
    pub fn surface_union<P: Fn(&Edge, &Point) -> EdgePointProbe, L: Fn(&Face, &Edge) -> FaceEdgeContains>(
        &self,
        other: &Face,
        points: &Vec<Point>,
        probe: &P,
        locate: &L,
    ) -> (f: Face)
        requires
            self.surface == other.surface,
            self.wf(),
            other.wf(),
            probe_deterministic(*probe),
            forall|e: &Edge, q: &Point| #[trigger] probe.requires((e, q)),
            locate_deterministic(*locate),
            forall|g: &Face, e: &Edge| #[trigger] locate.requires((g, e)),
            even_degrees(split_parts_edges(*self, *other, points@, probe_report(*probe), locate_report(*locate), union_filter())),
        ensures
            f.surface == self.surface,
            f.wf(),
            all_closed_edge_contours(f.boundaries@),
            contour_edge_seqs(f.boundaries@) == assemble_spec(
                split_parts_edges(*self, *other, points@, probe_report(*probe), locate_report(*locate), union_filter()),
            ),
            reassembles(
                boundary_edges(f.boundaries@),
                split_parts_edges(*self, *other, points@, probe_report(*probe), locate_report(*locate), union_filter()),
            ),
    {
        let filter = SplitFilter {
            a_in_b: false,
            a_on_b_same_side: true,
            a_on_b_op_side: false,
            a_out_b: true,
            b_in_a: false,
            b_on_a_same_side: false,
            b_on_a_op_side: false,
            b_out_a: true,
        };
        self.split_parts(other, points, probe, locate, &filter)
    }

    /// The intersection of this face and `other` on the same surface:
    /// `split_parts` keeping the pieces of either face inside the other and
    /// the shared border running the same way.
    pub fn surface_intersection<P: Fn(&Edge, &Point) -> EdgePointProbe, L: Fn(&Face, &Edge) -> FaceEdgeContains>(
        &self,
        other: &Face,
        points: &Vec<Point>,
        probe: &P,
        locate: &L,
    ) -> (f: Face)
        requires
            self.surface == other.surface,
            self.wf(),
            other.wf(),
            probe_deterministic(*probe),
            forall|e: &Edge, q: &Point| #[trigger] probe.requires((e, q)),
            locate_deterministic(*locate),
            forall|g: &Face, e: &Edge| #[trigger] locate.requires((g, e)),
            even_degrees(split_parts_edges(*self, *other, points@, probe_report(*probe), locate_report(*locate), intersection_filter())),
        ensures
            f.surface == self.surface,
            f.wf(),
            all_closed_edge_contours(f.boundaries@),
            contour_edge_seqs(f.boundaries@) == assemble_spec(
                split_parts_edges(*self, *other, points@, probe_report(*probe), locate_report(*locate), intersection_filter()),
            ),
            reassembles(
                boundary_edges(f.boundaries@),
                split_parts_edges(*self, *other, points@, probe_report(*probe), locate_report(*locate), intersection_filter()),
            ),
    {
        let filter = SplitFilter {
            a_in_b: true,
            a_on_b_same_side: true,
            a_on_b_op_side: false,
            a_out_b: false,
            b_in_a: true,
            b_on_a_same_side: false,
            b_on_a_op_side: false,
            b_out_a: false,
        };
        self.split_parts(other, points, probe, locate, &filter)
    }

    /// This face minus `other` on the same surface: the intersection of
    /// this face with `other` turned inside out (`other.neg()`: its
    /// boundaries in reverse order, each run the other way).
    pub fn surface_difference<P: Fn(&Edge, &Point) -> EdgePointProbe, L: Fn(&Face, &Edge) -> FaceEdgeContains>(
        &self,
        other: &Face,
        points: &Vec<Point>,
        probe: &P,
        locate: &L,
    ) -> (f: Face)
        requires
            self.surface == other.surface,
            self.wf(),
            other.wf(),
            probe_deterministic(*probe),
            forall|e: &Edge, q: &Point| #[trigger] probe.requires((e, q)),
            locate_deterministic(*locate),
            forall|g: &Face, e: &Edge| #[trigger] locate.requires((g, e)),
            even_degrees(
                split_parts_edges_on(
                    self.shapes(),
                    self.surface,
                    neg_shapes(other.shapes()),
                    other.surface,
                    points@,
                    probe_report(*probe),
                    locate_report(*locate),
                    intersection_filter(),
                ),
            ),
        ensures
            f.surface == self.surface,
            f.wf(),
            all_closed_edge_contours(f.boundaries@),
            contour_edge_seqs(f.boundaries@) == assemble_spec(
                split_parts_edges_on(
                    self.shapes(),
                    self.surface,
                    neg_shapes(other.shapes()),
                    other.surface,
                    points@,
                    probe_report(*probe),
                    locate_report(*locate),
                    intersection_filter(),
                ),
            ),
            reassembles(
                boundary_edges(f.boundaries@),
                split_parts_edges_on(
                    self.shapes(),
                    self.surface,
                    neg_shapes(other.shapes()),
                    other.surface,
                    points@,
                    probe_report(*probe),
                    locate_report(*locate),
                    intersection_filter(),
                ),
            ),
    {
        let inverted = other.neg();
        self.surface_intersection(&inverted, points, probe, locate)
    }
}

} // verus!
