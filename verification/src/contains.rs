use vstd::prelude::*;

use crate::contour::{contact, first_contact, lemma_first_contact_exists, lemma_first_contact_unique, touches, Contour};
use crate::edge::Edge;
use crate::face::{boundary_edges, Face};
use crate::point::Point;
use crate::volume::Volume;

verus! {

/// What the geometry layer reports about a point relative to an edge: whether
/// the point lies on the edge's curve, and whether it lies strictly between
/// the edge's start and end along that curve.
#[derive(Clone, Copy, Debug, PartialEq, Eq, Structural)]
pub struct EdgePointProbe {
    pub on_curve: bool,
    pub between: bool,
}

/// Where a point lies relative to an edge.
#[derive(Clone, Copy, Debug, PartialEq, Eq, Structural)]
pub enum EdgePointContains {
    Inside,
    Outside,
    OnPoint(Point),
}

impl EdgePointContains {
    /// Whether the point lies in the interior of the edge.
    pub fn is_inside(&self) -> (r: bool)
        ensures
            r == (*self is Inside),
    {
        match self {
            EdgePointContains::Inside => true,
            EdgePointContains::Outside => false,
            EdgePointContains::OnPoint(_) => false,
        }
    }
}

/// A point off the curve is outside; a point equal to the start or end is
/// on that end point; otherwise it is inside exactly when it lies between
/// the end points along the curve.
pub open spec fn edge_point_contains_spec(edge: Edge, point: Point, probe: EdgePointProbe) -> EdgePointContains {
    if !probe.on_curve {
        EdgePointContains::Outside
    } else if point == edge.start {
        EdgePointContains::OnPoint(edge.start)
    } else if point == edge.end {
        EdgePointContains::OnPoint(edge.end)
    } else if probe.between {
        EdgePointContains::Inside
    } else {
        EdgePointContains::Outside
    }
}

/// Classifies `point` against `edge`, given what the geometry layer reports
/// about the point and the edge's curve.
pub fn edge_point_contains(edge: &Edge, point: &Point, probe: EdgePointProbe) -> (r: EdgePointContains)
    ensures
        r == edge_point_contains_spec(*edge, *point, probe),
{
    if !probe.on_curve {
        return EdgePointContains::Outside;
    }
    if *point == edge.start {
        return EdgePointContains::OnPoint(edge.start);
    }
    if *point == edge.end {
        return EdgePointContains::OnPoint(edge.end);
    }
    if probe.between {
        return EdgePointContains::Inside;
    }
    EdgePointContains::Outside
}

/// A point off the edge's curve is outside it; a point on the curve is on
/// the start or end corner when it is that corner, and otherwise inside the
/// edge exactly when it lies between the end points.
pub proof fn lemma_edge_point_classification(edge: Edge, point: Point, probe: EdgePointProbe)
    ensures
        !probe.on_curve ==> edge_point_contains_spec(edge, point, probe) == EdgePointContains::Outside,
        probe.on_curve && (point == edge.start || point == edge.end)
            ==> edge_point_contains_spec(edge, point, probe) == EdgePointContains::OnPoint(point),
        probe.on_curve && point != edge.start && point != edge.end
            ==> (edge_point_contains_spec(edge, point, probe) == EdgePointContains::Inside) == probe.between,
        probe.on_curve && point != edge.start && point != edge.end && !probe.between
            ==> edge_point_contains_spec(edge, point, probe) == EdgePointContains::Outside,
{
}

/// A point reported on an end point of an edge is that end point itself.
pub proof fn lemma_on_point_is_end_point(edge: Edge, point: Point, probe: EdgePointProbe)
    ensures
        edge_point_contains_spec(edge, point, probe) matches EdgePointContains::OnPoint(p)
            ==> p == point && (p == edge.start || p == edge.end),
        edge_point_contains_spec(edge, point, probe) is Inside
            ==> point != edge.start && point != edge.end,
{
}

/// How a point lies relative to a sequence of edges: as on the first edge
/// that touches it, or outside when none does.
pub open spec fn first_touch_spec(edges: Seq<Edge>, point: Point, probes: Seq<EdgePointProbe>) -> EdgePointContains {
    if touches(edges, point, probes) {
        contact(edges, point, probes, first_contact(edges, point, probes))
    } else {
        EdgePointContains::Outside
    }
}

/// Finds the first edge of the sequence that touches `point` and reports
/// how it touches it; outside when none does.
fn first_touch(edges: &Vec<Edge>, point: &Point, probes: &Vec<EdgePointProbe>) -> (r: (EdgePointContains, usize))
    requires
        probes.len() == edges.len(),
    ensures
        r.0 == first_touch_spec(edges@, *point, probes@),
        !(r.0 is Outside) ==> r.1 == first_contact(edges@, *point, probes@) && r.1 < edges.len(),
{
    let n = edges.len();
    for i in 0..n
        invariant
            n == edges.len(),
            probes.len() == n,
            forall|j: int| 0 <= j < i ==> #[trigger] contact(edges@, *point, probes@, j) is Outside,
    {
        let c = edge_point_contains(&edges[i], point, probes[i]);
        assert(c == contact(edges@, *point, probes@, i as int));
        if !matches!(c, EdgePointContains::Outside) {
            proof {
                lemma_first_contact_unique(edges@, *point, probes@, i as int);
            }
            return (c, i);
        }
    }
    assert(!touches(edges@, *point, probes@));
    (EdgePointContains::Outside, 0)
}

/// Classifies `point` against a contour: inside or on a corner as reported
/// by the first of its edges that touches the point, outside when none
/// does. Contours without edges touch nothing. `probes[i]` is what the
/// geometry layer reports about the point and edge `i`.
pub fn contour_point_contains(contour: &Contour, point: &Point, probes: &Vec<EdgePointProbe>) -> (r: EdgePointContains)
    requires
        probes.len() == contour.edge_seq().len(),
    ensures
        r == first_touch_spec(contour.edge_seq(), *point, probes@),
{
    match contour {
        Contour::ContourMultiPoint(c) => first_touch(&c.edges, point, probes).0,
        _ => {
            assert(!touches(contour.edge_seq(), *point, probes@));
            EdgePointContains::Outside
        },
    }
}

/// A point is outside a contour exactly when no edge of it touches the point.
pub proof fn lemma_contour_outside_iff_untouched(edges: Seq<Edge>, point: Point, probes: Seq<EdgePointProbe>)
    ensures
        (first_touch_spec(edges, point, probes) is Outside) <==> !touches(edges, point, probes),
{
    if touches(edges, point, probes) {
        lemma_first_contact_exists(edges, point, probes);
    }
}

/// Where a point lies relative to a face.
#[derive(Clone, Copy, Debug)]
pub enum FacePointContains {
    Inside,
    OnEdge(Edge),
    OnPoint(Point),
    Outside,
}

impl FacePointContains {
    /// Whether the point lies in the interior of a boundary edge.
    pub fn is_on_edge(&self) -> (r: bool)
        ensures
            r == (*self is OnEdge),
    {
        match self {
            FacePointContains::OnEdge(_) => true,
            _ => false,
        }
    }
}

/// A point on the face's border is on the first boundary edge that holds it
/// in its interior, or on the corner it hits; any other point is inside or
/// outside as the geometry layer's ray test says.
pub open spec fn face_point_contains_spec(edges: Seq<Edge>, point: Point, probes: Seq<EdgePointProbe>, from_inside: bool) -> FacePointContains {
    match first_touch_spec(edges, point, probes) {
        EdgePointContains::Inside => FacePointContains::OnEdge(edges[first_contact(edges, point, probes)]),
        EdgePointContains::OnPoint(p) => FacePointContains::OnPoint(p),
        EdgePointContains::Outside => if from_inside { FacePointContains::Inside } else { FacePointContains::Outside },
    }
}

/// A point in the interior of a boundary edge, with no earlier boundary edge
/// touching it, lies on that edge whatever the ray test says; a point at a
/// corner reached first lies on that corner; the ray test decides only
/// points that no boundary edge touches.
pub proof fn lemma_face_point_on_border(
    edges: Seq<Edge>,
    point: Point,
    probes: Seq<EdgePointProbe>,
    from_inside: bool,
    k: int,
)
    requires
        probes.len() == edges.len(),
    ensures
        0 <= k < edges.len() && edge_point_contains_spec(edges[k], point, probes[k]) is Inside
            && (forall|j: int| 0 <= j < k ==> edge_point_contains_spec(#[trigger] edges[j], point, probes[j]) is Outside)
            ==> face_point_contains_spec(edges, point, probes, from_inside) == FacePointContains::OnEdge(edges[k]),
        0 <= k < edges.len() && edge_point_contains_spec(edges[k], point, probes[k]) is OnPoint
            && (forall|j: int| 0 <= j < k ==> edge_point_contains_spec(#[trigger] edges[j], point, probes[j]) is Outside)
            ==> face_point_contains_spec(edges, point, probes, from_inside) == FacePointContains::OnPoint(point),
        (forall|j: int| 0 <= j < edges.len() ==> edge_point_contains_spec(#[trigger] edges[j], point, probes[j]) is Outside)
            ==> face_point_contains_spec(edges, point, probes, from_inside) == if from_inside {
                FacePointContains::Inside
            } else {
                FacePointContains::Outside
            },
{
    if 0 <= k < edges.len() && !(edge_point_contains_spec(edges[k], point, probes[k]) is Outside)
        && (forall|j: int| 0 <= j < k ==> edge_point_contains_spec(#[trigger] edges[j], point, probes[j]) is Outside) {
        assert forall|j: int| 0 <= j < k implies #[trigger] contact(edges, point, probes, j) is Outside by {
            assert(edge_point_contains_spec(edges[j], point, probes[j]) is Outside);
        }
        assert(contact(edges, point, probes, k) == edge_point_contains_spec(edges[k], point, probes[k]));
        lemma_first_contact_unique(edges, point, probes, k);
        assert(touches(edges, point, probes));
        lemma_on_point_is_end_point(edges[k], point, probes[k]);
    }
    if forall|j: int| 0 <= j < edges.len() ==> edge_point_contains_spec(#[trigger] edges[j], point, probes[j]) is Outside {
        if touches(edges, point, probes) {
            let w = choose|i: int| 0 <= i < edges.len() && !(#[trigger] contact(edges, point, probes, i) is Outside);
            assert(edge_point_contains_spec(edges[w], point, probes[w]) is Outside);
        }
    }
}

/// Classifies `point` against a face. `probes[i]` is what the geometry layer
/// reports about the point and the face's `i`-th boundary edge (in the order
/// of `Face::all_edges`); `from_inside` is the outcome of the geometry
/// layer's ray test, which decides points off the border: whether the
/// nearest crossing of a ray from the point to the border enters the face.
pub fn face_point_contains(face: &Face, point: &Point, probes: &Vec<EdgePointProbe>, from_inside: bool) -> (r: FacePointContains)
    requires
        probes.len() == boundary_edges(face.boundaries@).len(),
    ensures
        r == face_point_contains_spec(boundary_edges(face.boundaries@), *point, probes@, from_inside),
        forall|k: int| 0 <= k < probes.len() && edge_point_contains_spec(boundary_edges(face.boundaries@)[k], *point, probes@[k]) is Inside
            && (forall|j: int| 0 <= j < k ==> edge_point_contains_spec(#[trigger] boundary_edges(face.boundaries@)[j], *point, probes@[j]) is Outside)
            ==> r == FacePointContains::OnEdge(#[trigger] boundary_edges(face.boundaries@)[k]),
        (forall|j: int| 0 <= j < probes.len() ==> edge_point_contains_spec(#[trigger] boundary_edges(face.boundaries@)[j], *point, probes@[j]) is Outside)
            ==> r == if from_inside {
                FacePointContains::Inside
            } else {
                FacePointContains::Outside
            },
{
    proof {
        assert forall|k: int| 0 <= k < probes.len() && edge_point_contains_spec(boundary_edges(face.boundaries@)[k], *point, probes@[k]) is Inside
            && (forall|j: int| 0 <= j < k ==> edge_point_contains_spec(#[trigger] boundary_edges(face.boundaries@)[j], *point, probes@[j]) is Outside)
            implies face_point_contains_spec(boundary_edges(face.boundaries@), *point, probes@, from_inside)
                == FacePointContains::OnEdge(#[trigger] boundary_edges(face.boundaries@)[k]) by {
            lemma_face_point_on_border(boundary_edges(face.boundaries@), *point, probes@, from_inside, k);
        }
        lemma_face_point_on_border(boundary_edges(face.boundaries@), *point, probes@, from_inside, 0);
    }
    let edges = face.all_edges();
    let (c, i) = first_touch(&edges, point, probes);
    match c {
        EdgePointContains::Inside => FacePointContains::OnEdge(edges[i]),
        EdgePointContains::OnPoint(p) => FacePointContains::OnPoint(p),
        EdgePointContains::Outside => if from_inside {
            FacePointContains::Inside
        } else {
            FacePointContains::Outside
        },
    }
}

/// Where an edge lies relative to a face.
#[derive(Clone, Copy, Debug, PartialEq, Eq, Structural)]
pub enum FaceEdgeContains {
    Inside,
    OnBorderSameDir,
    OnBorderOppositeDir,
    Outside,
}

/// Classifies an edge against a face from where the edge's midpoint lies
/// (`midpoint`, from `face_point_contains`) and, for a midpoint on the
/// border, whether the edge runs the same way as the border there
/// (`same_direction`, from the geometry layer's tangents). The edge must
/// not cross the face's boundary, so its midpoint cannot be a corner.
pub fn face_edge_contains(midpoint: &FacePointContains, same_direction: bool) -> (r: FaceEdgeContains)
    requires
        !(*midpoint is OnPoint),
    ensures
        *midpoint is Inside ==> r == FaceEdgeContains::Inside,
        *midpoint is Outside ==> r == FaceEdgeContains::Outside,
        *midpoint is OnEdge ==> r == if same_direction {
            FaceEdgeContains::OnBorderSameDir
        } else {
            FaceEdgeContains::OnBorderOppositeDir
        },
{
    match midpoint {
        FacePointContains::Inside => FaceEdgeContains::Inside,
        FacePointContains::Outside => FaceEdgeContains::Outside,
        FacePointContains::OnEdge(_) => if same_direction {
            FaceEdgeContains::OnBorderSameDir
        } else {
            FaceEdgeContains::OnBorderOppositeDir
        },
        FacePointContains::OnPoint(_) => {
            assert(false);
            FaceEdgeContains::Outside
        },
    }
}

/// Where a point lies relative to a solid.
#[derive(Debug)]
pub enum VolumePointContains {
    Inside,
    OnFace(Face),
    OnEdge(Edge),
    OnPoint(Point),
    Outside,
}

/// `i` is the first face of the solid on whose closure the point lies.
pub open spec fn is_first_face(results: Seq<FacePointContains>, i: int) -> bool {
    &&& 0 <= i < results.len()
    &&& !(results[i] is Outside)
    &&& forall|j: int| 0 <= j < i ==> #[trigger] results[j] is Outside
}

/// Classifies `point` against a solid: on the first face whose closure holds
/// it (in the face's interior, on an edge, or on a corner), otherwise inside
/// or outside as the geometry layer's ray test says. `face_results[i]` is
/// `face_point_contains` for the point and face `i`; `from_inside` is the
/// outcome of the ray test: whether the nearest crossing of a ray from the
/// point to the boundary enters the solid.
pub fn volume_point_contains(volume: &Volume, face_results: &Vec<FacePointContains>, from_inside: bool) -> (r: VolumePointContains)
    requires
        face_results.len() == volume.faces.len(),
    ensures
        r matches VolumePointContains::OnFace(f) ==> exists|i: int| #[trigger] is_first_face(face_results@, i)
            && face_results@[i] is Inside
            && f.shapes() == volume.faces@[i].shapes()
            && f.surface == volume.faces@[i].surface,
        r matches VolumePointContains::OnEdge(e) ==> exists|i: int| #[trigger] is_first_face(face_results@, i)
            && face_results@[i] == FacePointContains::OnEdge(e),
        r matches VolumePointContains::OnPoint(p) ==> exists|i: int| #[trigger] is_first_face(face_results@, i)
            && face_results@[i] == FacePointContains::OnPoint(p),
        r is Inside || r is Outside ==> forall|i: int| 0 <= i < face_results.len() ==> #[trigger] face_results@[i] is Outside,
        r is Inside ==> from_inside,
        r is Outside ==> !from_inside,
{
    let n = volume.faces.len();
    for i in 0..n
        invariant
            n == volume.faces.len(),
            face_results.len() == n,
            forall|j: int| 0 <= j < i ==> #[trigger] face_results@[j] is Outside,
    {
        match &face_results[i] {
            FacePointContains::Inside => {
                assert(is_first_face(face_results@, i as int));
                return VolumePointContains::OnFace(volume.faces[i].clone());
            },
            FacePointContains::OnEdge(e) => {
                assert(is_first_face(face_results@, i as int));
                return VolumePointContains::OnEdge(*e);
            },
            FacePointContains::OnPoint(p) => {
                assert(is_first_face(face_results@, i as int));
                return VolumePointContains::OnPoint(*p);
            },
            FacePointContains::Outside => {},
        }
    }
    if from_inside {
        VolumePointContains::Inside
    } else {
        VolumePointContains::Outside
    }
}

/// Where a face lies relative to a solid.
#[derive(Clone, Copy, Debug, PartialEq, Eq, Structural)]
pub enum VolumeFaceContains {
    Inside,
    OnBorderSameDir,
    OnBorderOppositeDir,
    Outside,
}

/// Classifies a face against a solid from where the face's midpoint lies
/// (`midpoint`, from `volume_point_contains`) and, for a midpoint on a
/// boundary face, whether the normals agree there (`same_direction`, from
/// the geometry layer). The face must stay on one side of the solid's
/// boundary, so its midpoint cannot be on an edge or a corner.
pub fn volume_face_contains(midpoint: &VolumePointContains, same_direction: bool) -> (r: VolumeFaceContains)
    requires
        !(*midpoint is OnEdge),
        !(*midpoint is OnPoint),
    ensures
        *midpoint is Inside ==> r == VolumeFaceContains::Inside,
        *midpoint is Outside ==> r == VolumeFaceContains::Outside,
        *midpoint is OnFace ==> r == if same_direction {
            VolumeFaceContains::OnBorderSameDir
        } else {
            VolumeFaceContains::OnBorderOppositeDir
        },
{
    match midpoint {
        VolumePointContains::Inside => VolumeFaceContains::Inside,
        VolumePointContains::Outside => VolumeFaceContains::Outside,
        VolumePointContains::OnFace(_) => if same_direction {
            VolumeFaceContains::OnBorderSameDir
        } else {
            VolumeFaceContains::OnBorderOppositeDir
        },
        _ => {
            assert(false);
            VolumeFaceContains::Outside
        },
    }
}

} // verus!
