use geop_topology::contains::{
    contour_point_contains, edge_point_contains, face_edge_contains, face_point_contains,
    volume_face_contains, volume_point_contains, EdgePointContains, EdgePointProbe,
    FaceEdgeContains, FacePointContains, VolumeFaceContains, VolumePointContains,
};
use geop_topology::contour::{
    Contour, ContourMultiPoint, ContourNoPoint, ContourSinglePoint, EdgeIndex, EdgeLoop,
};
use geop_topology::curve::{Curve, Surface};
use geop_topology::edge::Edge;
use geop_topology::error::{TopologyError, TopologyErrorRoot};
use geop_topology::face::Face;
use geop_topology::point::Point;
use geop_topology::regularize::{edge_is_regular, edge_regularize, edge_regularize_all, ContainmentMatrix, IntervalEdge};
use geop_topology::remesh::{
    assemble_contours, edge_remesh, face_face_intersection_points, face_split_points, EdgeEdgeIntersection, edge_split, edge_split_points, face_face_same_surface_intersection,
    face_remesh, face_split, face_union, volume_remesh, volume_split, EdgeRemesh, FaceSplit,
    VolumeSplit,
};
use geop_topology::split::{
    split_edge_by_points_if_necessary, split_edges_by_points_if_necessary, split_face_by_edge_if_necessary,
    split_face_by_edges_if_necessary, split_faces_by_edges_if_necessary,
};
use geop_topology::split_parts::SplitFilter;
use geop_topology::vertex::Vertex;
use geop_topology::volume::{Shell, Volume};

fn p(id: u64) -> Point {
    Point::new(id)
}

fn line(id: u64) -> Curve {
    Curve::new(id)
}

fn e(a: u64, b: u64, curve: u64) -> Edge {
    Edge::new(p(a), p(b), line(curve))
}

const OFF: EdgePointProbe = EdgePointProbe { on_curve: false, between: false };
const ON_OUT: EdgePointProbe = EdgePointProbe { on_curve: true, between: false };
const ON_IN: EdgePointProbe = EdgePointProbe { on_curve: true, between: true };

/// The square 1 -> 2 -> 3 -> 4 -> 1, edges along curves 10, 11, 12, 13.
fn square() -> ContourMultiPoint {
    ContourMultiPoint::new(vec![e(1, 2, 10), e(2, 3, 11), e(3, 4, 12), e(4, 1, 13)])
}

fn ids(points: &[Point]) -> Vec<u64> {
    points.iter().map(|q| q.id).collect()
}

fn ends(edges: &[Edge]) -> Vec<(u64, u64, u64)> {
    edges.iter().map(|x| (x.start.id, x.end.id, x.curve.id)).collect()
}

#[test]
fn curve_neg_twice_gives_the_curve_back() {
    let c = line(7);
    assert!(!c.reversed);
    assert!(c.neg().reversed);
    assert_eq!(c.neg().neg(), c);
    assert_ne!(c.neg(), c);
    let s = Surface::new(3);
    assert_eq!(s.neg().neg(), s);
    assert_ne!(s.neg(), s);
}

#[test]
fn edge_flip_and_neg() {
    let x = e(1, 2, 5);
    let f = x.flip();
    assert_eq!((f.start.id, f.end.id), (2, 1));
    assert!(f.curve.reversed);
    let n = x.neg();
    assert_eq!((n.start.id, n.end.id), (2, 1));
    assert!(!n.curve.reversed);
    // an edge and its flip are the same point set; its neg is not
    assert!(x == f);
    assert!(x != n);
    assert!(x == x.flip().flip());
    assert!(x != e(1, 2, 6));
    assert!(x != e(1, 3, 5));
}

#[test]
fn edge_point_classification() {
    let x = e(1, 2, 5);
    assert_eq!(edge_point_contains(&x, &p(9), OFF), EdgePointContains::Outside);
    assert_eq!(edge_point_contains(&x, &p(1), ON_OUT), EdgePointContains::OnPoint(p(1)));
    assert_eq!(edge_point_contains(&x, &p(2), ON_IN), EdgePointContains::OnPoint(p(2)));
    assert_eq!(edge_point_contains(&x, &p(9), ON_IN), EdgePointContains::Inside);
    assert_eq!(edge_point_contains(&x, &p(9), ON_OUT), EdgePointContains::Outside);
    assert!(EdgePointContains::Inside.is_inside());
    assert!(!EdgePointContains::Outside.is_inside());
    assert!(!EdgePointContains::OnPoint(p(1)).is_inside());
}

#[test]
fn contour_points_and_flip() {
    let c = square();
    assert_eq!(ids(&c.all_points()), vec![1, 2, 3, 4]);
    let f = c.flip();
    assert_eq!(ends(&f.edges), vec![(1, 4, 13), (4, 3, 12), (3, 2, 11), (2, 1, 10)]);
    assert!(f.edges.iter().all(|x| x.curve.reversed));
    assert_eq!(ids(&f.all_points()), vec![1, 4, 3, 2]);
    let ff = f.flip();
    assert_eq!(ends(&ff.edges), ends(&c.edges));
    assert!(ff.edges.iter().all(|x| !x.curve.reversed));
}

#[test]
fn edge_index_inside_and_on_corners() {
    let c = square();
    // point 9 inside edge 2 (3 -> 4)
    let probes = vec![OFF, OFF, ON_IN, OFF];
    assert_eq!(c.get_edge_index(&p(9), &probes), Some(EdgeIndex::OnEdge(2)));
    // point 3 found as the end of edge 1: corner between edges 1 and 2
    let probes = vec![OFF, ON_OUT, ON_OUT, OFF];
    assert_eq!(c.get_edge_index(&p(3), &probes), Some(EdgeIndex::OnCorner(1, 2)));
    // point 1 found as the start of edge 0: corner between edges 3 and 0
    let probes = vec![ON_OUT, OFF, OFF, ON_OUT];
    assert_eq!(c.get_edge_index(&p(1), &probes), Some(EdgeIndex::OnCorner(3, 0)));
    let probes = vec![OFF, OFF, OFF, OFF];
    assert_eq!(c.get_edge_index(&p(9), &probes), None);
}

#[test]
fn subcurve_between_points_on_different_edges() {
    let c = square();
    // 8 inside edge 0, 9 inside edge 2
    let s8 = vec![ON_IN, OFF, OFF, OFF];
    let s9 = vec![OFF, OFF, ON_IN, OFF];
    let r = c.get_subcurve(&p(8), &p(9), &s8, &s9, false);
    assert_eq!(ends(&r), vec![(8, 2, 10), (2, 3, 11), (3, 9, 12)]);
    // going from 9 to 8 goes round the end of the edge list
    let r = c.get_subcurve(&p(9), &p(8), &s9, &s8, false);
    assert_eq!(ends(&r), vec![(9, 4, 12), (4, 1, 13), (1, 8, 10)]);
}

#[test]
fn subcurve_on_one_edge_forward_and_round() {
    let c = square();
    let s8 = vec![ON_IN, OFF, OFF, OFF];
    let s9 = vec![ON_IN, OFF, OFF, OFF];
    // 8 before 9 on edge 0
    let r = c.get_subcurve(&p(8), &p(9), &s8, &s9, true);
    assert_eq!(ends(&r), vec![(8, 9, 10)]);
    // 8 after 9 on edge 0: all the way round
    let r = c.get_subcurve(&p(8), &p(9), &s8, &s9, false);
    assert_eq!(ends(&r), vec![(8, 2, 10), (2, 3, 11), (3, 4, 12), (4, 1, 13), (1, 9, 10)]);
}

#[test]
fn subcurve_between_corners_has_no_zero_length_piece() {
    let c = square();
    // from corner 2 (end of edge 0) to corner 4 (end of edge 2)
    let s2 = vec![ON_OUT, ON_OUT, OFF, OFF];
    let s4 = vec![OFF, OFF, ON_OUT, ON_OUT];
    let r = c.get_subcurve(&p(2), &p(4), &s2, &s4, false);
    assert_eq!(ends(&r), vec![(2, 3, 11), (3, 4, 12)]);
}

#[test]
fn insert_point_inside_an_edge() {
    let c = square();
    // 9 lies inside edge 2 -> 3 and on the curve of the edge 1 -> 2 before it
    let probes = vec![ON_OUT, ON_IN, OFF, OFF];
    let r = c.insert_point(&p(9), &probes);
    assert_eq!(ends(&r.edges), vec![(9, 3, 11), (3, 4, 12), (4, 1, 13), (1, 9, 10)]);
}

#[test]
fn contour_variants_insert_and_cut() {
    let none = ContourNoPoint::new(line(20));
    let whole = Contour::from_curve(none);
    assert!(whole.all_points().is_empty());
    let single = whole.insert_point(&p(1), &vec![]);
    match &single {
        Contour::ContourSinglePoint(s) => {
            assert_eq!(s.point, p(1));
            assert_eq!(s.curve, line(20));
        }
        _ => panic!("expected a contour with one corner"),
    }
    let two = single.insert_point(&p(2), &vec![]);
    match &two {
        Contour::ContourMultiPoint(m) => assert_eq!(ends(&m.edges), vec![(1, 2, 20), (2, 1, 20)]),
        _ => panic!("expected a contour of edges"),
    }
    assert_eq!(ids(&two.all_points()), vec![1, 2]);
    let cut = single.get_subcurve(&p(3), &p(4), &vec![], &vec![], true);
    assert_eq!(ends(&cut), vec![(3, 4, 20)]);
    let cut = whole.get_subcurve(&p(3), &p(4), &vec![], &vec![], true);
    assert_eq!(ends(&cut), vec![(3, 4, 20)]);
    assert_eq!(none.get_subcurve(&p(3), &p(4)).end, p(4));
    let flipped = single.flip();
    match &flipped {
        Contour::ContourSinglePoint(s) => assert!(s.curve.reversed && s.point == p(1)),
        _ => panic!("expected a contour with one corner"),
    }
    let single_direct = ContourSinglePoint::new(line(21), p(5));
    assert!(single_direct.all_points().is_empty());
    assert!(single_direct.flip().curve.reversed);
}

#[test]
fn face_edges_points_neg_and_flip() {
    let outer = Contour::from_edges(square().edges);
    let hole = Contour::from_edges(vec![e(5, 6, 30), e(6, 5, 31)]);
    let round = Contour::from_curve(ContourNoPoint::new(line(40)));
    let face = Face::new(vec![outer, hole, round], Surface::new(1));
    assert_eq!(ids(&face.all_points()), vec![1, 2, 3, 4, 5, 6]);
    assert_eq!(face.all_edges().len(), 6);
    let neg = face.neg();
    assert_eq!(neg.surface, Surface::new(1));
    assert!(matches!(neg.boundaries[0], Contour::ContourNoPoint(_)));
    assert_eq!(ids(&neg.all_points()), vec![5, 6, 1, 4, 3, 2]);
    let flipped = face.flip();
    assert!(flipped.surface.reversed);
    assert_eq!(ids(&flipped.all_points()), vec![1, 4, 3, 2, 5, 6]);
    let back = flipped.flip();
    assert_eq!(ends(&back.all_edges()), ends(&face.all_edges()));
    let copy = face.clone();
    assert_eq!(ends(&copy.all_edges()), ends(&face.all_edges()));
}

#[test]
fn loose_edges_are_chained_into_contours() {
    // a square given out of order, with one edge pointing the wrong way,
    // and a separate triangle
    let edges = vec![e(3, 4, 12), e(1, 2, 10), e(7, 8, 20), e(3, 2, 11), e(8, 9, 21), e(4, 1, 13), e(9, 7, 22)];
    let contours = assemble_contours(edges);
    assert_eq!(contours.len(), 2);
    let mut total = 0;
    for c in contours.iter() {
        match c {
            Contour::ContourMultiPoint(m) => {
                total += m.edges.len();
                let n = m.edges.len();
                for i in 0..n {
                    assert_eq!(m.edges[i].end, m.edges[(i + 1) % n].start);
                }
            }
            _ => panic!("expected contours of edges"),
        }
    }
    assert_eq!(total, 7);
    // the last edge is taken first
    match &contours[0] {
        Contour::ContourMultiPoint(m) => assert_eq!(ends(&m.edges), vec![(9, 7, 22), (7, 8, 20), (8, 9, 21)]),
        _ => panic!("expected a contour of edges"),
    }
    match &contours[1] {
        Contour::ContourMultiPoint(m) => assert_eq!(ends(&m.edges), vec![(4, 1, 13), (1, 2, 10), (2, 3, 11), (3, 4, 12)]),
        _ => panic!("expected a contour of edges"),
    }
}

#[test]
fn union_and_intersection_keep_the_right_pieces() {
    let a = Face::new(vec![Contour::from_edges(square().edges)], Surface::new(1));
    let b = Face::new(vec![Contour::from_edges(vec![e(5, 6, 30), e(6, 5, 31)])], Surface::new(1));
    let off = |_e: &Edge, _q: &Point| OFF;
    // a lies outside b and b outside a: the union keeps both, the
    // intersection keeps nothing
    let outside = |_f: &Face, _e: &Edge| FaceEdgeContains::Outside;
    let splits = face_split(&a, &b, &vec![], &off, &outside);
    assert_eq!(splits.len(), 6);
    assert!(matches!(splits[0], FaceSplit::AoutB(_)));
    assert!(matches!(splits[5], FaceSplit::BoutA(_)));
    let union = face_union(&a, &b, &vec![], &off, &outside);
    assert_eq!(union.boundaries.len(), 2);
    assert_eq!(union.all_edges().len(), 6);
    let inter = face_face_same_surface_intersection(&a, &b, &vec![], &off, &outside);
    assert_eq!(inter.boundaries.len(), 0);
    // b lies inside a: the union is a, the intersection is b
    let b_in_a = |f: &Face, _e: &Edge| {
        if f.all_edges().len() == 4 { FaceEdgeContains::Inside } else { FaceEdgeContains::Outside }
    };
    let splits = face_split(&a, &b, &vec![], &off, &b_in_a);
    assert!(matches!(splits[0], FaceSplit::AoutB(_)));
    assert!(matches!(splits[4], FaceSplit::BinA(_)));
    let union = face_union(&a, &b, &vec![], &off, &b_in_a);
    assert_eq!(union.boundaries.len(), 1);
    assert_eq!(union.all_edges().len(), 4);
    let inter = face_face_same_surface_intersection(&a, &b, &vec![], &off, &b_in_a);
    assert_eq!(inter.boundaries.len(), 1);
    assert_eq!(ends(&inter.all_edges()), vec![(6, 5, 31), (5, 6, 30)]);
    let remeshed = face_remesh(Surface::new(2), vec![FaceSplit::BonAOpSide(e(1, 2, 1)), FaceSplit::AonBOpSide(e(2, 1, 2))]);
    assert_eq!(remeshed.surface, Surface::new(2));
    assert_eq!(remeshed.all_edges().len(), 2);
}

#[test]
fn split_tags_for_all_borders() {
    let a = Face::new(vec![Contour::from_edges(vec![e(1, 2, 1), e(2, 1, 2)])], Surface::new(1));
    let b = Face::new(vec![Contour::from_edges(vec![e(1, 2, 1), e(2, 1, 3)])], Surface::new(1));
    let off = |_e: &Edge, _q: &Point| OFF;
    let locate = |_f: &Face, x: &Edge| match x.curve.id {
        1 => FaceEdgeContains::OnBorderSameDir,
        2 => FaceEdgeContains::OnBorderOppositeDir,
        3 => FaceEdgeContains::Inside,
        _ => FaceEdgeContains::Outside,
    };
    let splits = face_split(&a, &b, &vec![], &off, &locate);
    assert!(matches!(splits[0], FaceSplit::AonBSameSide(_)));
    assert!(matches!(splits[1], FaceSplit::AonBOpSide(_)));
    assert!(matches!(splits[2], FaceSplit::BonASameSide(_)));
    assert!(matches!(splits[3], FaceSplit::BinA(_)));
}

#[test]
fn edge_pieces_on_one_curve() {
    let a = e(1, 3, 7);
    let b = e(2, 3, 7);
    assert_eq!(ids(&edge_split_points(&a, &b)), vec![1, 3, 2]);
    assert_eq!(ids(&edge_split_points(&a, &a)), vec![1, 3]);
    let pieces = edge_split(&e(1, 3, 7), &e(2, 3, 7), &on_line, &mid_within);
    assert!(matches!(pieces[0], EdgeRemesh::AoutB(_)));
    assert!(matches!(pieces[1], EdgeRemesh::AinB(_)));
    assert!(matches!(pieces[2], EdgeRemesh::BinA(_)));
    let edges = edge_remesh(&line(7), pieces);
    assert_eq!(ends(&edges), vec![(1, 2, 7), (2, 3, 7), (2, 3, 7)]);
}

#[test]
fn splitting_edges_at_points() {
    let x = e(1, 2, 5);
    assert_eq!(ends(&x.split_if_necessary(&p(9), ON_IN)), vec![(1, 9, 5), (9, 2, 5)]);
    assert_eq!(ends(&x.split_if_necessary(&p(9), ON_OUT)), vec![(1, 2, 5)]);
    assert_eq!(ends(&x.split_if_necessary(&p(1), ON_IN)), vec![(1, 2, 5)]);
    let y = e(3, 4, 6);
    let (a, b) = x.split(&y, &vec![p(7), p(8)], &vec![p(8), p(7)]);
    assert_eq!(ends(&a), vec![(1, 7, 5), (7, 8, 5), (8, 2, 5)]);
    assert_eq!(ends(&b), vec![(3, 8, 6), (8, 7, 6), (7, 4, 6)]);
    let (a, b) = x.split(&y, &vec![], &vec![]);
    assert_eq!(ends(&a), vec![(1, 2, 5)]);
    assert_eq!(ends(&b), vec![(3, 4, 6)]);
}

#[test]
fn containment_of_points_in_contours_faces_and_volumes() {
    let c = Contour::from_edges(square().edges);
    assert_eq!(contour_point_contains(&c, &p(9), &vec![OFF, ON_IN, OFF, OFF]), EdgePointContains::Inside);
    assert_eq!(contour_point_contains(&c, &p(3), &vec![OFF, ON_OUT, ON_OUT, OFF]), EdgePointContains::OnPoint(p(3)));
    assert_eq!(contour_point_contains(&c, &p(9), &vec![OFF; 4]), EdgePointContains::Outside);
    let round = Contour::from_curve(ContourNoPoint::new(line(40)));
    assert_eq!(contour_point_contains(&round, &p(9), &vec![]), EdgePointContains::Outside);

    let face = Face::new(vec![c], Surface::new(1));
    match face_point_contains(&face, &p(9), &vec![OFF, OFF, ON_IN, OFF], false) {
        FacePointContains::OnEdge(x) => assert_eq!((x.start.id, x.end.id), (3, 4)),
        _ => panic!("expected a point on an edge"),
    }
    assert!(face_point_contains(&face, &p(9), &vec![OFF, OFF, ON_IN, OFF], false).is_on_edge());
    assert!(matches!(face_point_contains(&face, &p(4), &vec![OFF, OFF, ON_OUT, OFF], true), FacePointContains::OnPoint(q) if q == p(4)));
    assert!(matches!(face_point_contains(&face, &p(9), &vec![OFF; 4], true), FacePointContains::Inside));
    assert!(matches!(face_point_contains(&face, &p(9), &vec![OFF; 4], false), FacePointContains::Outside));

    assert_eq!(face_edge_contains(&FacePointContains::Inside, false), FaceEdgeContains::Inside);
    assert_eq!(face_edge_contains(&FacePointContains::Outside, true), FaceEdgeContains::Outside);
    assert_eq!(face_edge_contains(&FacePointContains::OnEdge(e(1, 2, 1)), true), FaceEdgeContains::OnBorderSameDir);
    assert_eq!(face_edge_contains(&FacePointContains::OnEdge(e(1, 2, 1)), false), FaceEdgeContains::OnBorderOppositeDir);

    let volume = Volume::new(vec![face.clone(), face]);
    let r = volume_point_contains(&volume, &vec![FacePointContains::Outside, FacePointContains::Inside], false);
    assert!(matches!(r, VolumePointContains::OnFace(_)));
    let r = volume_point_contains(&volume, &vec![FacePointContains::OnPoint(p(2)), FacePointContains::Inside], false);
    assert!(matches!(r, VolumePointContains::OnPoint(q) if q == p(2)));
    let r = volume_point_contains(&volume, &vec![FacePointContains::Outside, FacePointContains::OnEdge(e(1, 2, 3))], false);
    assert!(matches!(r, VolumePointContains::OnEdge(_)));
    let r = volume_point_contains(&volume, &vec![FacePointContains::Outside; 2], true);
    assert!(matches!(r, VolumePointContains::Inside));
    let r = volume_point_contains(&volume, &vec![FacePointContains::Outside; 2], false);
    assert!(matches!(r, VolumePointContains::Outside));

    assert_eq!(volume_face_contains(&VolumePointContains::Inside, false), VolumeFaceContains::Inside);
    assert_eq!(volume_face_contains(&VolumePointContains::Outside, false), VolumeFaceContains::Outside);
    let on = VolumePointContains::OnFace(Face::new(vec![], Surface::new(1)));
    assert_eq!(volume_face_contains(&on, true), VolumeFaceContains::OnBorderSameDir);
    assert_eq!(volume_face_contains(&on, false), VolumeFaceContains::OnBorderOppositeDir);
}

#[test]
fn volumes_split_and_remesh() {
    let fa = Face::new(vec![], Surface::new(1));
    let fb = Face::new(vec![], Surface::new(2));
    let fc = Face::new(vec![], Surface::new(3));
    let pieces = volume_split(
        vec![fa, fb],
        &vec![VolumeFaceContains::Inside, VolumeFaceContains::OnBorderOppositeDir],
        vec![fc],
        &vec![VolumeFaceContains::Outside],
    );
    assert_eq!(pieces.len(), 3);
    assert!(matches!(&pieces[0], VolumeSplit::AinB(f) if f.surface == Surface::new(1)));
    assert!(matches!(&pieces[1], VolumeSplit::AonBOpSide(f) if f.surface == Surface::new(2)));
    assert!(matches!(&pieces[2], VolumeSplit::BoutA(f) if f.surface == Surface::new(3)));
    let v = volume_remesh(vec![Face::new(vec![], Surface::new(4))]);
    assert_eq!(v.faces.len(), 1);
    let shell = Shell::new(vec![Face::new(vec![], Surface::new(5))]);
    assert_eq!(shell.faces.len(), 1);
}

#[test]
fn containment_matrix_starts_empty() {
    let m = ContainmentMatrix::new(2, 3);
    // a column past the end addresses the next row, as long as the position
    // lies inside the matrix
    assert!(!*m.index((0, 4)));
    for i in 0..2 {
        for j in 0..3 {
            assert!(!*m.index((i, j)));
        }
    }
}

#[test]
fn errors_keep_their_root_under_context() {
    let err = TopologyError::new("no inner point".to_string());
    let err = err.with_context("building face".to_string()).with_context("union".to_string());
    match err {
        TopologyError::Context { message, inner_error } => {
            assert_eq!(message, "union");
            match *inner_error {
                TopologyError::Context { message, inner_error } => {
                    assert_eq!(message, "building face");
                    match *inner_error {
                        TopologyError::Root(TopologyErrorRoot::InTopologyCrate { message }) => {
                            assert_eq!(message, "no inner point")
                        }
                        _ => panic!("expected the root error"),
                    }
                }
                _ => panic!("expected a context"),
            }
        }
        _ => panic!("expected a context"),
    }
}

#[test]
fn vertices_and_edge_loops() {
    assert_eq!(Vertex::new(p(1)), Vertex::new(p(1)));
    assert_ne!(Vertex::new(p(1)), Vertex::new(p(2)));
    let l = EdgeLoop::new(square().edges);
    assert!(l.contains(&p(9), &vec![OFF, ON_IN, OFF, OFF]));
    assert!(!l.contains(&p(9), &vec![OFF, ON_OUT, OFF, OFF]));
}

#[test]
fn flipping_a_contour_twice_gives_it_back() {
    let c = Contour::from_edges(square().edges);
    let back = c.flip().flip();
    match (&c, &back) {
        (Contour::ContourMultiPoint(a), Contour::ContourMultiPoint(b)) => {
            assert_eq!(ends(&a.edges), ends(&b.edges));
            assert!(a.edges.iter().zip(b.edges.iter()).all(|(x, y)| x.curve == y.curve));
        }
        _ => panic!("expected contours of edges"),
    }
    let round = Contour::from_curve(ContourNoPoint::new(line(3)));
    match round.flip().flip() {
        Contour::ContourNoPoint(n) => assert_eq!(n.curve, line(3)),
        _ => panic!("expected a contour without corners"),
    }
}

#[test]
fn edge_equality_is_symmetric() {
    let x = e(1, 2, 5);
    let y = x.flip();
    assert!(x == y && y == x);
    let z = e(2, 1, 5);
    assert!(x != z && z != x);
}

#[test]
fn a_face_boundary_reassembles_into_a_face() {
    let face = Face::new(
        vec![Contour::from_edges(square().edges), Contour::from_edges(vec![e(5, 6, 30), e(6, 7, 31), e(7, 5, 32)])],
        Surface::new(1),
    );
    let pieces: Vec<FaceSplit> = face.all_edges().into_iter().map(FaceSplit::AoutB).collect();
    let again = face_remesh(face.surface, pieces);
    assert_eq!(again.boundaries.len(), 2);
    let mut first = ends(&face.all_edges());
    let mut rebuilt = ends(&again.all_edges());
    first.sort();
    rebuilt.sort();
    assert_eq!(first, rebuilt);
}

#[test]
fn inserting_a_new_point_keeps_the_contour_closed() {
    let c = square();
    let r = c.insert_point(&p(9), &vec![ON_IN, OFF, OFF, ON_OUT]);
    let n = r.edges.len();
    assert_eq!(r.edges[0].start, p(9));
    for i in 0..n {
        assert_eq!(r.edges[i].end, r.edges[(i + 1) % n].start);
    }
}

#[test]
fn face_set_operations_on_one_surface() {
    let a = Face::new(vec![Contour::from_edges(square().edges)], Surface::new(1));
    let b = Face::new(vec![Contour::from_edges(vec![e(5, 6, 30), e(6, 5, 31)])], Surface::new(1));
    let off = |_e: &Edge, _q: &Point| OFF;
    let outside = |_f: &Face, _e: &Edge| FaceEdgeContains::Outside;
    let inside = |_f: &Face, _e: &Edge| FaceEdgeContains::Inside;
    let u = a.surface_union(&b, &vec![], &off, &outside);
    assert_eq!(u.boundaries.len(), 2);
    assert_eq!(u.all_edges().len(), 6);
    assert_eq!(a.surface_intersection(&b, &vec![], &off, &outside).boundaries.len(), 0);
    assert_eq!(a.surface_difference(&b, &vec![], &off, &outside).boundaries.len(), 0);
    assert_eq!(a.surface_union(&b, &vec![], &off, &inside).boundaries.len(), 0);
    let i = a.surface_intersection(&b, &vec![], &off, &inside);
    assert_eq!(i.boundaries.len(), 2);
    let d = a.surface_difference(&b, &vec![], &off, &inside);
    assert_eq!(d.boundaries.len(), 2);
    assert_eq!(d.all_edges().len(), 6);
}

#[test]
fn split_parts_cuts_both_boundaries_at_the_crossings() {
    let a = Face::new(vec![Contour::from_edges(square().edges)], Surface::new(1));
    let b = Face::new(vec![Contour::from_edges(vec![e(9, 8, 30), e(8, 9, 31)])], Surface::new(1));
    // Point 9 lies inside the square's first edge 1 -> 2.
    let probe = |e: &Edge, q: &Point| {
        if e.curve == line(10) && q.id == 9 && e.start.id != 9 && e.end.id != 9 { ON_IN } else { OFF }
    };
    let outside = |_f: &Face, _e: &Edge| FaceEdgeContains::Outside;
    let keep_a = SplitFilter {
        a_in_b: true,
        a_on_b_same_side: true,
        a_on_b_op_side: true,
        a_out_b: true,
        b_in_a: false,
        b_on_a_same_side: false,
        b_on_a_op_side: false,
        b_out_a: false,
    };
    let r = a.split_parts(&b, &vec![p(9)], &probe, &outside, &keep_a);
    assert_eq!(r.boundaries.len(), 1);
    assert_eq!(r.all_edges().len(), 5);
    let u = a.surface_union(&b, &vec![p(9)], &probe, &outside);
    assert_eq!(u.all_edges().len(), 7);
}

#[test]
fn cutting_points_from_edge_intersections() {
    let ints = vec![
        EdgeEdgeIntersection::Disjoint,
        EdgeEdgeIntersection::Points(vec![p(4), p(5)]),
        EdgeEdgeIntersection::Edge(e(1, 2, 3)),
        EdgeEdgeIntersection::Points(vec![]),
    ];
    assert_eq!(ids(&face_split_points(&ints)), vec![4, 5, 1, 2]);
    assert!(face_split_points(&vec![]).is_empty());
}

/// Where the midpoint of `piece` lies relative to `edge`, for edges on one
/// line ordered by their points' identities.
fn mid_within(piece: &Edge, edge: &Edge) -> EdgePointContains {
    let (lo, hi) = if piece.start.id < piece.end.id { (piece.start.id, piece.end.id) } else { (piece.end.id, piece.start.id) };
    let (elo, ehi) = if edge.start.id < edge.end.id { (edge.start.id, edge.end.id) } else { (edge.end.id, edge.start.id) };
    if elo <= lo && hi <= ehi { EdgePointContains::Inside } else { EdgePointContains::Outside }
}

#[test]
fn overlapping_edges_on_one_line_split_into_tagged_pieces() {
    let a = Edge::new(p(0), p(2), line(1));
    let b = Edge::new(p(1), p(3), line(1));
    let pieces = edge_split(&a, &b, &on_line, &mid_within);
    assert_eq!(pieces.len(), 4);
    assert!(matches!(pieces[0], EdgeRemesh::AoutB(x) if (x.start.id, x.end.id) == (0, 1)));
    assert!(matches!(pieces[1], EdgeRemesh::AinB(x) if (x.start.id, x.end.id) == (1, 2)));
    assert!(matches!(pieces[2], EdgeRemesh::BinA(x) if (x.start.id, x.end.id) == (1, 2)));
    assert!(matches!(pieces[3], EdgeRemesh::BoutA(x) if (x.start.id, x.end.id) == (2, 3)));
}

/// Points on one line, ordered by their identity.
fn on_line(e: &Edge, q: &Point) -> EdgePointProbe {
    let (lo, hi) = if e.start.id < e.end.id { (e.start.id, e.end.id) } else { (e.end.id, e.start.id) };
    EdgePointProbe { on_curve: true, between: lo < q.id && q.id < hi }
}

#[test]
fn splitting_an_edge_at_several_points() {
    let x = e(0, 10, 1);
    let r = split_edge_by_points_if_necessary(&x, &vec![p(5), p(3), p(7), p(20)], &on_line);
    assert_eq!(ends(&r), vec![(0, 3, 1), (3, 5, 1), (5, 7, 1), (7, 10, 1)]);
    let r = split_edge_by_points_if_necessary(&x, &vec![], &on_line);
    assert_eq!(ends(&r), vec![(0, 10, 1)]);
    let off = |_e: &Edge, _q: &Point| EdgePointProbe { on_curve: false, between: true };
    let r = split_edge_by_points_if_necessary(&x, &vec![p(5)], &off);
    assert_eq!(ends(&r), vec![(0, 10, 1)]);
    let y = e(0, 3, 1);
    let r = split_edge_by_points_if_necessary(&y, &vec![p(2), p(1), p(5)], &on_line);
    assert_eq!(ends(&r), vec![(0, 1, 1), (1, 2, 1), (2, 3, 1)]);
}

#[test]
fn splitting_a_closed_contour_keeps_it_closed() {
    let edges = vec![e(0, 10, 1), e(10, 20, 2), e(20, 0, 3)];
    let r = split_edges_by_points_if_necessary(edges, &vec![p(5), p(15)], &on_line);
    assert_eq!(ends(&r), vec![(0, 5, 1), (5, 10, 1), (10, 15, 2), (15, 20, 2), (20, 15, 3), (15, 5, 3), (5, 0, 3)]);
    let n = r.len();
    for i in 0..n {
        assert_eq!(r[i].end, r[(i + 1) % n].start);
    }
}

#[test]
fn cutting_the_pieces_again_at_the_same_points_changes_nothing() {
    let x = e(0, 10, 1);
    let points = vec![p(5), p(3), p(7)];
    let once = split_edge_by_points_if_necessary(&x, &points, &on_line);
    let twice = split_edges_by_points_if_necessary(once.clone(), &points, &on_line);
    assert_eq!(ends(&once), ends(&twice));
}

#[test]
fn only_points_in_both_faces_are_kept() {
    let points = vec![p(1), p(2), p(3), p(4)];
    let in_self = vec![FacePointContains::Inside, FacePointContains::Outside, FacePointContains::OnPoint(p(3)), FacePointContains::Inside];
    let in_other = vec![FacePointContains::OnEdge(e(7, 8, 9)), FacePointContains::Inside, FacePointContains::Inside, FacePointContains::Outside];
    assert_eq!(ids(&face_face_intersection_points(&points, &in_self, &in_other)), vec![1, 3]);
}

#[test]
fn regularizing_drops_degenerate_intervals() {
    let x = IntervalEdge { boundaries: vec![(p(1), p(2)), (p(3), p(3)), (p(4), p(5))], curve: line(7) };
    assert!(!edge_is_regular(&x));
    let r = edge_regularize(&x);
    assert_eq!(ends(&r), vec![(1, 2, 7), (4, 5, 7)]);
    let y = IntervalEdge { boundaries: vec![(p(6), p(6))], curve: line(8) };
    assert!(edge_is_regular(&y));
    assert!(edge_regularize(&y).is_empty());
    let all = edge_regularize_all(vec![x, y]);
    assert_eq!(ends(&all), vec![(1, 2, 7), (4, 5, 7)]);
}

#[test]
fn an_edge_not_running_between_borders_leaves_the_face_whole() {
    let a = Face::new(vec![Contour::from_edges(square().edges)], Surface::new(1));
    let cut = e(8, 9, 40);
    let r = split_face_by_edge_if_necessary(&a, &cut, &FacePointContains::Inside, &FacePointContains::OnEdge(e(1, 2, 10)));
    assert_eq!(r.len(), 1);
    assert_eq!(r[0].all_edges().len(), 4);
    let ends_in = vec![(FacePointContains::Outside, FacePointContains::Inside)];
    let r = split_face_by_edges_if_necessary(&a, &vec![cut], &ends_in);
    assert_eq!(r.len(), 1);
    let r = split_faces_by_edges_if_necessary(vec![a], &vec![cut], &vec![ends_in]);
    assert_eq!(r.len(), 1);
    assert_eq!(r[0].surface, Surface::new(1));
}
