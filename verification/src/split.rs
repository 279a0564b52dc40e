use vstd::prelude::*;

use crate::contains::{edge_point_contains_spec, EdgePointProbe};
use crate::contour::{all_valid, is_chain, is_closed_chain, is_path, succ};
use crate::curve::Curve;
use crate::contains::FacePointContains;
use crate::edge::Edge;
use crate::face::Face;
use crate::point::Point;

verus! {

/// Every edge of the sequence runs along `curve`.
pub open spec fn all_on_curve(edges: Seq<Edge>, curve: Curve) -> bool {
    forall|k: int| 0 <= k < edges.len() ==> (#[trigger] edges[k]).curve == curve
}

/// Every end point of the sequence's edges is `start`, `end` or one of
/// `points`.
pub open spec fn ends_among(edges: Seq<Edge>, start: Point, end: Point, points: Seq<Point>) -> bool {
    forall|k: int| 0 <= k < edges.len() ==> {
        &&& ((#[trigger] edges[k]).start == start || edges[k].start == end || points.contains(edges[k].start))
        &&& (edges[k].end == start || edges[k].end == end || points.contains(edges[k].end))
    }
}

/// Replacing one edge of a path by a path between its end points gives a
/// path again.
pub proof fn lemma_path_splice(pre: Seq<Edge>, x: Edge, post: Seq<Edge>, pieces: Seq<Edge>, start: Point, end: Point)
    requires
        is_path(pre + seq![x] + post, start, end),
        is_path(pieces, x.start, x.end),
    ensures
        is_path(pre + pieces + post, start, end),
{
    let old_path = pre + seq![x] + post;
    let r = pre + pieces + post;
    let a = pre.len() as int;
    let m = pieces.len() as int;
    assert(old_path[a] == x);
    assert forall|k: int| 0 <= k < r.len() implies #[trigger] r[k].valid() by {
        if k < a {
            assert(r[k] == old_path[k]);
        } else if k < a + m {
            assert(r[k] == pieces[k - a]);
        } else {
            assert(r[k] == old_path[k - m + 1]);
        }
    }
    assert forall|k: int| 0 <= k < r.len() - 1 implies #[trigger] r[k].end == r[k + 1].start by {
        if k < a - 1 {
            assert(r[k] == old_path[k]);
            assert(r[k + 1] == old_path[k + 1]);
            assert(old_path[k].end == old_path[k + 1].start);
        } else if k == a - 1 {
            assert(r[k] == old_path[k]);
            assert(r[k + 1] == pieces[0]);
            assert(old_path[k].end == old_path[k + 1].start);
        } else if k < a + m - 1 {
            assert(r[k] == pieces[k - a]);
            assert(r[k + 1] == pieces[k - a + 1]);
        } else if k == a + m - 1 {
            assert(r[k] == pieces[m - 1]);
            assert(r[k + 1] == old_path[a + 1]);
            assert(old_path[a].end == old_path[a + 1].start);
        } else {
            assert(r[k] == old_path[k - m + 1]);
            assert(r[k + 1] == old_path[k - m + 2]);
            assert(old_path[k - m + 1].end == old_path[k - m + 2].start);
        }
    }
    if a == 0 {
        assert(r[0] == pieces[0]);
    } else {
        assert(r[0] == old_path[0]);
    }
    if post.len() == 0 {
        assert(r[r.len() - 1] == pieces[m - 1]);
        assert(old_path[old_path.len() - 1] == x);
    } else {
        assert(r[r.len() - 1] == old_path[old_path.len() - 1]);
    }
}

/// The pieces of `e` after cutting it at `p`, given the geometry layer's
/// report for `p` against `e`: the two halves when `p` lies in its interior,
/// else `e` itself.
pub open spec fn cut_piece(e: Edge, p: Point, report: EdgePointProbe) -> Seq<Edge> {
    if edge_point_contains_spec(e, p, report) is Inside {
        seq![Edge { start: e.start, end: p, curve: e.curve }, Edge { start: p, end: e.end, curve: e.curve }]
    } else {
        seq![e]
    }
}

/// Every piece cut at `p`, the halves in place of the piece.
pub open spec fn cut_all(pieces: Seq<Edge>, p: Point, probe: spec_fn(Edge, Point) -> EdgePointProbe) -> Seq<Edge>
    decreases pieces.len(),
{
    if pieces.len() == 0 {
        Seq::empty()
    } else {
        cut_all(pieces.drop_last(), p, probe) + cut_piece(pieces.last(), p, probe(pieces.last(), p))
    }
}

/// The pieces cut at each of `points` in turn.
pub open spec fn cut_at_points(pieces: Seq<Edge>, points: Seq<Point>, probe: spec_fn(Edge, Point) -> EdgePointProbe) -> Seq<Edge>
    decreases points.len(),
{
    if points.len() == 0 {
        pieces
    } else {
        cut_all(cut_at_points(pieces, points.drop_last(), probe), points.last(), probe)
    }
}

/// The probe answers the same for the same edge and point.
pub open spec fn probe_deterministic<F: Fn(&Edge, &Point) -> EdgePointProbe>(probe: F) -> bool {
    forall|e: &Edge, q: &Point, a: EdgePointProbe, b: EdgePointProbe|
        #![trigger call_ensures(probe, (e, q), a), call_ensures(probe, (e, q), b)]
        call_ensures(probe, (e, q), a) && call_ensures(probe, (e, q), b) ==> a == b
}

/// What the probe answers for an edge and a point.
pub open spec fn probe_report<F: Fn(&Edge, &Point) -> EdgePointProbe>(probe: F) -> spec_fn(Edge, Point) -> EdgePointProbe {
    |e: Edge, q: Point| choose|a: EdgePointProbe| call_ensures(probe, (&e, &q), a)
}

/// Asks the probe about `p` against `e`; the answer is `probe_report`'s.
fn ask_probe<F: Fn(&Edge, &Point) -> EdgePointProbe>(probe: &F, e: &Edge, p: &Point) -> (r: EdgePointProbe)
    requires
        probe_deterministic(*probe),
        forall|e: &Edge, q: &Point| #[trigger] probe.requires((e, q)),
    ensures
        r == probe_report(*probe)(*e, *p),
{
    let r = probe(e, p);
    proof {
        assert(call_ensures(*probe, (e, p), r));
        let a = choose|a: EdgePointProbe| call_ensures(*probe, (&*e, &*p), a);
        assert(call_ensures(*probe, (e, p), a));
    }
    r
}

/// Cutting one more piece at `p` appends its halves.
proof fn lemma_cut_all_step(s: Seq<Edge>, j: int, p: Point, probe: spec_fn(Edge, Point) -> EdgePointProbe)
    requires
        0 <= j < s.len(),
    ensures
        cut_all(s.subrange(0, j + 1), p, probe) == cut_all(s.subrange(0, j), p, probe) + cut_piece(s[j], p, probe(s[j], p)),
{
    assert(s.subrange(0, j + 1).drop_last() =~= s.subrange(0, j));
}

/// Splits `edge` at each of `points` in turn: every piece that holds the
/// point in its interior is replaced by its two halves. `probe` is the
/// geometry layer's report for a point against a piece's curve. The pieces
/// form a path from the edge's start to its end along the edge's curve,
/// with corners only at the given points.
#[verifier::rlimit(50)]
#[verifier::spinoff_prover]
pub fn split_edge_by_points_if_necessary<F: Fn(&Edge, &Point) -> EdgePointProbe>(
    edge: &Edge,
    points: &Vec<Point>,
    probe: &F,
) -> (r: Vec<Edge>)
    requires
        edge.valid(),
        probe_deterministic(*probe),
        forall|e: &Edge, q: &Point| #[trigger] probe.requires((e, q)),
    ensures
        r@ == cut_at_points(seq![*edge], points@, probe_report(*probe)),
        is_path(r@, edge.start, edge.end),
        all_on_curve(r@, edge.curve),
        ends_among(r@, edge.start, edge.end, points@),
{
    let ghost pr = probe_report(*probe);
    let mut result: Vec<Edge> = Vec::new();
    result.push(*edge);
    let n = points.len();
    for i in 0..n
        invariant
            n == points.len(),
            pr == probe_report(*probe),
            probe_deterministic(*probe),
            forall|e: &Edge, q: &Point| #[trigger] probe.requires((e, q)),
            result@ == cut_at_points(seq![*edge], points@.subrange(0, i as int), pr),
            is_path(result@, edge.start, edge.end),
            all_on_curve(result@, edge.curve),
            ends_among(result@, edge.start, edge.end, points@),
    {
        let p = points[i];
        let mut new_result: Vec<Edge> = Vec::new();
        let m = result.len();
        for j in 0..m
            invariant
                m == result.len(),
                pr == probe_report(*probe),
                probe_deterministic(*probe),
                forall|e: &Edge, q: &Point| #[trigger] probe.requires((e, q)),
                new_result@ == cut_all(result@.subrange(0, j as int), p, pr),
                p == points@[i as int],
                i < points.len(),
                is_path(new_result@ + result@.subrange(j as int, m as int), edge.start, edge.end),
                all_on_curve(new_result@, edge.curve),
                all_on_curve(result@, edge.curve),
                ends_among(new_result@, edge.start, edge.end, points@),
                ends_among(result@, edge.start, edge.end, points@),
        {
            let e = result[j];
            let ghost before = new_result@;
            let ghost post = result@.subrange(j + 1, m as int);
            proof {
                assert(result@.subrange(j as int, m as int) =~= seq![e] + post);
                assert(before + result@.subrange(j as int, m as int) =~= before + seq![e] + post);
                assert(e.valid()) by {
                    let path = before + seq![e] + post;
                    assert(path[before.len() as int] == e);
                }
            }
            let report = ask_probe(probe, &e, &p);
            let pieces = e.split_if_necessary(&p, report);
            proof {
                lemma_path_splice(before, e, post, pieces@, edge.start, edge.end);
                if pieces@.len() == 2 {
                    assert(points@[i as int] == p);
                }
            }
            let k = pieces.len();
            for t in 0..k
                invariant
                    k == pieces.len(),
                    new_result@ == before + pieces@.subrange(0, t as int),
            {
                new_result.push(pieces[t]);
                assert(new_result@ =~= before + pieces@.subrange(0, t + 1));
            }
            proof {
                assert(pieces@.subrange(0, k as int) =~= pieces@);
                assert(new_result@ == cut_all(result@.subrange(0, j + 1), p, pr)) by {
                    lemma_cut_all_step(result@, j as int, p, pr);
                    assert(pieces@ =~= cut_piece(e, p, pr(e, p)));
                }
                assert(new_result@ + result@.subrange(j + 1, m as int) =~= before + pieces@ + post);
                assert forall|q: int| 0 <= q < new_result@.len() implies (#[trigger] new_result@[q]).curve == edge.curve by {
                    if q >= before.len() {
                        assert(new_result@[q] == pieces@[q - before.len()]);
                    }
                }
                assert forall|q: int| 0 <= q < new_result@.len() implies {
                    &&& ((#[trigger] new_result@[q]).start == edge.start || new_result@[q].start == edge.end || points@.contains(new_result@[q].start))
                    &&& (new_result@[q].end == edge.start || new_result@[q].end == edge.end || points@.contains(new_result@[q].end))
                } by {
                    if q >= before.len() {
                        assert(new_result@[q] == pieces@[q - before.len()]);
                    }
                }
            }
        }
        proof {
            assert(result@.subrange(m as int, m as int) =~= Seq::<Edge>::empty());
            assert(new_result@ + result@.subrange(m as int, m as int) =~= new_result@);
            assert(result@.subrange(0, m as int) =~= result@);
            assert(points@.subrange(0, i + 1).drop_last() =~= points@.subrange(0, i as int));
            assert(points@.subrange(0, i + 1).last() == p);
        }
        result = new_result;
    }
    assert(points@.subrange(0, n as int) =~= points@);
    result
}

/// `parts[i]` is a path from the start to the end of `edges[i]` along its
/// curve.
pub open spec fn paths_for(parts: Seq<Seq<Edge>>, edges: Seq<Edge>) -> bool {
    &&& parts.len() == edges.len()
    &&& forall|i: int| 0 <= i < edges.len() ==> {
        &&& is_path(#[trigger] parts[i], edges[i].start, edges[i].end)
        &&& all_on_curve(parts[i], edges[i].curve)
    }
}

/// The pieces of each of `edges` cut at `points`, edge after edge.
pub open spec fn cut_each(edges: Seq<Edge>, points: Seq<Point>, probe: spec_fn(Edge, Point) -> EdgePointProbe) -> Seq<Seq<Edge>> {
    edges.map_values(|e: Edge| cut_at_points(seq![e], points, probe))
}

/// Splits each of `edges` at `points` (see `split_edge_by_points_if_necessary`)
/// and lists the pieces edge after edge: each edge becomes a path between
/// its own end points.
pub fn split_edges_by_points_if_necessary<F: Fn(&Edge, &Point) -> EdgePointProbe>(
    edges: Vec<Edge>,
    points: &Vec<Point>,
    probe: &F,
) -> (r: Vec<Edge>)
    requires
        all_valid(edges@),
        probe_deterministic(*probe),
        forall|e: &Edge, q: &Point| #[trigger] probe.requires((e, q)),
    ensures
        r@ == cut_each(edges@, points@, probe_report(*probe)).flatten(),
        paths_for(cut_each(edges@, points@, probe_report(*probe)), edges@),
{
    let ghost pr = probe_report(*probe);
    let n = edges.len();
    let mut result: Vec<Edge> = Vec::new();
    for i in 0..n
        invariant
            n == edges.len(),
            pr == probe_report(*probe),
            all_valid(edges@),
            probe_deterministic(*probe),
            forall|e: &Edge, q: &Point| #[trigger] probe.requires((e, q)),
            paths_for(cut_each(edges@.subrange(0, i as int), points@, pr), edges@.subrange(0, i as int)),
            cut_each(edges@.subrange(0, i as int), points@, pr).flatten() == result@,
    {
        assert(edges@[i as int].valid());
        let pieces = split_edge_by_points_if_necessary(&edges[i], points, probe);
        let ghost before = result@;
        let k = pieces.len();
        for t in 0..k
            invariant
                k == pieces.len(),
                result@ == before + pieces@.subrange(0, t as int),
        {
            result.push(pieces[t]);
            assert(result@ =~= before + pieces@.subrange(0, t + 1));
        }
        proof {
            assert(pieces@.subrange(0, k as int) =~= pieces@);
            let old_parts = cut_each(edges@.subrange(0, i as int), points@, pr);
            let parts = cut_each(edges@.subrange(0, i + 1), points@, pr);
            assert(parts =~= old_parts.push(pieces@));
            old_parts.lemma_flatten_push(pieces@);
            assert forall|j: int| 0 <= j < i + 1 implies {
                &&& is_path(#[trigger] parts[j], edges@.subrange(0, i + 1)[j].start, edges@.subrange(0, i + 1)[j].end)
                &&& all_on_curve(parts[j], edges@.subrange(0, i + 1)[j].curve)
            } by {
                if j < i {
                    assert(parts[j] == old_parts[j]);
                    assert(edges@.subrange(0, i + 1)[j] == edges@.subrange(0, i as int)[j]);
                }
            }
        }
    }
    assert(edges@.subrange(0, n as int) =~= edges@);
    result
}

/// Two paths that meet make one path.
pub proof fn lemma_path_concat(a: Seq<Edge>, b: Seq<Edge>, x: Point, y: Point, z: Point)
    requires
        is_path(a, x, y),
        is_path(b, y, z),
    ensures
        is_path(a + b, x, z),
{
    let r = a + b;
    assert forall|k: int| 0 <= k < r.len() implies #[trigger] r[k].valid() by {
        if k < a.len() {
            assert(r[k] == a[k]);
        } else {
            assert(r[k] == b[k - a.len()]);
        }
    }
    assert forall|k: int| 0 <= k < r.len() - 1 implies #[trigger] r[k].end == r[k + 1].start by {
        if k < a.len() - 1 {
            assert(r[k] == a[k]);
            assert(r[k + 1] == a[k + 1]);
        } else if k == a.len() - 1 {
            assert(r[k] == a[k]);
            assert(r[k + 1] == b[0]);
        } else {
            assert(r[k] == b[k - a.len()]);
            assert(r[k + 1] == b[k - a.len() + 1]);
        }
    }
    assert(r[0] == a[0]);
    assert(r[r.len() - 1] == b[b.len() - 1]);
}

/// Replacing each edge of a chain by a path between its end points gives a
/// path from the chain's start to its end.
pub proof fn lemma_paths_for_chain(parts: Seq<Seq<Edge>>, edges: Seq<Edge>)
    requires
        edges.len() > 0,
        is_chain(edges),
        paths_for(parts, edges),
    ensures
        is_path(parts.flatten(), edges[0].start, edges[edges.len() - 1].end),
    decreases edges.len(),
{
    assert(is_path(parts[0], edges[0].start, edges[0].end));
    if edges.len() == 1 {
        assert(parts.drop_first().flatten() =~= Seq::<Edge>::empty());
        assert(parts.flatten() =~= parts[0]);
    } else {
        let rest = edges.drop_first();
        let rest_parts = parts.drop_first();
        assert forall|i: int| 0 <= i < rest.len() - 1 implies #[trigger] rest[i].end == rest[i + 1].start by {
            assert(edges[i + 1].end == edges[i + 2].start);
        }
        assert forall|i: int| 0 <= i < rest.len() implies {
            &&& is_path(#[trigger] rest_parts[i], rest[i].start, rest[i].end)
            &&& all_on_curve(rest_parts[i], rest[i].curve)
        } by {
            assert(rest_parts[i] == parts[i + 1]);
            assert(rest[i] == edges[i + 1]);
        }
        lemma_paths_for_chain(rest_parts, rest);
        assert(edges[0].end == edges[1].start);
        lemma_path_concat(parts[0], rest_parts.flatten(), edges[0].start, edges[0].end, edges[edges.len() - 1].end);
    }
}

/// Splitting the edges of a closed contour at points keeps it a closed
/// contour.
pub proof fn lemma_split_keeps_closed_chain(parts: Seq<Seq<Edge>>, edges: Seq<Edge>)
    requires
        is_closed_chain(edges),
        paths_for(parts, edges),
    ensures
        is_closed_chain(parts.flatten()),
        all_valid(parts.flatten()),
{
    let n = edges.len() as int;
    assert forall|i: int| 0 <= i < n - 1 implies #[trigger] edges[i].end == edges[i + 1].start by {
        assert(edges[i].end == edges[succ(i, n)].start);
    }
    lemma_paths_for_chain(parts, edges);
    assert(edges[n - 1].end == edges[succ(n - 1, n)].start);
    let f = parts.flatten();
    let m = f.len() as int;
    assert forall|k: int| 0 <= k < m implies #[trigger] f[k].end == f[succ(k, m)].start by {
        if k < m - 1 {
            assert(f[k].end == f[k + 1].start);
        }
    }
}

/// Cutting a concatenation cuts each part.
pub proof fn lemma_cut_all_concat(a: Seq<Edge>, b: Seq<Edge>, p: Point, probe: spec_fn(Edge, Point) -> EdgePointProbe)
    ensures
        cut_all(a + b, p, probe) == cut_all(a, p, probe) + cut_all(b, p, probe),
    decreases b.len(),
{
    if b.len() == 0 {
        assert(a + b =~= a);
        assert(cut_all(a, p, probe) + Seq::<Edge>::empty() =~= cut_all(a, p, probe));
    } else {
        lemma_cut_all_concat(a, b.drop_last(), p, probe);
        assert((a + b).drop_last() =~= a + b.drop_last());
        assert((a + b).last() == b.last());
        let x = cut_piece(b.last(), p, probe(b.last(), p));
        assert(cut_all(a, p, probe) + cut_all(b.drop_last(), p, probe) + x
            =~= cut_all(a, p, probe) + (cut_all(b.drop_last(), p, probe) + x));
    }
}

/// Cutting the pieces again at the same point creates no new pieces: a
/// cut piece holds the point as an end point, and a piece left whole gets
/// the same answer from the probe as before.
pub proof fn lemma_cut_again_creates_no_pieces(pieces: Seq<Edge>, p: Point, probe: spec_fn(Edge, Point) -> EdgePointProbe)
    ensures
        cut_all(cut_all(pieces, p, probe), p, probe) == cut_all(pieces, p, probe),
    decreases pieces.len(),
{
    if pieces.len() > 0 {
        let init = pieces.drop_last();
        let e = pieces.last();
        let x = cut_piece(e, p, probe(e, p));
        lemma_cut_again_creates_no_pieces(init, p, probe);
        lemma_cut_all_concat(cut_all(init, p, probe), x, p, probe);
        assert(cut_all(Seq::<Edge>::empty(), p, probe) =~= Seq::<Edge>::empty());
        if x.len() == 2 {
            let h1 = x[0];
            let h2 = x[1];
            assert(x.drop_last() =~= seq![h1]);
            assert(seq![h1].drop_last() =~= Seq::<Edge>::empty());
            assert(seq![h1].last() == h1);
            assert(!(edge_point_contains_spec(h1, p, probe(h1, p)) is Inside));
            assert(!(edge_point_contains_spec(h2, p, probe(h2, p)) is Inside));
            assert(cut_all(seq![h1], p, probe) =~= seq![h1]);
            assert(cut_all(x, p, probe) =~= x);
        } else {
            assert(x.drop_last() =~= Seq::<Edge>::empty());
            assert(x.last() == e);
            assert(cut_all(x, p, probe) =~= x);
        }
    }
}

/// Once no point lies inside any piece, cutting at the points changes
/// nothing.
pub proof fn lemma_cut_at_points_without_inner_points(pieces: Seq<Edge>, points: Seq<Point>, probe: spec_fn(Edge, Point) -> EdgePointProbe)
    requires
        forall|k: int, j: int| 0 <= k < pieces.len() && 0 <= j < points.len()
            ==> !(#[trigger] edge_point_contains_spec(pieces[k], points[j], probe(pieces[k], points[j])) is Inside),
    ensures
        cut_at_points(pieces, points, probe) == pieces,
    decreases points.len(),
{
    if points.len() > 0 {
        let init = points.drop_last();
        assert forall|k: int, j: int| 0 <= k < pieces.len() && 0 <= j < init.len()
            implies !(#[trigger] edge_point_contains_spec(pieces[k], init[j], probe(pieces[k], init[j])) is Inside) by {
            assert(init[j] == points[j]);
        }
        lemma_cut_at_points_without_inner_points(pieces, init, probe);
        lemma_cut_all_untouched(pieces, points.last(), probe);
    }
}

/// Cutting at a point that lies inside no piece changes nothing.
proof fn lemma_cut_all_untouched(pieces: Seq<Edge>, p: Point, probe: spec_fn(Edge, Point) -> EdgePointProbe)
    requires
        forall|k: int| 0 <= k < pieces.len() ==> !(#[trigger] edge_point_contains_spec(pieces[k], p, probe(pieces[k], p)) is Inside),
    ensures
        cut_all(pieces, p, probe) == pieces,
    decreases pieces.len(),
{
    if pieces.len() > 0 {
        let init = pieces.drop_last();
        assert forall|k: int| 0 <= k < init.len() implies !(#[trigger] edge_point_contains_spec(init[k], p, probe(init[k], p)) is Inside) by {
            assert(init[k] == pieces[k]);
        }
        lemma_cut_all_untouched(init, p, probe);
        assert(edge_point_contains_spec(pieces[pieces.len() - 1], p, probe(pieces[pieces.len() - 1], p)) !is Inside);
        assert(init.push(pieces.last()) =~= pieces);
    }
}

/// An edge from one border point of a face to another cannot split it:
/// the part on the far side of the edge would be bounded by the border from
/// the edge's start to its end followed by the edge itself, which starts
/// where that border starts, so it never closes.
pub open spec fn splits_between_borders(start_in_face: FacePointContains, end_in_face: FacePointContains) -> bool {
    start_in_face is OnEdge && end_in_face is OnEdge
}

/// Splits `face` along `edge`, which touches the face's border at most at
/// its end points. `start_in_face` and `end_in_face` are where the edge's
/// end points lie relative to the face (from `face_point_contains`). An
/// edge that does not run from border to border leaves the face whole; one
/// that does is refused (see `splits_between_borders`).
pub fn split_face_by_edge_if_necessary(
    face: &Face,
    edge: &Edge,
    start_in_face: &FacePointContains,
    end_in_face: &FacePointContains,
) -> (r: Vec<Face>)
    requires
        !splits_between_borders(*start_in_face, *end_in_face),
    ensures
        r.len() == 1,
        r@[0].shapes() == face.shapes(),
        r@[0].surface == face.surface,
{
    let mut r: Vec<Face> = Vec::new();
    r.push(face.clone());
    r
}

/// Splits `face` along each of `edges` in turn (see
/// `split_face_by_edge_if_necessary`); `ends_in_face[k]` is where the end
/// points of `edges[k]` lie relative to the face.
pub fn split_face_by_edges_if_necessary(
    face: &Face,
    edges: &Vec<Edge>,
    ends_in_face: &Vec<(FacePointContains, FacePointContains)>,
) -> (r: Vec<Face>)
    requires
        ends_in_face.len() == edges.len(),
        forall|k: int| 0 <= k < edges.len() ==> !splits_between_borders(#[trigger] ends_in_face@[k].0, ends_in_face@[k].1),
    ensures
        r.len() == 1,
        r@[0].shapes() == face.shapes(),
        r@[0].surface == face.surface,
{
    let mut result: Vec<Face> = Vec::new();
    result.push(face.clone());
    let n = edges.len();
    for k in 0..n
        invariant
            n == edges.len(),
            ends_in_face.len() == n,
            forall|k: int| 0 <= k < edges.len() ==> !splits_between_borders(#[trigger] ends_in_face@[k].0, ends_in_face@[k].1),
            result.len() == 1,
            result@[0].shapes() == face.shapes(),
            result@[0].surface == face.surface,
    {
        let (s, e) = &ends_in_face[k];
        assert(!splits_between_borders(ends_in_face@[k as int].0, ends_in_face@[k as int].1));
        let pieces = split_face_by_edge_if_necessary(&result[0], &edges[k], s, e);
        result = pieces;
    }
    result
}

/// Splits each of `faces` along `edges` (see
/// `split_face_by_edges_if_necessary`); `ends_in_faces[i][k]` is where the
/// end points of `edges[k]` lie relative to `faces[i]`.
pub fn split_faces_by_edges_if_necessary(
    faces: Vec<Face>,
    edges: &Vec<Edge>,
    ends_in_faces: &Vec<Vec<(FacePointContains, FacePointContains)>>,
) -> (r: Vec<Face>)
    requires
        ends_in_faces.len() == faces.len(),
        forall|i: int| 0 <= i < faces.len() ==> (#[trigger] ends_in_faces@[i]).len() == edges.len(),
        forall|i: int, k: int| 0 <= i < faces.len() && 0 <= k < edges.len()
            ==> !splits_between_borders(#[trigger] ends_in_faces@[i]@[k].0, ends_in_faces@[i]@[k].1),
    ensures
        r.len() == faces.len(),
        forall|i: int| 0 <= i < faces.len() ==> (#[trigger] r@[i]).shapes() == faces@[i].shapes() && r@[i].surface == faces@[i].surface,
{
    let n = faces.len();
    let mut result: Vec<Face> = Vec::new();
    for i in 0..n
        invariant
            n == faces.len(),
            ends_in_faces.len() == n,
            forall|i: int| 0 <= i < faces.len() ==> (#[trigger] ends_in_faces@[i]).len() == edges.len(),
            forall|i: int, k: int| 0 <= i < faces.len() && 0 <= k < edges.len()
                ==> !splits_between_borders(#[trigger] ends_in_faces@[i]@[k].0, ends_in_faces@[i]@[k].1),
            result.len() == i,
            forall|j: int| 0 <= j < i ==> (#[trigger] result@[j]).shapes() == faces@[j].shapes() && result@[j].surface == faces@[j].surface,
    {
        assert(ends_in_faces@[i as int].len() == edges.len());
        assert forall|k: int| 0 <= k < edges.len() implies !splits_between_borders(#[trigger] ends_in_faces@[i as int]@[k].0, ends_in_faces@[i as int]@[k].1) by {
        }
        let pieces = split_face_by_edges_if_necessary(&faces[i], edges, &ends_in_faces[i]);
        let f = pieces[0].clone();
        result.push(f);
    }
    result
}

} // verus!
