use vstd::prelude::*;

use crate::contains::{EdgePointContains, EdgePointProbe, FaceEdgeContains, FacePointContains, VolumeFaceContains};
use crate::contour::{all_valid, is_chain, is_closed_chain, is_path, succ, Contour};
use crate::curve::{Curve, Surface};
use crate::edge::Edge;
use crate::face::{all_wf, boundary_edges, Face};
use crate::point::Point;
use crate::split::{
    cut_at_points, cut_each, paths_for, probe_deterministic, probe_report, split_edge_by_points_if_necessary,
    split_edges_by_points_if_necessary,
};
use crate::split_parts::{
    filter_keeps, intersection_filter, keep_pieces, lemma_boundary_edges_of_shapes, lemma_kept_edges_valid, locate_all, locate_deterministic, locate_report,
    shape_edges, split_parts_edges, split_parts_pieces, union_filter, SplitFilter,
};
use crate::volume::Volume;

verus! {

broadcast use {vstd::multiset::group_multiset_axioms, vstd::seq_lib::group_to_multiset_ensures};

/// The start points of a sequence of edges.
pub open spec fn starts(s: Seq<Edge>) -> Seq<Point> {
    s.map_values(|e: Edge| e.start)
}

/// The end points of a sequence of edges.
pub open spec fn ends(s: Seq<Edge>) -> Seq<Point> {
    s.map_values(|e: Edge| e.end)
}

/// How many edge end points of the sequence lie at `p`.
pub open spec fn degree(s: Seq<Edge>, p: Point) -> nat {
    starts(s).to_multiset().count(p) + ends(s).to_multiset().count(p)
}

/// How many of the edge's end points lie at `p`.
pub open spec fn contribution(e: Edge, p: Point) -> nat {
    (if e.start == p { 1nat } else { 0nat }) + (if e.end == p { 1nat } else { 0nat })
}

/// The edge starts or ends at `p`.
pub open spec fn touches_point(e: Edge, p: Point) -> bool {
    e.start == p || e.end == p
}

/// Every point is the end point of an even number of edges: the condition
/// under which loose edges can always be chained into closed contours.
pub open spec fn even_degrees(s: Seq<Edge>) -> bool {
    forall|p: Point| #[trigger] degree(s, p) % 2 == 0
}

/// `out` is `orig` edge for edge, each edge possibly run backwards.
pub open spec fn same_up_to_direction(out: Seq<Edge>, orig: Seq<Edge>) -> bool {
    &&& out.len() == orig.len()
    &&& forall|k: int| 0 <= k < out.len() ==> #[trigger] out[k] == orig[k] || out[k] == orig[k].spec_neg()
}

/// `out` holds exactly the edges of `input`, in some order, each edge
/// possibly run backwards.
pub open spec fn reassembles(out: Seq<Edge>, input: Seq<Edge>) -> bool {
    exists|orig: Seq<Edge>| orig.to_multiset() == input.to_multiset() && #[trigger] same_up_to_direction(out, orig)
}

/// Removing an edge removes its end points from the degrees.
pub proof fn lemma_degree_remove(s: Seq<Edge>, i: int, p: Point)
    requires
        0 <= i < s.len(),
    ensures
        degree(s.remove(i), p) + contribution(s[i], p) == degree(s, p),
{
    assert(starts(s.remove(i)) =~= starts(s).remove(i));
    assert(ends(s.remove(i)) =~= ends(s).remove(i));
    vstd::seq_lib::to_multiset_remove(starts(s), i);
    vstd::seq_lib::to_multiset_remove(ends(s), i);
    vstd::seq_lib::to_multiset_contains(starts(s), s[i].start);
    vstd::seq_lib::to_multiset_contains(ends(s), s[i].end);
    assert(starts(s)[i] == s[i].start);
    assert(ends(s)[i] == s[i].end);
}

/// A point that no edge touches has degree zero.
pub proof fn lemma_degree_zero(s: Seq<Edge>, p: Point)
    requires
        forall|i: int| 0 <= i < s.len() ==> !(#[trigger] touches_point(s[i], p)),
    ensures
        degree(s, p) == 0,
{
    vstd::seq_lib::to_multiset_contains(starts(s), p);
    vstd::seq_lib::to_multiset_contains(ends(s), p);
    if starts(s).contains(p) {
        let i = choose|i: int| 0 <= i < starts(s).len() && starts(s)[i] == p;
        assert(touches_point(s[i], p));
    }
    if ends(s).contains(p) {
        let i = choose|i: int| 0 <= i < ends(s).len() && ends(s)[i] == p;
        assert(touches_point(s[i], p));
    }
}

/// In a closed chain every point is the end of as many edges as it is the
/// start of, so every point has even degree.
pub proof fn lemma_closed_chain_even_degrees(s: Seq<Edge>)
    requires
        is_closed_chain(s),
    ensures
        even_degrees(s),
{
    let n = s.len() as int;
    let st = starts(s);
    let en = ends(s);
    // the ends are the starts rotated by one
    let rot = st.subrange(1, n) + st.subrange(0, 1);
    assert(en =~= rot) by {
        assert forall|i: int| 0 <= i < n implies #[trigger] en[i] == rot[i] by {
            assert(s[i].end == s[succ(i, n)].start);
        }
    }
    assert(st =~= st.subrange(0, 1) + st.subrange(1, n));
    vstd::seq_lib::lemma_seq_union_to_multiset_commutative(st.subrange(0, 1), st.subrange(1, n));
    assert forall|p: Point| #[trigger] degree(s, p) % 2 == 0 by {
        assert(en.to_multiset() == st.to_multiset());
    }
}

/// Degrees add up over joined edge sequences.
pub proof fn lemma_degree_concat(a: Seq<Edge>, b: Seq<Edge>, p: Point)
    ensures
        degree(a + b, p) == degree(a, p) + degree(b, p),
{
    assert(starts(a + b) =~= starts(a) + starts(b));
    assert(ends(a + b) =~= ends(a) + ends(b));
    vstd::seq_lib::lemma_multiset_commutative(starts(a), starts(b));
    vstd::seq_lib::lemma_multiset_commutative(ends(a), ends(b));
}

/// The edges of contours that close up always chain into contours again:
/// every point has even degree among them.
pub proof fn lemma_closed_contours_even_degrees(contours: Seq<Contour>)
    requires
        all_closed_edge_contours(contours),
    ensures
        even_degrees(boundary_edges(contours)),
        all_valid(boundary_edges(contours)),
    decreases contours.len(),
{
    if contours.len() == 0 {
        assert(boundary_edges(contours) =~= Seq::<Edge>::empty());
        assert forall|p: Point| #[trigger] degree(boundary_edges(contours), p) % 2 == 0 by {
            assert(starts(Seq::<Edge>::empty()).to_multiset().count(p) == 0) by {
                assert(!starts(Seq::<Edge>::empty()).contains(p));
            }
            assert(ends(Seq::<Edge>::empty()).to_multiset().count(p) == 0) by {
                assert(!ends(Seq::<Edge>::empty()).contains(p));
            }
        }
    } else {
        let init = contours.drop_last();
        let last = contours.last();
        assert forall|i: int| 0 <= i < init.len() implies (#[trigger] init[i] is ContourMultiPoint) && init[i].wf() by {
            assert(init[i] == contours[i]);
        }
        lemma_closed_contours_even_degrees(init);
        let m = init.map_values(|c: Contour| c.edge_seq());
        assert(contours.map_values(|c: Contour| c.edge_seq()) =~= m.push(last.edge_seq()));
        m.lemma_flatten_push(last.edge_seq());
        let all = boundary_edges(contours);
        assert(all == boundary_edges(init) + last.edge_seq());
        assert(last is ContourMultiPoint && last.wf());
        lemma_closed_chain_even_degrees(last.edge_seq());
        assert forall|p: Point| #[trigger] degree(all, p) % 2 == 0 by {
            lemma_degree_concat(boundary_edges(init), last.edge_seq(), p);
            assert(degree(boundary_edges(init), p) % 2 == 0);
            assert(degree(last.edge_seq(), p) % 2 == 0);
        }
        assert forall|k: int| 0 <= k < all.len() implies #[trigger] all[k].valid() by {
            if k < boundary_edges(init).len() {
                assert(all[k] == boundary_edges(init)[k]);
            } else {
                assert(all[k] == last.edge_seq()[k - boundary_edges(init).len()]);
            }
        }
    }
}

/// The index of the first edge that starts or ends at `p`, if any.
fn find_touching(edges: &Vec<Edge>, p: &Point) -> (r: Option<usize>)
    ensures
        r matches Some(i) ==> i < edges.len() && touches_point(edges@[i as int], *p)
            && forall|j: int| 0 <= j < i ==> !(#[trigger] touches_point(edges@[j], *p)),
        r is None ==> forall|i: int| 0 <= i < edges.len() ==> !(#[trigger] touches_point(edges@[i], *p)),
{
    let n = edges.len();
    for i in 0..n
        invariant
            n == edges.len(),
            forall|j: int| 0 <= j < i ==> !(#[trigger] touches_point(edges@[j], *p)),
    {
        if edges[i].start == *p || edges[i].end == *p {
            return Some(i);
        }
    }
    None
}

/// Some remaining edge starts or ends at `u`.
pub open spec fn touched(rem: Seq<Edge>, u: Point) -> bool {
    exists|i: int| 0 <= i < rem.len() && #[trigger] touches_point(rem[i], u)
}

/// `i` is the first remaining edge that starts or ends at `u`.
pub open spec fn is_first_touching(rem: Seq<Edge>, u: Point, i: int) -> bool {
    &&& 0 <= i < rem.len()
    &&& touches_point(rem[i], u)
    &&& forall|j: int| 0 <= j < i ==> !#[trigger] touches_point(rem[j], u)
}

/// The first remaining edge that starts or ends at `u`.
pub open spec fn first_touching(rem: Seq<Edge>, u: Point) -> int {
    choose|i: int| is_first_touching(rem, u, i)
}

/// A touching edge exists, so there is a first one.
pub proof fn lemma_first_touching(rem: Seq<Edge>, u: Point, w: int)
    requires
        0 <= w < rem.len(),
        touches_point(rem[w], u),
    ensures
        is_first_touching(rem, u, first_touching(rem, u)),
    decreases w,
{
    if forall|j: int| 0 <= j < w ==> !#[trigger] touches_point(rem[j], u) {
        assert(is_first_touching(rem, u, w));
    } else {
        let v = choose|j: int| 0 <= j < w && #[trigger] touches_point(rem[j], u);
        lemma_first_touching(rem, u, v);
    }
}

/// The first touching edge is determined by the edges.
pub proof fn lemma_first_touching_unique(rem: Seq<Edge>, u: Point, i: int)
    requires
        is_first_touching(rem, u, i),
    ensures
        first_touching(rem, u) == i,
{
    lemma_first_touching(rem, u, i);
    let c = first_touching(rem, u);
    if c < i {
        assert(!touches_point(rem[c], u));
    } else if c > i {
        assert(!touches_point(rem[i], u));
    }
}

/// The edge that continues a chain ending at `u`: `e` itself when it starts
/// at `u`, otherwise `e` run backwards.
pub open spec fn oriented_from(e: Edge, u: Point) -> Edge {
    if e.start == u { e } else { e.spec_neg() }
}

/// The chain grown from `chain` with the edges `rem`: while some remaining
/// edge touches the chain's end, the first such edge is removed and
/// appended, turned to continue the chain. Gives the final chain and the
/// edges left over.
pub open spec fn grow_chain(rem: Seq<Edge>, chain: Seq<Edge>) -> (Seq<Edge>, Seq<Edge>)
    decreases rem.len(),
{
    if chain.len() > 0 && touched(rem, chain.last().end) {
        let u = chain.last().end;
        let i = first_touching(rem, u);
        proof {
            let w = choose|i: int| 0 <= i < rem.len() && #[trigger] touches_point(rem[i], u);
            lemma_first_touching(rem, u, w);
        }
        grow_chain(rem.remove(i), chain.push(oriented_from(rem[i], u)))
    } else {
        (chain, rem)
    }
}

/// Growing a chain never adds edges to the ones left over.
pub proof fn lemma_grow_chain_shrinks(rem: Seq<Edge>, chain: Seq<Edge>)
    ensures
        grow_chain(rem, chain).1.len() <= rem.len(),
    decreases rem.len(),
{
    if chain.len() > 0 && touched(rem, chain.last().end) {
        let u = chain.last().end;
        let w = choose|i: int| 0 <= i < rem.len() && #[trigger] touches_point(rem[i], u);
        lemma_first_touching(rem, u, w);
        let i = first_touching(rem, u);
        lemma_grow_chain_shrinks(rem.remove(i), chain.push(oriented_from(rem[i], u)));
    }
}

/// The contours chained from loose edges, in the order they are made: the
/// first grows from the last edge, using the others; the rest are chained
/// from the edges it left over.
pub open spec fn assemble_spec(edges: Seq<Edge>) -> Seq<Seq<Edge>>
    decreases edges.len(),
{
    if edges.len() == 0 {
        Seq::empty()
    } else {
        let grown = grow_chain(edges.drop_last(), seq![edges.last()]);
        proof {
            lemma_grow_chain_shrinks(edges.drop_last(), seq![edges.last()]);
        }
        seq![grown.0] + assemble_spec(grown.1)
    }
}

/// Grows a chain from `first` by repeatedly taking the first remaining edge
/// that touches the chain's end, turned around if needed, until no edge
/// touches the end. When every point has an even number of edge ends the
/// chain then closes up. Returns the chain and the edges it took, as they
/// were.
fn build_chain(edges: &mut Vec<Edge>, first: Edge) -> (r: (Vec<Edge>, Ghost<Seq<Edge>>))
    requires
        all_valid(old(edges)@),
        first.valid(),
        forall|p: Point| (#[trigger] degree(old(edges)@, p) + contribution(first, p)) % 2 == 0,
    ensures
        is_closed_chain(r.0@),
        all_valid(r.0@),
        same_up_to_direction(r.0@, r.1@),
        final(edges)@.to_multiset().add(r.1@.to_multiset()) == old(edges)@.to_multiset().insert(first),
        all_valid(final(edges)@),
        even_degrees(final(edges)@),
        final(edges)@.len() <= old(edges)@.len(),
        (r.0@, final(edges)@) == grow_chain(old(edges)@, seq![first]),
{
    let mut chain: Vec<Edge> = Vec::new();
    chain.push(first);
    let ghost mut orig: Seq<Edge> = seq![first];
    let ghost v0 = first.start;
    let ghost initial = edges@;
    proof {
        let e0 = Seq::<Edge>::empty();
        assert(e0.to_multiset() =~= vstd::multiset::Multiset::empty()) by {
            assert forall|x: Edge| e0.to_multiset().count(x) == 0 by {
                assert(!e0.contains(x));
            }
        }
        assert(e0.push(first) == orig);
    }
    assert(orig.to_multiset() =~= vstd::multiset::Multiset::empty().insert(first));
    loop
        invariant
            initial == old(edges)@,
            edges@.len() <= initial.len(),
            grow_chain(edges@, chain@) == grow_chain(initial, seq![first]),
            chain.len() > 0,
            chain@[0].start == v0,
            is_chain(chain@),
            all_valid(chain@),
            all_valid(edges@),
            same_up_to_direction(chain@, orig),
            edges@.to_multiset().add(orig.to_multiset()) == initial.to_multiset().insert(first),
            forall|p: Point| (#[trigger] degree(edges@, p)
                + (if p == v0 { 1int } else { 0int })
                + (if p == chain@[chain.len() - 1].end { 1int } else { 0int })) % 2 == 0,
        decreases edges.len(),
    {
        let u = chain[chain.len() - 1].end;
        match find_touching(edges, &u) {
            Some(i) => {
                let ghost before = edges@;
                let ghost chain_before = chain@;
                proof {
                    assert(is_first_touching(before, u, i as int));
                    lemma_first_touching_unique(before, u, i as int);
                    assert(touched(before, u));
                    assert(chain_before.last().end == u);
                }
                let e = edges.remove(i);
                proof {
                    assert(edges@ == before.remove(i as int));
                    assert(e == before[i as int]);
                    assert(before[i as int].valid());
                    vstd::seq_lib::to_multiset_remove(before, i as int);
                    vstd::seq_lib::to_multiset_contains(before, e);
                    assert(before.contains(e));
                    assert forall|p: Point| #[trigger] degree(edges@, p) + contribution(e, p) == degree(before, p) by {
                        lemma_degree_remove(before, i as int, p);
                    }
                    assert forall|k: int| 0 <= k < edges@.len() implies #[trigger] edges@[k].valid() by {
                        if k < i {
                            assert(edges@[k] == before[k]);
                        } else {
                            assert(edges@[k] == before[k + 1]);
                        }
                    }
                }
                let next = if e.start == u { e } else { e.neg() };
                chain.push(next);
                proof {
                    let old_orig = orig;
                    orig = orig.push(e);
                    assert(edges@.to_multiset().add(orig.to_multiset()) =~= initial.to_multiset().insert(first)) by {
                        vstd::seq_lib::to_multiset_build(old_orig, e);
                    }
                    assert(chain@ == chain_before.push(next));
                    assert forall|k: int| 0 <= k < chain@.len() implies #[trigger] chain@[k] == orig[k] || chain@[k] == orig[k].spec_neg() by {
                        if k < chain_before.len() {
                            assert(chain@[k] == chain_before[k]);
                        }
                    }
                    assert forall|k: int| 0 <= k < chain@.len() - 1 implies #[trigger] chain@[k].end == chain@[k + 1].start by {
                        if k < chain_before.len() - 1 {
                            assert(chain@[k] == chain_before[k]);
                            assert(chain@[k + 1] == chain_before[k + 1]);
                        }
                    }
                    assert forall|k: int| 0 <= k < chain@.len() implies #[trigger] chain@[k].valid() by {
                        if k < chain_before.len() {
                            assert(chain@[k] == chain_before[k]);
                        }
                    }
                    let w = next.end;
                    assert forall|p: Point| (#[trigger] degree(edges@, p)
                        + (if p == v0 { 1int } else { 0int })
                        + (if p == chain@[chain.len() - 1].end { 1int } else { 0int })) % 2 == 0 by {
                        assert(degree(edges@, p) + contribution(e, p) == degree(before, p));
                        assert((degree(before, p)
                            + (if p == v0 { 1int } else { 0int })
                            + (if p == chain_before[chain_before.len() - 1].end { 1int } else { 0int })) % 2 == 0);
                    }
                }
            },
            None => {
                proof {
                    assert(!touched(edges@, u));
                    assert(chain@.last().end == u);
                    lemma_degree_zero(edges@, u);
                    assert((degree(edges@, u)
                        + (if u == v0 { 1int } else { 0int })
                        + (if u == chain@[chain.len() - 1].end { 1int } else { 0int })) % 2 == 0);
                    assert(u == v0);
                    let n = chain@.len() as int;
                    assert forall|k: int| 0 <= k < n implies #[trigger] chain@[k].end == chain@[succ(k, n)].start by {
                        if k < n - 1 {
                            assert(chain@[k].end == chain@[k + 1].start);
                        }
                    }
                    assert forall|p: Point| #[trigger] degree(edges@, p) % 2 == 0 by {
                        assert((degree(edges@, p)
                            + (if p == v0 { 1int } else { 0int })
                            + (if p == chain@[chain.len() - 1].end { 1int } else { 0int })) % 2 == 0);
                    }
                }
                return (chain, Ghost(orig));
            },
        }
    }
}

/// Joining two edge sequences that each match their source edges one for
/// one gives a sequence matching the joined sources.
proof fn lemma_same_up_to_direction_concat(a: Seq<Edge>, x: Seq<Edge>, b: Seq<Edge>, y: Seq<Edge>)
    requires
        same_up_to_direction(a, x),
        same_up_to_direction(b, y),
    ensures
        same_up_to_direction(a + b, x + y),
{
    assert forall|k: int| 0 <= k < (a + b).len() implies #[trigger] (a + b)[k] == (x + y)[k] || (a + b)[k] == (x + y)[k].spec_neg() by {
        if k < a.len() {
            assert((a + b)[k] == a[k]);
            assert((x + y)[k] == x[k]);
        } else {
            assert((a + b)[k] == b[k - a.len()]);
            assert((x + y)[k] == y[k - a.len()]);
        }
    }
}

/// The edges of each contour, contour by contour.
pub open spec fn contour_edge_seqs(contours: Seq<Contour>) -> Seq<Seq<Edge>> {
    contours.map_values(|c: Contour| c.edge_seq())
}

/// Every contour in the sequence is made of edges that close up.
pub open spec fn all_closed_edge_contours(contours: Seq<Contour>) -> bool {
    forall|i: int| 0 <= i < contours.len() ==> (#[trigger] contours[i] is ContourMultiPoint) && contours[i].wf()
}

/// Chains loose edges into closed contours: repeatedly takes the last
/// remaining edge and follows it, taking at each end the first remaining
/// edge that touches it (turned around if it points the wrong way), until
/// the chain closes. Every edge is used exactly once; every point has to be
/// the end point of an even number of edges.
pub fn assemble_contours(edges: Vec<Edge>) -> (contours: Vec<Contour>)
    requires
        all_valid(edges@),
        even_degrees(edges@),
    ensures
        all_closed_edge_contours(contours@),
        contour_edge_seqs(contours@) == assemble_spec(edges@),
        reassembles(boundary_edges(contours@), edges@),
{
    let ghost input = edges@;
    let mut edges = edges;
    let mut contours: Vec<Contour> = Vec::new();
    let ghost mut used: Seq<Edge> = Seq::empty();
    proof {
        assert(used.to_multiset() =~= vstd::multiset::Multiset::empty()) by {
            assert forall|x: Edge| used.to_multiset().count(x) == 0 by {
                assert(!used.contains(x));
            }
        }
        assert(boundary_edges(contours@) =~= Seq::<Edge>::empty()) by {
            assert(contours@.map_values(|c: Contour| c.edge_seq()) =~= Seq::<Seq<Edge>>::empty());
        }
        assert(edges@.to_multiset().add(used.to_multiset()) =~= input.to_multiset());
        assert(contour_edge_seqs(contours@) =~= Seq::<Seq<Edge>>::empty());
        assert(contour_edge_seqs(contours@) + assemble_spec(edges@) =~= assemble_spec(input));
    }
    while edges.len() > 0
        invariant
            all_valid(edges@),
            even_degrees(edges@),
            all_closed_edge_contours(contours@),
            edges@.to_multiset().add(used.to_multiset()) == input.to_multiset(),
            same_up_to_direction(boundary_edges(contours@), used),
            contour_edge_seqs(contours@) + assemble_spec(edges@) == assemble_spec(input),
        decreases edges.len(),
    {
        let ghost before = edges@;
        let popped = edges.pop();
        let first = match popped {
            Some(e) => e,
            None => {
                assert(false);
                return contours;
            },
        };
        proof {
            let n = before.len() as int;
            assert(edges@ == before.drop_last());
            assert(before.drop_last() =~= before.remove(n - 1));
            assert(first == before[n - 1]);
            assert(before[n - 1].valid());
            vstd::seq_lib::to_multiset_remove(before, n - 1);
            vstd::seq_lib::to_multiset_contains(before, first);
            assert(before.contains(first));
            assert(edges@.to_multiset().insert(first) =~= before.to_multiset());
            assert forall|p: Point| (#[trigger] degree(edges@, p) + contribution(first, p)) % 2 == 0 by {
                lemma_degree_remove(before, n - 1, p);
                assert(degree(before, p) % 2 == 0);
            }
            assert forall|k: int| 0 <= k < edges@.len() implies #[trigger] edges@[k].valid() by {
                assert(edges@[k] == before[k]);
            }
        }
        let ghost rem0 = edges@;
        proof {
            lemma_grow_chain_shrinks(before.drop_last(), seq![before.last()]);
            assert(assemble_spec(before) == seq![grow_chain(rem0, seq![first]).0] + assemble_spec(grow_chain(rem0, seq![first]).1));
        }
        let (chain, Ghost(orig)) = build_chain(&mut edges, first);
        let ghost chain_seq = chain@;
        let ghost contours_before = contours@;
        let c = Contour::from_edges(chain);
        contours.push(c);
        proof {
            let m = contours_before.map_values(|x: Contour| x.edge_seq());
            assert(contours@.map_values(|x: Contour| x.edge_seq()) =~= m.push(chain_seq));
            m.lemma_flatten_push(chain_seq);
            assert(boundary_edges(contours@) == boundary_edges(contours_before) + chain_seq);
            assert(contour_edge_seqs(contours@) == contour_edge_seqs(contours_before) + seq![chain_seq]);
            assert(contour_edge_seqs(contours@) + assemble_spec(edges@) =~= contour_edge_seqs(contours_before) + assemble_spec(before));
            lemma_same_up_to_direction_concat(boundary_edges(contours_before), used, chain_seq, orig);
            let old_used = used;
            used = used + orig;
            vstd::seq_lib::lemma_multiset_commutative(old_used, orig);
            assert(edges@.to_multiset().add(used.to_multiset()) =~= input.to_multiset());
            assert forall|i: int| 0 <= i < contours@.len() implies (#[trigger] contours@[i] is ContourMultiPoint) && contours@[i].wf() by {
                if i < contours_before.len() {
                    assert(contours@[i] == contours_before[i]);
                }
            }
        }
    }
    proof {
        assert(edges@ =~= Seq::<Edge>::empty());
        assert(edges@.to_multiset() =~= vstd::multiset::Multiset::empty()) by {
            assert forall|x: Edge| edges@.to_multiset().count(x) == 0 by {
                assert(!edges@.contains(x));
            }
        }
        assert(used.to_multiset() =~= input.to_multiset());
        assert(contour_edge_seqs(contours@) + assemble_spec(edges@) =~= contour_edge_seqs(contours@));
    }
    contours
}

/// An edge of one of two faces cut against each other, with where it lies
/// relative to the other face: inside, on its border running the same or
/// the opposite way, or outside. `A` edges come from the first face, `B`
/// edges from the second.
#[derive(Clone, Copy, Debug)]
pub enum FaceSplit {
    AinB(Edge),
    AonBSameSide(Edge),
    AonBOpSide(Edge),
    AoutB(Edge),
    BinA(Edge),
    BonASameSide(Edge),
    BonAOpSide(Edge),
    BoutA(Edge),
}

/// The edge carried by a classified piece.
pub open spec fn split_edge(s: FaceSplit) -> Edge {
    match s {
        FaceSplit::AinB(e) => e,
        FaceSplit::AonBSameSide(e) => e,
        FaceSplit::AonBOpSide(e) => e,
        FaceSplit::AoutB(e) => e,
        FaceSplit::BinA(e) => e,
        FaceSplit::BonASameSide(e) => e,
        FaceSplit::BonAOpSide(e) => e,
        FaceSplit::BoutA(e) => e,
    }
}

/// The edges carried by a sequence of classified pieces.
pub open spec fn split_edges(s: Seq<FaceSplit>) -> Seq<Edge> {
    s.map_values(|x: FaceSplit| split_edge(x))
}

/// The pieces that bound the union of two faces on one surface: edges of
/// either face outside the other, and shared border running the same way
/// (taken once, from the first face).
pub open spec fn union_keeps(s: FaceSplit) -> bool {
    match s {
        FaceSplit::AonBSameSide(_) => true,
        FaceSplit::AoutB(_) => true,
        FaceSplit::BoutA(_) => true,
        _ => false,
    }
}

/// The pieces that bound the intersection of two faces on one surface:
/// edges of either face inside the other, and shared border running the
/// same way (taken once, from the first face).
pub open spec fn intersection_keeps(s: FaceSplit) -> bool {
    match s {
        FaceSplit::AinB(_) => true,
        FaceSplit::AonBSameSide(_) => true,
        FaceSplit::BinA(_) => true,
        _ => false,
    }
}

/// Builds the face on `surface` bounded by the edges of the given pieces,
/// chaining them into closed contours (see `assemble_contours`). Every point
/// has to be the end point of an even number of the edges.
pub fn face_remesh(surface: Surface, edges_intermediate: Vec<FaceSplit>) -> (f: Face)
    requires
        all_valid(split_edges(edges_intermediate@)),
        even_degrees(split_edges(edges_intermediate@)),
    ensures
        f.surface == surface,
        f.wf(),
        all_closed_edge_contours(f.boundaries@),
        contour_edge_seqs(f.boundaries@) == assemble_spec(split_edges(edges_intermediate@)),
        reassembles(boundary_edges(f.boundaries@), split_edges(edges_intermediate@)),
{
    let n = edges_intermediate.len();
    let mut edges: Vec<Edge> = Vec::new();
    for i in 0..n
        invariant
            n == edges_intermediate.len(),
            edges@ == split_edges(edges_intermediate@.subrange(0, i as int)),
    {
        let e = match &edges_intermediate[i] {
            FaceSplit::AinB(edge) => *edge,
            FaceSplit::AonBSameSide(edge) => *edge,
            FaceSplit::AonBOpSide(edge) => *edge,
            FaceSplit::AoutB(edge) => *edge,
            FaceSplit::BinA(edge) => *edge,
            FaceSplit::BonASameSide(edge) => *edge,
            FaceSplit::BonAOpSide(edge) => *edge,
            FaceSplit::BoutA(edge) => *edge,
        };
        edges.push(e);
        assert(edges@ =~= split_edges(edges_intermediate@.subrange(0, i + 1)));
    }
    assert(edges_intermediate@.subrange(0, n as int) =~= edges_intermediate@);
    let contours = assemble_contours(edges);
    proof {
        assert forall|i: int| 0 <= i < contours@.len() implies #[trigger] contours@[i].wf() by {
            assert(contours@[i] is ContourMultiPoint && contours@[i].wf());
        }
    }
    Face::new(contours, surface)
}

/// The tag of a piece of the first face's boundary, from where it lies
/// relative to the second face.
pub open spec fn classify_self(e: Edge, c: FaceEdgeContains) -> FaceSplit {
    match c {
        FaceEdgeContains::Inside => FaceSplit::AinB(e),
        FaceEdgeContains::OnBorderSameDir => FaceSplit::AonBSameSide(e),
        FaceEdgeContains::OnBorderOppositeDir => FaceSplit::AonBOpSide(e),
        FaceEdgeContains::Outside => FaceSplit::AoutB(e),
    }
}

/// The tag of a piece of the second face's boundary, from where it lies
/// relative to the first face.
pub open spec fn classify_other(e: Edge, c: FaceEdgeContains) -> FaceSplit {
    match c {
        FaceEdgeContains::Inside => FaceSplit::BinA(e),
        FaceEdgeContains::OnBorderSameDir => FaceSplit::BonASameSide(e),
        FaceEdgeContains::OnBorderOppositeDir => FaceSplit::BonAOpSide(e),
        FaceEdgeContains::Outside => FaceSplit::BoutA(e),
    }
}

/// The first face's pieces tagged, followed by the second face's pieces
/// tagged.
pub open spec fn face_split_spec(
    edges_self: Seq<Edge>,
    self_in_other: Seq<FaceEdgeContains>,
    edges_other: Seq<Edge>,
    other_in_self: Seq<FaceEdgeContains>,
) -> Seq<FaceSplit> {
    Seq::new(edges_self.len(), |i: int| classify_self(edges_self[i], self_in_other[i]))
        + Seq::new(edges_other.len(), |i: int| classify_other(edges_other[i], other_in_self[i]))
}

/// Every piece is tagged by where it lies: a piece of the first face is
/// `AinB`, `AonBSameSide`, `AonBOpSide` or `AoutB` exactly when it lies
/// inside the second face, on its border running the same way, on its
/// border running the other way, or outside it; a piece of the second face
/// gets the matching `B` tag from where it lies relative to the first. The
/// pieces keep their order: the first face's, then the second's.
pub proof fn lemma_face_split_tags_match_locator(
    ea: Seq<Edge>,
    ca: Seq<FaceEdgeContains>,
    eb: Seq<Edge>,
    cb: Seq<FaceEdgeContains>,
)
    requires
        ca.len() == ea.len(),
        cb.len() == eb.len(),
    ensures
        face_split_spec(ea, ca, eb, cb).len() == ea.len() + eb.len(),
        forall|k: int| 0 <= k < ea.len() ==> #[trigger] face_split_spec(ea, ca, eb, cb)[k] == match ca[k] {
            FaceEdgeContains::Inside => FaceSplit::AinB(ea[k]),
            FaceEdgeContains::OnBorderSameDir => FaceSplit::AonBSameSide(ea[k]),
            FaceEdgeContains::OnBorderOppositeDir => FaceSplit::AonBOpSide(ea[k]),
            FaceEdgeContains::Outside => FaceSplit::AoutB(ea[k]),
        },
        forall|k: int| 0 <= k < eb.len() ==> #[trigger] face_split_spec(ea, ca, eb, cb)[ea.len() + k] == match cb[k] {
            FaceEdgeContains::Inside => FaceSplit::BinA(eb[k]),
            FaceEdgeContains::OnBorderSameDir => FaceSplit::BonASameSide(eb[k]),
            FaceEdgeContains::OnBorderOppositeDir => FaceSplit::BonAOpSide(eb[k]),
            FaceEdgeContains::Outside => FaceSplit::BoutA(eb[k]),
        },
{
    let s = face_split_spec(ea, ca, eb, cb);
    assert forall|k: int| 0 <= k < eb.len() implies #[trigger] s[ea.len() + k] == match cb[k] {
            FaceEdgeContains::Inside => FaceSplit::BinA(eb[k]),
            FaceEdgeContains::OnBorderSameDir => FaceSplit::BonASameSide(eb[k]),
            FaceEdgeContains::OnBorderOppositeDir => FaceSplit::BonAOpSide(eb[k]),
            FaceEdgeContains::Outside => FaceSplit::BoutA(eb[k]),
        } by {
        assert(s[ea.len() + k] == classify_other(eb[k], cb[k]));
    }
}

/// Tags the boundary pieces of two faces on the same surface, already cut
/// at all their crossings: each piece of the first face by where it lies
/// relative to the second (`self_in_other[i]`, from `face_edge_contains`),
/// and each piece of the second face by where it lies relative to the
/// first (`other_in_self[i]`).
fn tag_face_pieces(
    edges_self: &Vec<Edge>,
    self_in_other: &Vec<FaceEdgeContains>,
    edges_other: &Vec<Edge>,
    other_in_self: &Vec<FaceEdgeContains>,
) -> (r: Vec<FaceSplit>)
    requires
        self_in_other.len() == edges_self.len(),
        other_in_self.len() == edges_other.len(),
    ensures
        r@ == face_split_spec(edges_self@, self_in_other@, edges_other@, other_in_self@),
{
    let mut r: Vec<FaceSplit> = Vec::new();
    let n = edges_self.len();
    for i in 0..n
        invariant
            n == edges_self.len(),
            self_in_other.len() == n,
            r@ == Seq::new(i as nat, |k: int| classify_self(edges_self@[k], self_in_other@[k])),
    {
        let e = edges_self[i];
        let tagged = match self_in_other[i] {
            FaceEdgeContains::Inside => FaceSplit::AinB(e),
            FaceEdgeContains::OnBorderSameDir => FaceSplit::AonBSameSide(e),
            FaceEdgeContains::OnBorderOppositeDir => FaceSplit::AonBOpSide(e),
            FaceEdgeContains::Outside => FaceSplit::AoutB(e),
        };
        r.push(tagged);
        assert(r@ =~= Seq::new((i + 1) as nat, |k: int| classify_self(edges_self@[k], self_in_other@[k])));
    }
    let ghost first = r@;
    let m = edges_other.len();
    for i in 0..m
        invariant
            m == edges_other.len(),
            other_in_self.len() == m,
            r@ == first + Seq::new(i as nat, |k: int| classify_other(edges_other@[k], other_in_self@[k])),
    {
        let e = edges_other[i];
        let tagged = match other_in_self[i] {
            FaceEdgeContains::Inside => FaceSplit::BinA(e),
            FaceEdgeContains::OnBorderSameDir => FaceSplit::BonASameSide(e),
            FaceEdgeContains::OnBorderOppositeDir => FaceSplit::BonAOpSide(e),
            FaceEdgeContains::Outside => FaceSplit::BoutA(e),
        };
        r.push(tagged);
        assert(r@ =~= first + Seq::new((i + 1) as nat, |k: int| classify_other(edges_other@[k], other_in_self@[k])));
    }
    r
}

/// A piece of one of two edges on the same curve, cut against each other,
/// with whether it lies inside the other edge.
#[derive(Clone, Copy, Debug)]
pub enum EdgeRemesh {
    AinB(Edge),
    AoutB(Edge),
    BinA(Edge),
    BoutA(Edge),
}

/// The edge carried by a tagged piece.
pub open spec fn remesh_edge(s: EdgeRemesh) -> Edge {
    match s {
        EdgeRemesh::AinB(e) => e,
        EdgeRemesh::AoutB(e) => e,
        EdgeRemesh::BinA(e) => e,
        EdgeRemesh::BoutA(e) => e,
    }
}

/// The end points of two edges, each listed once, in the order: first
/// edge's start and end, second edge's start and end.
pub open spec fn edge_split_points_spec(a: Edge, b: Edge) -> Seq<Point> {
    let s1 = seq![a.start];
    let s2 = if s1.contains(a.end) { s1 } else { s1.push(a.end) };
    let s3 = if s2.contains(b.start) { s2 } else { s2.push(b.start) };
    if s3.contains(b.end) { s3 } else { s3.push(b.end) }
}

fn push_if_absent(points: &mut Vec<Point>, p: Point)
    ensures
        final(points)@ == if old(points)@.contains(p) { old(points)@ } else { old(points)@.push(p) },
        final(points)@.to_set() == old(points)@.to_set().insert(p),
        old(points)@.no_duplicates() ==> final(points)@.no_duplicates(),
{
    proof {
        let s = points@;
        assert(s.push(p).to_set() =~= s.to_set().insert(p)) by {
            assert forall|x: Point| #[trigger] s.push(p).to_set().contains(x) == s.to_set().insert(p).contains(x) by {
                if s.contains(x) {
                    let k = choose|k: int| 0 <= k < s.len() && s[k] == x;
                    assert(s.push(p)[k] == x);
                }
                if x == p {
                    assert(s.push(p)[s.len() as int] == p);
                }
                if s.push(p).contains(x) {
                    let k = choose|k: int| 0 <= k < s.push(p).len() && s.push(p)[k] == x;
                    if k < s.len() {
                        assert(s[k] == x);
                    }
                }
            }
        }
        if s.contains(p) {
            assert(s.to_set() =~= s.to_set().insert(p));
        }
    }
    let n = points.len();
    for i in 0..n
        invariant
            n == points.len(),
            forall|j: int| 0 <= j < i ==> points@[j] != p,
    {
        if points[i] == p {
            return;
        }
    }
    points.push(p);
}

/// The points at which two edges on the same curve cut each other: their
/// end points, each listed once.
pub fn edge_split_points(a: &Edge, b: &Edge) -> (r: Vec<Point>)
    ensures
        r@ == edge_split_points_spec(*a, *b),
        r@.no_duplicates(),
        r@.to_set() == set![a.start, a.end, b.start, b.end],
{
    let mut points: Vec<Point> = Vec::new();
    push_if_absent(&mut points, a.start);
    push_if_absent(&mut points, a.end);
    push_if_absent(&mut points, b.start);
    push_if_absent(&mut points, b.end);
    assert(Seq::<Point>::empty().push(a.start) == seq![a.start]);
    assert(Seq::<Point>::empty().to_set() =~= Set::<Point>::empty());
    assert(set![a.start, a.end, b.start, b.end] =~= Set::<Point>::empty().insert(a.start).insert(a.end).insert(b.start).insert(b.end));
    points
}

/// The pieces of the first edge tagged by where their midpoints lie
/// relative to the second edge, followed by the pieces of the second edge
/// tagged by where their midpoints lie relative to the first.
pub open spec fn tag_edge_pieces_spec(
    edges_a: Seq<Edge>,
    mid_a_in_b: Seq<EdgePointContains>,
    edges_b: Seq<Edge>,
    mid_b_in_a: Seq<EdgePointContains>,
) -> Seq<EdgeRemesh> {
    Seq::new(edges_a.len(), |i: int| if mid_a_in_b[i] is Inside {
        EdgeRemesh::AinB(edges_a[i])
    } else {
        EdgeRemesh::AoutB(edges_a[i])
    }) + Seq::new(edges_b.len(), |i: int| if mid_b_in_a[i] is Inside {
        EdgeRemesh::BinA(edges_b[i])
    } else {
        EdgeRemesh::BoutA(edges_b[i])
    })
}

/// Tags the pieces of two edges on the same curve, already cut at each
/// other's end points: each piece of the first edge by where its midpoint
/// lies relative to the second (`mid_a_in_b[i]`), and each piece of the
/// second by where its midpoint lies relative to the first. A midpoint
/// never falls on an end point of the other edge.
fn tag_edge_pieces(
    edges_a: &Vec<Edge>,
    mid_a_in_b: &Vec<EdgePointContains>,
    edges_b: &Vec<Edge>,
    mid_b_in_a: &Vec<EdgePointContains>,
) -> (r: Vec<EdgeRemesh>)
    requires
        mid_a_in_b.len() == edges_a.len(),
        mid_b_in_a.len() == edges_b.len(),
        forall|i: int| 0 <= i < mid_a_in_b.len() ==> !(#[trigger] mid_a_in_b@[i] is OnPoint),
        forall|i: int| 0 <= i < mid_b_in_a.len() ==> !(#[trigger] mid_b_in_a@[i] is OnPoint),
    ensures
        r@ == tag_edge_pieces_spec(edges_a@, mid_a_in_b@, edges_b@, mid_b_in_a@),
{
    let mut r: Vec<EdgeRemesh> = Vec::new();
    let n = edges_a.len();
    for i in 0..n
        invariant
            n == edges_a.len(),
            mid_a_in_b.len() == n,
            forall|k: int| 0 <= k < mid_a_in_b.len() ==> !(#[trigger] mid_a_in_b@[k] is OnPoint),
            r@ == Seq::new(i as nat, |k: int| if mid_a_in_b@[k] is Inside {
                EdgeRemesh::AinB(edges_a@[k])
            } else {
                EdgeRemesh::AoutB(edges_a@[k])
            }),
    {
        let piece = match mid_a_in_b[i] {
            EdgePointContains::Inside => EdgeRemesh::AinB(edges_a[i]),
            EdgePointContains::Outside => EdgeRemesh::AoutB(edges_a[i]),
            EdgePointContains::OnPoint(_) => {
                assert(mid_a_in_b@[i as int] is OnPoint);
                EdgeRemesh::AoutB(edges_a[i])
            },
        };
        r.push(piece);
        assert(r@ =~= Seq::new((i + 1) as nat, |k: int| if mid_a_in_b@[k] is Inside {
            EdgeRemesh::AinB(edges_a@[k])
        } else {
            EdgeRemesh::AoutB(edges_a@[k])
        }));
    }
    let ghost first = r@;
    let m = edges_b.len();
    for i in 0..m
        invariant
            m == edges_b.len(),
            mid_b_in_a.len() == m,
            forall|k: int| 0 <= k < mid_b_in_a.len() ==> !(#[trigger] mid_b_in_a@[k] is OnPoint),
            r@ == first + Seq::new(i as nat, |k: int| if mid_b_in_a@[k] is Inside {
                EdgeRemesh::BinA(edges_b@[k])
            } else {
                EdgeRemesh::BoutA(edges_b@[k])
            }),
    {
        let piece = match mid_b_in_a[i] {
            EdgePointContains::Inside => EdgeRemesh::BinA(edges_b[i]),
            EdgePointContains::Outside => EdgeRemesh::BoutA(edges_b[i]),
            EdgePointContains::OnPoint(_) => {
                assert(mid_b_in_a@[i as int] is OnPoint);
                EdgeRemesh::BoutA(edges_b[i])
            },
        };
        r.push(piece);
        assert(r@ =~= first + Seq::new((i + 1) as nat, |k: int| if mid_b_in_a@[k] is Inside {
            EdgeRemesh::BinA(edges_b@[k])
        } else {
            EdgeRemesh::BoutA(edges_b@[k])
        }));
    }
    r
}

/// The midpoint locator answers the same for the same two edges.
pub open spec fn midpoint_deterministic<M: Fn(&Edge, &Edge) -> EdgePointContains>(mid_in: M) -> bool {
    forall|x: &Edge, y: &Edge, a: EdgePointContains, b: EdgePointContains|
        #![trigger call_ensures(mid_in, (x, y), a), call_ensures(mid_in, (x, y), b)]
        call_ensures(mid_in, (x, y), a) && call_ensures(mid_in, (x, y), b) ==> a == b
}

/// What the midpoint locator answers for a piece and an edge.
pub open spec fn midpoint_report<M: Fn(&Edge, &Edge) -> EdgePointContains>(mid_in: M) -> spec_fn(Edge, Edge) -> EdgePointContains {
    |x: Edge, y: Edge| choose|a: EdgePointContains| call_ensures(mid_in, (&x, &y), a)
}

/// Where the midpoint of each piece lies relative to `edge`.
fn locate_midpoints<M: Fn(&Edge, &Edge) -> EdgePointContains>(mid_in: &M, pieces: &Vec<Edge>, edge: &Edge) -> (r: Vec<EdgePointContains>)
    requires
        midpoint_deterministic(*mid_in),
        forall|x: &Edge, y: &Edge| #[trigger] mid_in.requires((x, y)),
    ensures
        r@ == pieces@.map_values(|x: Edge| midpoint_report(*mid_in)(x, *edge)),
{
    let n = pieces.len();
    let mut r: Vec<EdgePointContains> = Vec::new();
    for i in 0..n
        invariant
            n == pieces.len(),
            midpoint_deterministic(*mid_in),
            forall|x: &Edge, y: &Edge| #[trigger] mid_in.requires((x, y)),
            r@ == pieces@.subrange(0, i as int).map_values(|x: Edge| midpoint_report(*mid_in)(x, *edge)),
    {
        let c = mid_in(&pieces[i], edge);
        proof {
            let x = pieces@[i as int];
            assert(call_ensures(*mid_in, (&x, edge), c));
            let a = choose|a: EdgePointContains| call_ensures(*mid_in, (&x, &*edge), a);
            assert(call_ensures(*mid_in, (&x, edge), a));
        }
        r.push(c);
        assert(r@ =~= pieces@.subrange(0, i + 1).map_values(|x: Edge| midpoint_report(*mid_in)(x, *edge)));
    }
    assert(pieces@.subrange(0, n as int) =~= pieces@);
    r
}

/// The pieces of `x` cut at the end points of `a` and `b`.
pub open spec fn cut_for_edge_split(x: Edge, a: Edge, b: Edge, probe: spec_fn(Edge, Point) -> EdgePointProbe) -> Seq<Edge> {
    cut_at_points(seq![x], edge_split_points_spec(a, b), probe)
}

/// The pieces of two edges cut at each other's end points, each tagged by
/// where its midpoint lies relative to the other edge.
pub open spec fn edge_split_spec(
    a: Edge,
    b: Edge,
    probe: spec_fn(Edge, Point) -> EdgePointProbe,
    mid_in: spec_fn(Edge, Edge) -> EdgePointContains,
) -> Seq<EdgeRemesh> {
    let pa = cut_for_edge_split(a, a, b, probe);
    let pb = cut_for_edge_split(b, a, b, probe);
    tag_edge_pieces_spec(pa, pa.map_values(|x: Edge| mid_in(x, b)), pb, pb.map_values(|x: Edge| mid_in(x, a)))
}

/// Cuts two edges on the same curve at each other's end points and tags
/// every piece by where its midpoint lies relative to the other edge: the
/// pieces of the first edge inside or outside the second, then the pieces
/// of the second inside or outside the first. `probe` reports a point
/// against a piece's curve; `mid_in(piece, edge)` reports where the
/// piece's midpoint lies relative to `edge`. No midpoint may fall on an
/// end point of the other edge.
pub fn edge_split<P: Fn(&Edge, &Point) -> EdgePointProbe, M: Fn(&Edge, &Edge) -> EdgePointContains>(
    edge_a: &Edge,
    edge_b: &Edge,
    probe: &P,
    mid_in: &M,
) -> (r: Vec<EdgeRemesh>)
    requires
        edge_a.valid(),
        edge_b.valid(),
        probe_deterministic(*probe),
        forall|e: &Edge, q: &Point| #[trigger] probe.requires((e, q)),
        midpoint_deterministic(*mid_in),
        forall|x: &Edge, y: &Edge| #[trigger] mid_in.requires((x, y)),
        forall|k: int| 0 <= k < cut_for_edge_split(*edge_a, *edge_a, *edge_b, probe_report(*probe)).len()
            ==> !(midpoint_report(*mid_in)(#[trigger] cut_for_edge_split(*edge_a, *edge_a, *edge_b, probe_report(*probe))[k], *edge_b) is OnPoint),
        forall|k: int| 0 <= k < cut_for_edge_split(*edge_b, *edge_a, *edge_b, probe_report(*probe)).len()
            ==> !(midpoint_report(*mid_in)(#[trigger] cut_for_edge_split(*edge_b, *edge_a, *edge_b, probe_report(*probe))[k], *edge_a) is OnPoint),
    ensures
        r@ == edge_split_spec(*edge_a, *edge_b, probe_report(*probe), midpoint_report(*mid_in)),
{
    let points = edge_split_points(edge_a, edge_b);
    let pieces_a = split_edge_by_points_if_necessary(edge_a, &points, probe);
    let pieces_b = split_edge_by_points_if_necessary(edge_b, &points, probe);
    let mid_a = locate_midpoints(mid_in, &pieces_a, edge_b);
    let mid_b = locate_midpoints(mid_in, &pieces_b, edge_a);
    proof {
        let pb = cut_for_edge_split(*edge_b, *edge_a, *edge_b, probe_report(*probe));
        assert(pieces_b@ == pb);
        assert forall|k: int| 0 <= k < mid_b@.len() implies !(#[trigger] mid_b@[k] is OnPoint) by {
            assert(mid_b@[k] == midpoint_report(*mid_in)(pb[k], *edge_a));
        }
        let pa = cut_for_edge_split(*edge_a, *edge_a, *edge_b, probe_report(*probe));
        assert(pieces_a@ == pa);
        assert forall|k: int| 0 <= k < mid_a@.len() implies !(#[trigger] mid_a@[k] is OnPoint) by {
            assert(mid_a@[k] == midpoint_report(*mid_in)(pa[k], *edge_b));
        }
    }
    tag_edge_pieces(&pieces_a, &mid_a, &pieces_b, &mid_b)
}

/// Every tagged piece carries its edge unchanged: same start, end and
/// curve, whatever its tag.
pub proof fn lemma_remesh_edge_is_carried_edge(s: EdgeRemesh)
    ensures
        match s {
            EdgeRemesh::AinB(a) => remesh_edge(s) == a,
            EdgeRemesh::AoutB(a) => remesh_edge(s) == a,
            EdgeRemesh::BinA(b) => remesh_edge(s) == b,
            EdgeRemesh::BoutA(b) => remesh_edge(s) == b,
        },
{
}

/// The edges carried by tagged pieces, in order.
pub fn edge_remesh(curve: &Curve, intervals_intermediate: Vec<EdgeRemesh>) -> (r: Vec<Edge>)
    ensures
        r@ == intervals_intermediate@.map_values(|s: EdgeRemesh| remesh_edge(s)),
        r.len() == intervals_intermediate.len(),
        forall|i: int| 0 <= i < r.len() ==> match #[trigger] intervals_intermediate@[i] {
            EdgeRemesh::AinB(a) => r@[i] == a,
            EdgeRemesh::AoutB(a) => r@[i] == a,
            EdgeRemesh::BinA(b) => r@[i] == b,
            EdgeRemesh::BoutA(b) => r@[i] == b,
        },
{
    let n = intervals_intermediate.len();
    let mut r: Vec<Edge> = Vec::new();
    for i in 0..n
        invariant
            n == intervals_intermediate.len(),
            r@ == intervals_intermediate@.subrange(0, i as int).map_values(|s: EdgeRemesh| remesh_edge(s)),
    {
        let e = match intervals_intermediate[i] {
            EdgeRemesh::AinB(a) => a,
            EdgeRemesh::AoutB(a) => a,
            EdgeRemesh::BinA(b) => b,
            EdgeRemesh::BoutA(b) => b,
        };
        r.push(e);
        assert(r@ =~= intervals_intermediate@.subrange(0, i + 1).map_values(|s: EdgeRemesh| remesh_edge(s)));
    }
    assert(intervals_intermediate@.subrange(0, n as int) =~= intervals_intermediate@);
    proof {
        assert forall|i: int| 0 <= i < r.len() implies match #[trigger] intervals_intermediate@[i] {
            EdgeRemesh::AinB(a) => r@[i] == a,
            EdgeRemesh::AoutB(a) => r@[i] == a,
            EdgeRemesh::BinA(b) => r@[i] == b,
            EdgeRemesh::BoutA(b) => r@[i] == b,
        } by {
            lemma_remesh_edge_is_carried_edge(intervals_intermediate@[i]);
        }
    }
    r
}

/// A face of one of two solids cut against each other, with where it lies
/// relative to the other solid. `A` faces come from the first solid, `B`
/// faces from the second.
#[derive(Debug)]
pub enum VolumeSplit {
    AinB(Face),
    AonBSameSide(Face),
    AonBOpSide(Face),
    AoutB(Face),
    BinA(Face),
    BonASameSide(Face),
    BonAOpSide(Face),
    BoutA(Face),
}

/// The face carried by a tagged piece.
pub open spec fn volume_split_face(s: VolumeSplit) -> Face {
    match s {
        VolumeSplit::AinB(f) => f,
        VolumeSplit::AonBSameSide(f) => f,
        VolumeSplit::AonBOpSide(f) => f,
        VolumeSplit::AoutB(f) => f,
        VolumeSplit::BinA(f) => f,
        VolumeSplit::BonASameSide(f) => f,
        VolumeSplit::BonAOpSide(f) => f,
        VolumeSplit::BoutA(f) => f,
    }
}

/// The tag a face of the first solid gets from where it lies relative to
/// the second solid.
pub open spec fn self_tag_matches(s: VolumeSplit, c: VolumeFaceContains) -> bool {
    match c {
        VolumeFaceContains::Inside => s is AinB,
        VolumeFaceContains::OnBorderSameDir => s is AonBSameSide,
        VolumeFaceContains::OnBorderOppositeDir => s is AonBOpSide,
        VolumeFaceContains::Outside => s is AoutB,
    }
}

/// The tag a face of the second solid gets from where it lies relative to
/// the first solid.
pub open spec fn other_tag_matches(s: VolumeSplit, c: VolumeFaceContains) -> bool {
    match c {
        VolumeFaceContains::Inside => s is BinA,
        VolumeFaceContains::OnBorderSameDir => s is BonASameSide,
        VolumeFaceContains::OnBorderOppositeDir => s is BonAOpSide,
        VolumeFaceContains::Outside => s is BoutA,
    }
}

/// A face of the first solid is tagged `AinB`, `AonBSameSide`, `AonBOpSide`
/// or `AoutB` exactly when it lies inside the second solid, on its border
/// facing the same way, on its border facing the other way, or outside it;
/// a face of the second solid gets the matching `B` tag. The tagged piece
/// carries the face itself.
pub proof fn lemma_volume_tags_match_location(s: VolumeSplit, c: VolumeFaceContains, face: Face)
    ensures
        (volume_split_face(s) == face && self_tag_matches(s, c)) <==> s == match c {
            VolumeFaceContains::Inside => VolumeSplit::AinB(face),
            VolumeFaceContains::OnBorderSameDir => VolumeSplit::AonBSameSide(face),
            VolumeFaceContains::OnBorderOppositeDir => VolumeSplit::AonBOpSide(face),
            VolumeFaceContains::Outside => VolumeSplit::AoutB(face),
        },
        (volume_split_face(s) == face && other_tag_matches(s, c)) <==> s == match c {
            VolumeFaceContains::Inside => VolumeSplit::BinA(face),
            VolumeFaceContains::OnBorderSameDir => VolumeSplit::BonASameSide(face),
            VolumeFaceContains::OnBorderOppositeDir => VolumeSplit::BonAOpSide(face),
            VolumeFaceContains::Outside => VolumeSplit::BoutA(face),
        },
{
}

/// Tags the boundary faces of two solids, already cut along their
/// intersection: each face of the first solid by where it lies relative to
/// the second (`self_in_other[i]`, from `volume_face_contains`), then each
/// face of the second solid by where it lies relative to the first.
pub fn volume_split(
    faces_self: Vec<Face>,
    self_in_other: &Vec<VolumeFaceContains>,
    faces_other: Vec<Face>,
    other_in_self: &Vec<VolumeFaceContains>,
) -> (r: Vec<VolumeSplit>)
    requires
        self_in_other.len() == faces_self.len(),
        other_in_self.len() == faces_other.len(),
    ensures
        r.len() == faces_self.len() + faces_other.len(),
        forall|i: int| 0 <= i < faces_self.len() ==> volume_split_face(#[trigger] r@[i]) == faces_self@[i]
            && self_tag_matches(r@[i], self_in_other@[i]),
        forall|i: int| 0 <= i < faces_other.len() ==> volume_split_face(#[trigger] r@[faces_self.len() + i]) == faces_other@[i]
            && other_tag_matches(r@[faces_self.len() + i], other_in_self@[i]),
        forall|i: int| 0 <= i < faces_self.len() ==> #[trigger] r@[i] == match self_in_other@[i] {
            VolumeFaceContains::Inside => VolumeSplit::AinB(faces_self@[i]),
            VolumeFaceContains::OnBorderSameDir => VolumeSplit::AonBSameSide(faces_self@[i]),
            VolumeFaceContains::OnBorderOppositeDir => VolumeSplit::AonBOpSide(faces_self@[i]),
            VolumeFaceContains::Outside => VolumeSplit::AoutB(faces_self@[i]),
        },
        forall|i: int| 0 <= i < faces_other.len() ==> #[trigger] r@[faces_self.len() + i] == match other_in_self@[i] {
            VolumeFaceContains::Inside => VolumeSplit::BinA(faces_other@[i]),
            VolumeFaceContains::OnBorderSameDir => VolumeSplit::BonASameSide(faces_other@[i]),
            VolumeFaceContains::OnBorderOppositeDir => VolumeSplit::BonAOpSide(faces_other@[i]),
            VolumeFaceContains::Outside => VolumeSplit::BoutA(faces_other@[i]),
        },
{
    let ghost orig_self = faces_self@;
    let ghost orig_other = faces_other@;
    let n = faces_self.len();
    let m = faces_other.len();
    let mut r: Vec<VolumeSplit> = Vec::new();
    let mut rest = faces_self;
    for i in 0..n
        invariant
            n == orig_self.len(),
            self_in_other.len() == n,
            rest@ == orig_self.subrange(i as int, n as int),
            r.len() == i,
            forall|k: int| 0 <= k < i ==> volume_split_face(#[trigger] r@[k]) == orig_self[k]
                && self_tag_matches(r@[k], self_in_other@[k]),
    {
        let f = rest.remove(0);
        assert(f == orig_self[i as int]);
        let piece = match self_in_other[i] {
            VolumeFaceContains::Inside => VolumeSplit::AinB(f),
            VolumeFaceContains::Outside => VolumeSplit::AoutB(f),
            VolumeFaceContains::OnBorderSameDir => VolumeSplit::AonBSameSide(f),
            VolumeFaceContains::OnBorderOppositeDir => VolumeSplit::AonBOpSide(f),
        };
        r.push(piece);
        assert(rest@ =~= orig_self.subrange(i + 1, n as int));
    }
    let mut rest = faces_other;
    for i in 0..m
        invariant
            n == orig_self.len(),
            m == orig_other.len(),
            other_in_self.len() == m,
            rest@ == orig_other.subrange(i as int, m as int),
            r.len() == n + i,
            forall|k: int| 0 <= k < n ==> volume_split_face(#[trigger] r@[k]) == orig_self[k]
                && self_tag_matches(r@[k], self_in_other@[k]),
            forall|k: int| 0 <= k < i ==> volume_split_face(#[trigger] r@[n + k]) == orig_other[k]
                && other_tag_matches(r@[n + k], other_in_self@[k]),
    {
        let f = rest.remove(0);
        assert(f == orig_other[i as int]);
        let piece = match other_in_self[i] {
            VolumeFaceContains::Inside => VolumeSplit::BinA(f),
            VolumeFaceContains::Outside => VolumeSplit::BoutA(f),
            VolumeFaceContains::OnBorderSameDir => VolumeSplit::BonASameSide(f),
            VolumeFaceContains::OnBorderOppositeDir => VolumeSplit::BonAOpSide(f),
        };
        let ghost before = r@;
        r.push(piece);
        assert forall|k: int| 0 <= k < n implies volume_split_face(#[trigger] r@[k]) == orig_self[k]
            && self_tag_matches(r@[k], self_in_other@[k]) by {
            assert(r@[k] == before[k]);
        }
        assert forall|k: int| 0 <= k < i + 1 implies volume_split_face(#[trigger] r@[n + k]) == orig_other[k]
            && other_tag_matches(r@[n + k], other_in_self@[k]) by {
            if k < i {
                assert(r@[n + k] == before[n + k]);
            }
        }
        assert(rest@ =~= orig_other.subrange(i + 1, m as int));
    }
    proof {
        assert forall|i: int| 0 <= i < orig_self.len() implies #[trigger] r@[i] == match self_in_other@[i] {
            VolumeFaceContains::Inside => VolumeSplit::AinB(orig_self[i]),
            VolumeFaceContains::OnBorderSameDir => VolumeSplit::AonBSameSide(orig_self[i]),
            VolumeFaceContains::OnBorderOppositeDir => VolumeSplit::AonBOpSide(orig_self[i]),
            VolumeFaceContains::Outside => VolumeSplit::AoutB(orig_self[i]),
        } by {
            lemma_volume_tags_match_location(r@[i], self_in_other@[i], orig_self[i]);
        }
        assert forall|i: int| 0 <= i < orig_other.len() implies #[trigger] r@[orig_self.len() + i] == match other_in_self@[i] {
            VolumeFaceContains::Inside => VolumeSplit::BinA(orig_other[i]),
            VolumeFaceContains::OnBorderSameDir => VolumeSplit::BonASameSide(orig_other[i]),
            VolumeFaceContains::OnBorderOppositeDir => VolumeSplit::BonAOpSide(orig_other[i]),
            VolumeFaceContains::Outside => VolumeSplit::BoutA(orig_other[i]),
        } by {
            lemma_volume_tags_match_location(r@[orig_self.len() + i], other_in_self@[i], orig_other[i]);
        }
    }
    r
}

/// The solid bounded by the given faces, which are the kept faces of two
/// solids cut against each other.
pub fn volume_remesh(faces_intermediate: Vec<Face>) -> (v: Volume)
    requires
        faces_intermediate.len() > 0,
    ensures
        v.faces@ == faces_intermediate@,
{
    Volume::new(faces_intermediate)
}

/// Where two edges meet: nowhere, at some points, or along a common edge.
#[derive(Debug)]
pub enum EdgeEdgeIntersection {
    Disjoint,
    Points(Vec<Point>),
    Edge(Edge),
}

/// The points an intersection of two edges contributes as cutting points:
/// the meeting points, or the end points of a common edge.
pub open spec fn intersection_points(i: EdgeEdgeIntersection) -> Seq<Point> {
    match i {
        EdgeEdgeIntersection::Disjoint => Seq::empty(),
        EdgeEdgeIntersection::Points(ps) => ps@,
        EdgeEdgeIntersection::Edge(e) => seq![e.start, e.end],
    }
}

/// The points at which two faces' boundaries have to be cut: for the
/// intersection of every pair of boundary edges (`intersections`, as the
/// geometry layer found them, pair after pair), its meeting points or the
/// end points of the common edge.
pub fn face_split_points(intersections: &Vec<EdgeEdgeIntersection>) -> (r: Vec<Point>)
    ensures
        r@ == intersections@.map_values(|i: EdgeEdgeIntersection| intersection_points(i)).flatten(),
{
    let n = intersections.len();
    let mut r: Vec<Point> = Vec::new();
    for k in 0..n
        invariant
            n == intersections.len(),
            r@ == intersections@.subrange(0, k as int).map_values(|i: EdgeEdgeIntersection| intersection_points(i)).flatten(),
    {
        let ghost before = r@;
        match &intersections[k] {
            EdgeEdgeIntersection::Disjoint => {},
            EdgeEdgeIntersection::Points(ps) => {
                let m = ps.len();
                for j in 0..m
                    invariant
                        m == ps.len(),
                        r@ == before + ps@.subrange(0, j as int),
                {
                    r.push(ps[j]);
                    assert(r@ =~= before + ps@.subrange(0, j + 1));
                }
                assert(ps@.subrange(0, m as int) =~= ps@);
            },
            EdgeEdgeIntersection::Edge(e) => {
                r.push(e.start);
                r.push(e.end);
            },
        }
        proof {
            let src = intersections@;
            let m = src.subrange(0, k as int).map_values(|i: EdgeEdgeIntersection| intersection_points(i));
            assert(src.subrange(0, k + 1).map_values(|i: EdgeEdgeIntersection| intersection_points(i)) =~= m.push(intersection_points(src[k as int])));
            m.lemma_flatten_push(intersection_points(src[k as int]));
            assert(r@ =~= before + intersection_points(src[k as int]));
        }
    }
    assert(intersections@.subrange(0, n as int) =~= intersections@);
    r
}

/// The points that lie on or in both faces, in order: `in_self[i]` and
/// `in_other[i]` are where `points[i]` lies relative to each face.
pub open spec fn points_in_both(
    points: Seq<Point>,
    in_self: Seq<FacePointContains>,
    in_other: Seq<FacePointContains>,
) -> Seq<Point>
    decreases points.len(),
{
    if points.len() == 0 {
        Seq::empty()
    } else {
        let k = points.len() - 1;
        let rest = points_in_both(points.drop_last(), in_self.subrange(0, k), in_other.subrange(0, k));
        if !(in_self[k] is Outside) && !(in_other[k] is Outside) {
            rest.push(points[k])
        } else {
            rest
        }
    }
}

/// The points where two surfaces meet that belong to both faces: those not
/// outside either face. `in_self[i]` and `in_other[i]` are where
/// `points[i]` lies relative to each face (from `face_point_contains`).
pub fn face_face_intersection_points(
    points: &Vec<Point>,
    in_self: &Vec<FacePointContains>,
    in_other: &Vec<FacePointContains>,
) -> (r: Vec<Point>)
    requires
        in_self.len() == points.len(),
        in_other.len() == points.len(),
    ensures
        r@ == points_in_both(points@, in_self@, in_other@),
{
    let n = points.len();
    let mut r: Vec<Point> = Vec::new();
    for i in 0..n
        invariant
            n == points.len(),
            in_self.len() == n,
            in_other.len() == n,
            r@ == points_in_both(points@.subrange(0, i as int), in_self@.subrange(0, i as int), in_other@.subrange(0, i as int)),
    {
        proof {
            let ps = points@.subrange(0, i + 1);
            assert(ps.drop_last() =~= points@.subrange(0, i as int));
            assert(in_self@.subrange(0, i + 1).subrange(0, i as int) =~= in_self@.subrange(0, i as int));
            assert(in_other@.subrange(0, i + 1).subrange(0, i as int) =~= in_other@.subrange(0, i as int));
        }
        let outside_self = matches!(in_self[i], FacePointContains::Outside);
        let outside_other = matches!(in_other[i], FacePointContains::Outside);
        if !outside_self && !outside_other {
            r.push(points[i]);
        }
    }
    proof {
        assert(points@.subrange(0, n as int) =~= points@);
        assert(in_self@.subrange(0, n as int) =~= in_self@);
        assert(in_other@.subrange(0, n as int) =~= in_other@);
    }
    r
}

/// Sequences of valid edges flatten to valid edges.
proof fn lemma_flatten_all_valid(parts: Seq<Seq<Edge>>)
    requires
        forall|i: int| 0 <= i < parts.len() ==> all_valid(#[trigger] parts[i]),
    ensures
        all_valid(parts.flatten()),
    decreases parts.len(),
{
    if parts.len() > 0 {
        let rest = parts.drop_first();
        assert forall|i: int| 0 <= i < rest.len() implies all_valid(#[trigger] rest[i]) by {
            assert(rest[i] == parts[i + 1]);
        }
        lemma_flatten_all_valid(rest);
        let f = parts.flatten();
        assert(f == parts[0] + rest.flatten());
        assert(all_valid(parts[0]));
        assert forall|k: int| 0 <= k < f.len() implies #[trigger] f[k].valid() by {
            if k < parts[0].len() {
                assert(f[k] == parts[0][k]);
            } else {
                assert(f[k] == rest.flatten()[k - parts[0].len()]);
            }
        }
    }
}

/// The boundary edges of a well-formed face are valid.
proof fn lemma_boundary_edges_valid(boundaries: Seq<Contour>)
    requires
        all_wf(boundaries),
    ensures
        all_valid(boundary_edges(boundaries)),
{
    let m = boundaries.map_values(|c: Contour| c.edge_seq());
    assert forall|i: int| 0 <= i < m.len() implies all_valid(#[trigger] m[i]) by {
        assert(boundaries[i].wf());
    }
    lemma_flatten_all_valid(m);
}

/// Edges cut into paths between their end points stay valid.
proof fn lemma_cut_edges_valid(parts: Seq<Seq<Edge>>, edges: Seq<Edge>)
    requires
        paths_for(parts, edges),
    ensures
        all_valid(parts.flatten()),
{
    assert forall|i: int| 0 <= i < parts.len() implies all_valid(#[trigger] parts[i]) by {
        assert(is_path(parts[i], edges[i].start, edges[i].end));
    }
    lemma_flatten_all_valid(parts);
}

/// Tagging pieces keeps their edges: the first face's pieces, then the
/// second's.
proof fn lemma_split_edges_of_tags(
    ea: Seq<Edge>,
    ca: Seq<FaceEdgeContains>,
    eb: Seq<Edge>,
    cb: Seq<FaceEdgeContains>,
)
    requires
        ca.len() == ea.len(),
        cb.len() == eb.len(),
    ensures
        split_edges(face_split_spec(ea, ca, eb, cb)) == ea + eb,
{
    let s = face_split_spec(ea, ca, eb, cb);
    assert forall|k: int| 0 <= k < s.len() implies #[trigger] split_edges(s)[k] == (ea + eb)[k] by {
        assert(split_edges(s)[k] == split_edge(s[k]));
    }
    assert(split_edges(s) =~= ea + eb);
}

/// Cuts the boundaries of two faces on the same surface at `points`, where
/// they cross (`probe` reports a point against an edge's curve), and tags
/// every piece: the first face's pieces by where they lie relative to the
/// second face, then the second face's pieces by where they lie relative
/// to the first (`locate` reports an edge against a face).
pub fn face_split<P: Fn(&Edge, &Point) -> EdgePointProbe, L: Fn(&Face, &Edge) -> FaceEdgeContains>(
    face_self: &Face,
    face_other: &Face,
    points: &Vec<Point>,
    probe: &P,
    locate: &L,
) -> (r: Vec<FaceSplit>)
    requires
        face_self.surface == face_other.surface,
        face_self.wf(),
        face_other.wf(),
        probe_deterministic(*probe),
        forall|e: &Edge, q: &Point| #[trigger] probe.requires((e, q)),
        locate_deterministic(*locate),
        forall|g: &Face, e: &Edge| #[trigger] locate.requires((g, e)),
    ensures
        r@ == split_parts_pieces(*face_self, *face_other, points@, probe_report(*probe), locate_report(*locate)),
        all_valid(split_edges(r@)),
        r@.len() == cut_each(shape_edges(face_self.shapes()), points@, probe_report(*probe)).flatten().len() + cut_each(shape_edges(face_other.shapes()), points@, probe_report(*probe)).flatten().len(),
        forall|k: int| 0 <= k < cut_each(shape_edges(face_self.shapes()), points@, probe_report(*probe)).flatten().len() ==> #[trigger] r@[k] == match locate_report(*locate)(face_other.shapes(), face_other.surface, cut_each(shape_edges(face_self.shapes()), points@, probe_report(*probe)).flatten()[k]) {
            FaceEdgeContains::Inside => FaceSplit::AinB(cut_each(shape_edges(face_self.shapes()), points@, probe_report(*probe)).flatten()[k]),
            FaceEdgeContains::OnBorderSameDir => FaceSplit::AonBSameSide(cut_each(shape_edges(face_self.shapes()), points@, probe_report(*probe)).flatten()[k]),
            FaceEdgeContains::OnBorderOppositeDir => FaceSplit::AonBOpSide(cut_each(shape_edges(face_self.shapes()), points@, probe_report(*probe)).flatten()[k]),
            FaceEdgeContains::Outside => FaceSplit::AoutB(cut_each(shape_edges(face_self.shapes()), points@, probe_report(*probe)).flatten()[k]),
        },
        forall|k: int| 0 <= k < cut_each(shape_edges(face_other.shapes()), points@, probe_report(*probe)).flatten().len() ==> #[trigger] r@[cut_each(shape_edges(face_self.shapes()), points@, probe_report(*probe)).flatten().len() + k] == match locate_report(*locate)(face_self.shapes(), face_self.surface, cut_each(shape_edges(face_other.shapes()), points@, probe_report(*probe)).flatten()[k]) {
            FaceEdgeContains::Inside => FaceSplit::BinA(cut_each(shape_edges(face_other.shapes()), points@, probe_report(*probe)).flatten()[k]),
            FaceEdgeContains::OnBorderSameDir => FaceSplit::BonASameSide(cut_each(shape_edges(face_other.shapes()), points@, probe_report(*probe)).flatten()[k]),
            FaceEdgeContains::OnBorderOppositeDir => FaceSplit::BonAOpSide(cut_each(shape_edges(face_other.shapes()), points@, probe_report(*probe)).flatten()[k]),
            FaceEdgeContains::Outside => FaceSplit::BoutA(cut_each(shape_edges(face_other.shapes()), points@, probe_report(*probe)).flatten()[k]),
        },
{
    let ghost pr = probe_report(*probe);
    let edges_self = face_self.all_edges();
    let edges_other = face_other.all_edges();
    proof {
        lemma_boundary_edges_valid(face_self.boundaries@);
        lemma_boundary_edges_valid(face_other.boundaries@);
        lemma_boundary_edges_of_shapes(face_self.boundaries@);
        lemma_boundary_edges_of_shapes(face_other.boundaries@);
    }
    let cut_self = split_edges_by_points_if_necessary(edges_self, points, probe);
    let cut_other = split_edges_by_points_if_necessary(edges_other, points, probe);
    let self_in_other = locate_all(locate, face_other, &cut_self);
    let other_in_self = locate_all(locate, face_self, &cut_other);
    let pieces = tag_face_pieces(&cut_self, &self_in_other, &cut_other, &other_in_self);
    proof {
        lemma_cut_edges_valid(cut_each(boundary_edges(face_self.boundaries@), points@, pr), boundary_edges(face_self.boundaries@));
        lemma_cut_edges_valid(cut_each(boundary_edges(face_other.boundaries@), points@, pr), boundary_edges(face_other.boundaries@));
        lemma_split_edges_of_tags(cut_self@, self_in_other@, cut_other@, other_in_self@);
        lemma_face_split_tags_match_locator(cut_self@, self_in_other@, cut_other@, other_in_self@);
        let both = cut_self@ + cut_other@;
        assert forall|k: int| 0 <= k < both.len() implies #[trigger] both[k].valid() by {
            if k < cut_self@.len() {
                assert(both[k] == cut_self@[k]);
            } else {
                assert(both[k] == cut_other@[k - cut_self@.len()]);
            }
        }
    }
    pieces
}

/// The union of two faces on the same surface: their boundaries cut and
/// tagged against each other (`face_split`), the pieces of the union's
/// border kept, and chained into contours.
pub fn face_union<P: Fn(&Edge, &Point) -> EdgePointProbe, L: Fn(&Face, &Edge) -> FaceEdgeContains>(
    face_self: &Face,
    face_other: &Face,
    points: &Vec<Point>,
    probe: &P,
    locate: &L,
) -> (f: Face)
    requires
        face_self.surface == face_other.surface,
        face_self.wf(),
        face_other.wf(),
        probe_deterministic(*probe),
        forall|e: &Edge, q: &Point| #[trigger] probe.requires((e, q)),
        locate_deterministic(*locate),
        forall|g: &Face, e: &Edge| #[trigger] locate.requires((g, e)),
        even_degrees(split_parts_edges(*face_self, *face_other, points@, probe_report(*probe), locate_report(*locate), union_filter())),
    ensures
        f.surface == face_self.surface,
        f.wf(),
        all_closed_edge_contours(f.boundaries@),
        contour_edge_seqs(f.boundaries@) == assemble_spec(
            split_parts_edges(*face_self, *face_other, points@, probe_report(*probe), locate_report(*locate), union_filter()),
        ),
        reassembles(
            boundary_edges(f.boundaries@),
            split_parts_edges(*face_self, *face_other, points@, probe_report(*probe), locate_report(*locate), union_filter()),
        ),
{
    let filter = SplitFilter {
        a_in_b: false,
        a_on_b_same_side: true,
        a_on_b_op_side: false,
        a_out_b: true,
        b_in_a: false,
        b_on_a_same_side: false,
        b_on_a_op_side: false,
        b_out_a: true,
    };
    let pieces = face_split(face_self, face_other, points, probe, locate);
    proof {
        lemma_kept_edges_valid(pieces@, |s: FaceSplit| filter_keeps(filter, s));
    }
    let kept = keep_pieces(&filter, pieces);
    face_remesh(face_self.surface, kept)
}

/// The intersection of two faces on the same surface: their boundaries cut
/// and tagged against each other (`face_split`), the pieces of the
/// intersection's border kept, and chained into contours.
pub fn face_face_same_surface_intersection<P: Fn(&Edge, &Point) -> EdgePointProbe, L: Fn(&Face, &Edge) -> FaceEdgeContains>(
    face_self: &Face,
    face_other: &Face,
    points: &Vec<Point>,
    probe: &P,
    locate: &L,
) -> (f: Face)
    requires
        face_self.surface == face_other.surface,
        face_self.wf(),
        face_other.wf(),
        probe_deterministic(*probe),
        forall|e: &Edge, q: &Point| #[trigger] probe.requires((e, q)),
        locate_deterministic(*locate),
        forall|g: &Face, e: &Edge| #[trigger] locate.requires((g, e)),
        even_degrees(split_parts_edges(*face_self, *face_other, points@, probe_report(*probe), locate_report(*locate), intersection_filter())),
    ensures
        f.surface == face_self.surface,
        f.wf(),
        all_closed_edge_contours(f.boundaries@),
        contour_edge_seqs(f.boundaries@) == assemble_spec(
            split_parts_edges(*face_self, *face_other, points@, probe_report(*probe), locate_report(*locate), intersection_filter()),
        ),
        reassembles(
            boundary_edges(f.boundaries@),
            split_parts_edges(*face_self, *face_other, points@, probe_report(*probe), locate_report(*locate), intersection_filter()),
        ),
{
    let filter = SplitFilter {
        a_in_b: true,
        a_on_b_same_side: true,
        a_on_b_op_side: false,
        a_out_b: false,
        b_in_a: true,
        b_on_a_same_side: false,
        b_on_a_op_side: false,
        b_out_a: false,
    };
    let pieces = face_split(face_self, face_other, points, probe, locate);
    proof {
        lemma_kept_edges_valid(pieces@, |s: FaceSplit| filter_keeps(filter, s));
    }
    let kept = keep_pieces(&filter, pieces);
    face_remesh(face_self.surface, kept)
}

} // verus!
