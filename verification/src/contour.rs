use vstd::prelude::*;

use crate::contains::{edge_point_contains, edge_point_contains_spec, EdgePointContains, EdgePointProbe};
use crate::curve::Curve;
use crate::edge::Edge;
use crate::point::Point;

verus! {

/// Consecutive edges meet: each edge ends where the next one starts.
pub open spec fn is_chain(edges: Seq<Edge>) -> bool {
    forall|i: int| 0 <= i < edges.len() - 1 ==> #[trigger] edges[i].end == edges[i + 1].start
}

/// The index after `i` going round a cycle of `n` positions.
pub open spec fn succ(i: int, n: int) -> int {
    if i + 1 < n { i + 1 } else { 0 }
}

/// The index before `i` going round a cycle of `n` positions.
pub open spec fn pred(i: int, n: int) -> int {
    if i > 0 { i - 1 } else { n - 1 }
}

/// A closed chain: non-empty, and each edge ends where the next one starts,
/// the last one where the first one starts.
pub open spec fn is_closed_chain(edges: Seq<Edge>) -> bool {
    &&& edges.len() > 0
    &&& forall|i: int| 0 <= i < edges.len() ==> #[trigger] edges[i].end == edges[succ(i, edges.len() as int)].start
}

/// Every edge of the sequence has non-zero length.
pub open spec fn all_valid(edges: Seq<Edge>) -> bool {
    forall|i: int| 0 <= i < edges.len() ==> #[trigger] edges[i].valid()
}

/// The edges of a contour run backwards: reversed order, each edge flipped.
pub open spec fn flip_edges(edges: Seq<Edge>) -> Seq<Edge> {
    Seq::new(edges.len(), |k: int| edges[edges.len() - 1 - k].spec_flip())
}

/// Where on a contour a point lies: in the interior of one edge, or on the
/// corner between an incoming and an outgoing edge.
#[derive(Clone, Copy, Debug, PartialEq, Eq, Structural)]
pub enum EdgeIndex {
    OnEdge(usize),
    OnCorner(usize, usize),
}

/// How `point` lies relative to edge `i`, given the geometry layer's probes.
pub open spec fn contact(edges: Seq<Edge>, point: Point, probes: Seq<EdgePointProbe>, i: int) -> EdgePointContains {
    edge_point_contains_spec(edges[i], point, probes[i])
}

/// Some edge of the contour touches `point`.
pub open spec fn touches(edges: Seq<Edge>, point: Point, probes: Seq<EdgePointProbe>) -> bool {
    exists|i: int| 0 <= i < edges.len() && !(#[trigger] contact(edges, point, probes, i) is Outside)
}

/// `i` is the first edge of the contour that touches `point`.
pub open spec fn is_first_contact(edges: Seq<Edge>, point: Point, probes: Seq<EdgePointProbe>, i: int) -> bool {
    &&& 0 <= i < edges.len()
    &&& !(contact(edges, point, probes, i) is Outside)
    &&& forall|j: int| 0 <= j < i ==> #[trigger] contact(edges, point, probes, j) is Outside
}

/// The first edge of the contour that touches `point`.
pub open spec fn first_contact(edges: Seq<Edge>, point: Point, probes: Seq<EdgePointProbe>) -> int {
    choose|i: int| is_first_contact(edges, point, probes, i)
}

/// The position of a point found on edge `i`: inside that edge, or on the
/// corner at its end (with the next edge) or at its start (with the
/// previous edge).
pub open spec fn index_at(edges: Seq<Edge>, i: int, c: EdgePointContains) -> EdgeIndex {
    let n = edges.len() as int;
    match c {
        EdgePointContains::OnPoint(p) => if p == edges[i].end {
            EdgeIndex::OnCorner(i as usize, succ(i, n) as usize)
        } else {
            EdgeIndex::OnCorner(pred(i, n) as usize, i as usize)
        },
        _ => EdgeIndex::OnEdge(i as usize),
    }
}

/// Where `point` lies on the contour: decided by the first edge touching it.
pub open spec fn edge_index_spec(edges: Seq<Edge>, point: Point, probes: Seq<EdgePointProbe>) -> EdgeIndex {
    let i = first_contact(edges, point, probes);
    index_at(edges, i, contact(edges, point, probes, i))
}

/// The first contact is determined by the probes.
pub proof fn lemma_first_contact_unique(edges: Seq<Edge>, point: Point, probes: Seq<EdgePointProbe>, i: int)
    requires
        is_first_contact(edges, point, probes, i),
    ensures
        first_contact(edges, point, probes) == i,
{
    let c = first_contact(edges, point, probes);
    assert(is_first_contact(edges, point, probes, c));
    if c < i {
        assert(contact(edges, point, probes, c) is Outside);
    } else if c > i {
        assert(contact(edges, point, probes, i) is Outside);
    }
}

/// A point that touches the contour has a first contact.
pub proof fn lemma_first_contact_exists(edges: Seq<Edge>, point: Point, probes: Seq<EdgePointProbe>)
    requires
        touches(edges, point, probes),
    ensures
        is_first_contact(edges, point, probes, first_contact(edges, point, probes)),
{
    let w = choose|i: int| 0 <= i < edges.len() && !(#[trigger] contact(edges, point, probes, i) is Outside);
    lemma_minimal_contact(edges, point, probes, w);
}

proof fn lemma_minimal_contact(edges: Seq<Edge>, point: Point, probes: Seq<EdgePointProbe>, w: int)
    requires
        0 <= w < edges.len(),
        !(contact(edges, point, probes, w) is Outside),
    ensures
        is_first_contact(edges, point, probes, first_contact(edges, point, probes)),
    decreases w,
{
    if forall|j: int| 0 <= j < w ==> #[trigger] contact(edges, point, probes, j) is Outside {
        assert(is_first_contact(edges, point, probes, w));
    } else {
        let v = choose|j: int| 0 <= j < w && !(#[trigger] contact(edges, point, probes, j) is Outside);
        lemma_minimal_contact(edges, point, probes, v);
    }
}

/// Position `x` of a walk round a cycle of `n` positions that may pass the
/// end once.
pub open spec fn wrap(x: int, n: int) -> int {
    if x < n { x } else { x - n }
}

/// The number of whole edges strictly between edge `si` and edge `ei` when
/// walking forward round a contour of `n` edges; when `ei` does not come
/// after `si`, the walk goes once round the end.
pub open spec fn between_count(si: int, ei: int, n: int) -> int {
    if ei > si { ei - si - 1 } else { n - si - 1 + ei }
}

/// The part of a contour from `start` (on edge `si`) to `end` (on edge
/// `ei`), walking forward. When both lie on the same edge and `end` comes
/// after `start` on it, this is the single piece between them. Otherwise
/// it is the rest of edge `si` after `start`, then the whole edges after
/// it, then the part of edge `ei` before `end`; a piece that would have
/// zero length is left out.
pub open spec fn subcurve_spec(edges: Seq<Edge>, start: Point, end: Point, si: int, ei: int, forward: bool) -> Seq<Edge> {
    let n = edges.len() as int;
    if si == ei && forward {
        seq![Edge { start: start, end: end, curve: edges[si].curve }]
    } else {
        let first = edges[si];
        let last = edges[ei];
        let head = if start != first.end {
            seq![Edge { start: start, end: first.end, curve: first.curve }]
        } else {
            Seq::<Edge>::empty()
        };
        let middle = Seq::new(between_count(si, ei, n) as nat, |k: int| edges[wrap(si + 1 + k, n)]);
        let tail = if last.start != end {
            seq![Edge { start: last.start, end: end, curve: last.curve }]
        } else {
            Seq::<Edge>::empty()
        };
        head + middle + tail
    }
}

/// Cutting between points on two different edges ignores `forward` and
/// walks round the contour: it starts with the rest of the start's edge up
/// to that edge's end corner, passes every whole edge between the two
/// edges in contour order, and ends with the part of the end's edge from
/// its start corner.
pub proof fn lemma_subcurve_between_edges(edges: Seq<Edge>, start: Point, end: Point, si: int, ei: int, forward: bool)
    requires
        0 <= si < edges.len(),
        0 <= ei < edges.len(),
        si != ei,
    ensures
        subcurve_spec(edges, start, end, si, ei, forward) == subcurve_spec(edges, start, end, si, ei, !forward),
        forall|k: int| 0 <= k < between_count(si, ei, edges.len() as int)
            ==> subcurve_spec(edges, start, end, si, ei, forward).contains(#[trigger] edges[wrap(si + 1 + k, edges.len() as int)]),
        start != edges[si].end ==> subcurve_spec(edges, start, end, si, ei, forward)[0]
            == (Edge { start: start, end: edges[si].end, curve: edges[si].curve }),
        edges[ei].start != end ==> subcurve_spec(edges, start, end, si, ei, forward).last()
            == (Edge { start: edges[ei].start, end: end, curve: edges[ei].curve }),
{
    let n = edges.len() as int;
    let r = subcurve_spec(edges, start, end, si, ei, forward);
    let first = edges[si];
    let last = edges[ei];
    let head = if start != first.end {
        seq![Edge { start: start, end: first.end, curve: first.curve }]
    } else {
        Seq::<Edge>::empty()
    };
    let middle = Seq::new(between_count(si, ei, n) as nat, |k: int| edges[wrap(si + 1 + k, n)]);
    let tail = if last.start != end {
        seq![Edge { start: last.start, end: end, curve: last.curve }]
    } else {
        Seq::<Edge>::empty()
    };
    assert(r == head + middle + tail);
    assert forall|k: int| 0 <= k < between_count(si, ei, n) implies r.contains(#[trigger] edges[wrap(si + 1 + k, n)]) by {
        assert(r[head.len() + k] == middle[k]);
    }
    if start != first.end {
        assert(r[0] == head[0]);
    }
}

/// Cutting between two points on the same edge gives the single piece
/// between them along that edge's curve when `end` comes after `start`;
/// otherwise it walks once round the contour, passing every other edge.
pub proof fn lemma_subcurve_on_one_edge(edges: Seq<Edge>, start: Point, end: Point, i: int, forward: bool)
    requires
        0 <= i < edges.len(),
    ensures
        forward ==> subcurve_spec(edges, start, end, i, i, forward) == seq![Edge { start: start, end: end, curve: edges[i].curve }],
        !forward ==> forall|k: int| 0 <= k < edges.len() - 1
            ==> subcurve_spec(edges, start, end, i, i, forward).contains(#[trigger] edges[wrap(i + 1 + k, edges.len() as int)]),
{
    let n = edges.len() as int;
    if !forward {
        let r = subcurve_spec(edges, start, end, i, i, forward);
        let first = edges[i];
        let last = edges[i];
        let head = if start != first.end {
            seq![Edge { start: start, end: first.end, curve: first.curve }]
        } else {
            Seq::<Edge>::empty()
        };
        let middle = Seq::new(between_count(i, i, n) as nat, |k: int| edges[wrap(i + 1 + k, n)]);
        let tail = if last.start != end {
            seq![Edge { start: last.start, end: end, curve: last.curve }]
        } else {
            Seq::<Edge>::empty()
        };
        assert(r == head + middle + tail);
        assert forall|k: int| 0 <= k < n - 1 implies r.contains(#[trigger] edges[wrap(i + 1 + k, n)]) by {
            assert(r[head.len() + k] == middle[k]);
        }
    }
}

/// A non-empty chain of valid edges leading from `start` to `end`.
pub open spec fn is_path(edges: Seq<Edge>, start: Point, end: Point) -> bool {
    &&& edges.len() > 0
    &&& edges[0].start == start
    &&& edges[edges.len() - 1].end == end
    &&& is_chain(edges)
    &&& all_valid(edges)
}

/// The edge index that a corner or interior position contributes as the
/// first edge of a sub-curve.
pub open spec fn start_edge(idx: EdgeIndex) -> int {
    match idx {
        EdgeIndex::OnEdge(i) => i as int,
        EdgeIndex::OnCorner(_, i2) => i2 as int,
    }
}

/// The edge index that a corner or interior position contributes as the
/// last edge of a sub-curve.
pub open spec fn end_edge(idx: EdgeIndex) -> int {
    match idx {
        EdgeIndex::OnEdge(i) => i as int,
        EdgeIndex::OnCorner(i1, _) => i1 as int,
    }
}

/// Cutting a closed contour between two distinct points gives a path from
/// the first to the second, whichever edges the points were found on.
pub proof fn lemma_subcurve_is_path(edges: Seq<Edge>, start: Point, end: Point, si: int, ei: int, forward: bool)
    requires
        is_closed_chain(edges),
        all_valid(edges),
        start != end,
        0 <= si < edges.len(),
        0 <= ei < edges.len(),
    ensures
        is_path(subcurve_spec(edges, start, end, si, ei, forward), start, end),
{
    let n = edges.len() as int;
    let r = subcurve_spec(edges, start, end, si, ei, forward);
    if si == ei && forward {
        return;
    }
    let first = edges[si];
    let last = edges[ei];
    let count = between_count(si, ei, n);
    let head = if start != first.end {
        seq![Edge { start: start, end: first.end, curve: first.curve }]
    } else {
        Seq::<Edge>::empty()
    };
    let middle = Seq::new(count as nat, |k: int| edges[wrap(si + 1 + k, n)]);
    let tail = if last.start != end {
        seq![Edge { start: last.start, end: end, curve: last.curve }]
    } else {
        Seq::<Edge>::empty()
    };
    assert(r == head + middle + tail);
    assert(first.end == edges[succ(si, n)].start);
    assert(edges[pred(ei, n)].end == edges[succ(pred(ei, n), n)].start);
    assert(succ(pred(ei, n), n) == ei);
    // consecutive whole edges meet
    assert forall|k: int| 0 <= k < count - 1 implies #[trigger] middle[k].end == middle[k + 1].start by {
        let x = wrap(si + 1 + k, n);
        assert(edges[x].end == edges[succ(x, n)].start);
        assert(succ(x, n) == wrap(si + 1 + k + 1, n));
    }
    if count > 0 {
        assert(wrap(si + 1, n) == succ(si, n));
        assert(wrap(si + 1 + (count - 1), n) == pred(ei, n));
        assert(middle[0].start == first.end);
        assert(middle[count - 1].end == last.start);
    } else {
        assert(succ(si, n) == ei);
        assert(first.end == last.start);
    }
    assert forall|k: int| 0 <= k < count implies #[trigger] middle[k].valid() by {
        assert(edges[wrap(si + 1 + k, n)].valid());
    }
    let hm = head + middle;
    assert forall|i: int| 0 <= i < hm.len() - 1 implies #[trigger] hm[i].end == hm[i + 1].start by {
        if head.len() == 1 && i == 0 {
            assert(hm[0] == head[0]);
            assert(hm[1] == middle[0]);
        } else {
            let k = i - head.len();
            assert(hm[i] == middle[k]);
            assert(hm[i + 1] == middle[k + 1]);
        }
    }
    assert forall|i: int| 0 <= i < r.len() - 1 implies #[trigger] r[i].end == r[i + 1].start by {
        if i < hm.len() - 1 {
            assert(r[i] == hm[i]);
            assert(r[i + 1] == hm[i + 1]);
        } else {
            assert(tail.len() == 1);
            assert(r[i + 1] == tail[0]);
            assert(r[i] == hm[hm.len() - 1]);
            if count > 0 {
                assert(hm[hm.len() - 1] == middle[count - 1]);
            } else {
                assert(head.len() == 1);
                assert(hm[hm.len() - 1] == head[0]);
            }
        }
    }
    assert forall|i: int| 0 <= i < r.len() implies #[trigger] r[i].valid() by {
        if i < head.len() {
            assert(r[i] == head[i]);
        } else if i < head.len() + count {
            assert(r[i] == middle[i - head.len()]);
        } else {
            assert(r[i] == tail[i - head.len() - count]);
        }
    }
    // the path is non-empty and starts and ends at the requested points
    if head.len() == 0 && count == 0 && tail.len() == 0 {
        assert(start == first.end);
        assert(end == last.start);
        assert(false);
    }
    if head.len() == 1 {
        assert(r[0] == head[0]);
    } else if count > 0 {
        assert(r[0] == middle[0]);
    } else {
        assert(r[0] == tail[0]);
    }
    if tail.len() == 1 {
        assert(r[r.len() - 1] == tail[0]);
    } else if count > 0 {
        assert(r[r.len() - 1] == middle[count - 1]);
    } else {
        assert(r[r.len() - 1] == head[0]);
    }
}

/// The first edge touching a point on the contour is an edge of it, and the
/// position found for the point names edges of the contour.
pub proof fn lemma_edge_index_in_range(edges: Seq<Edge>, point: Point, probes: Seq<EdgePointProbe>)
    requires
        touches(edges, point, probes),
    ensures
        0 <= start_edge(edge_index_spec(edges, point, probes)) < edges.len(),
        0 <= end_edge(edge_index_spec(edges, point, probes)) < edges.len(),
{
    lemma_first_contact_exists(edges, point, probes);
}

/// A corner found for a point joins two consecutive edges, and the point is
/// the end of the first and the start of the second; a point found inside
/// an edge lies strictly between that edge's end points.
pub proof fn lemma_edge_index_meaning(edges: Seq<Edge>, point: Point, probes: Seq<EdgePointProbe>)
    requires
        is_closed_chain(edges),
        edges.len() <= usize::MAX,
        touches(edges, point, probes),
    ensures
        edge_index_spec(edges, point, probes) matches EdgeIndex::OnCorner(a, b) ==> {
            &&& b == succ(a as int, edges.len() as int)
            &&& edges[a as int].end == point
            &&& edges[b as int].start == point
        },
        edge_index_spec(edges, point, probes) matches EdgeIndex::OnEdge(i) ==> {
            &&& contact(edges, point, probes, i as int) is Inside
            &&& point != edges[i as int].start
            &&& point != edges[i as int].end
        },
{
    lemma_first_contact_exists(edges, point, probes);
    let n = edges.len() as int;
    let i = first_contact(edges, point, probes);
    assert(edges[i].end == edges[succ(i, n)].start);
    assert(edges[pred(i, n)].end == edges[succ(pred(i, n), n)].start);
    assert(succ(pred(i, n), n) == i);
    assert(0 <= succ(i, n) < n);
    assert(0 <= pred(i, n) < n);
}

/// How many whole edges after edge `i` the insertion walk takes, counting
/// from the `j`-th: it takes edges until one ends at `point` (that one
/// included), and at most the edges up to the one before `i`'s predecessor.
pub open spec fn insert_taken(edges: Seq<Edge>, i: int, point: Point, j: int) -> int
    decreases edges.len() - j,
{
    let n = edges.len() as int;
    if j >= n - 1 {
        if j >= 1 { j - 1 } else { 0 }
    } else if edges[wrap(i + j, n)].end == point {
        j
    } else {
        insert_taken(edges, i, point, j + 1)
    }
}

/// The edges of a contour after inserting `point` found on edge `i`: the
/// rest of edge `i` from `point`, the whole edges after it (up to the first
/// that ends at `point`, at most up to the one before edge `i`'s
/// predecessor), then a piece along the predecessor's curve from the
/// predecessor's start back to `point`. Zero-length pieces are left out.
pub open spec fn insert_point_spec(edges: Seq<Edge>, point: Point, i: int) -> Seq<Edge> {
    let n = edges.len() as int;
    let prev = edges[pred(i, n)];
    let head = if point != edges[i].end {
        seq![Edge { start: point, end: edges[i].end, curve: edges[i].curve }]
    } else {
        Seq::<Edge>::empty()
    };
    let middle = Seq::new(insert_taken(edges, i, point, 1) as nat, |k: int| edges[wrap(i + 1 + k, n)]);
    let tail = if point != prev.start {
        seq![Edge { start: prev.start, end: point, curve: prev.curve }]
    } else {
        Seq::<Edge>::empty()
    };
    head + middle + tail
}

/// The piece that closes the contour after an insertion runs along the
/// predecessor's curve to `point`, so the point has to lie on that curve:
/// the probe for the predecessor of edge `i` reports it, unless the piece
/// is left out because the point is the predecessor's start.
pub open spec fn insert_closing_on_curve(edges: Seq<Edge>, point: Point, probes: Seq<EdgePointProbe>, i: int) -> bool {
    let q = pred(i, edges.len() as int);
    point == edges[q].start || probes[q].on_curve
}

proof fn lemma_insert_taken_bounds(edges: Seq<Edge>, i: int, point: Point, j: int)
    requires
        j >= 1,
    ensures
        0 <= insert_taken(edges, i, point, j),
        insert_taken(edges, i, point, j) >= j - 1,
        edges.len() >= 2 ==> insert_taken(edges, i, point, j) <= if j <= edges.len() - 2 { edges.len() - 2 } else { j - 1 },
        edges.len() < 2 ==> insert_taken(edges, i, point, j) == j - 1,
    decreases edges.len() - j,
{
    let n = edges.len() as int;
    if j >= n - 1 {
    } else if edges[wrap(i + j, n)].end == point {
    } else {
        lemma_insert_taken_bounds(edges, i, point, j + 1);
    }
}

/// The edges produced by inserting a point are valid whenever the contour's
/// are.
pub proof fn lemma_insert_point_valid(edges: Seq<Edge>, point: Point, i: int)
    requires
        all_valid(edges),
        edges.len() > 0,
        0 <= i < edges.len(),
    ensures
        all_valid(insert_point_spec(edges, point, i)),
{
    let n = edges.len() as int;
    let prev = edges[pred(i, n)];
    let head = if point != edges[i].end {
        seq![Edge { start: point, end: edges[i].end, curve: edges[i].curve }]
    } else {
        Seq::<Edge>::empty()
    };
    let m = insert_taken(edges, i, point, 1);
    lemma_insert_taken_bounds(edges, i, point, 1);
    let middle = Seq::new(m as nat, |k: int| edges[wrap(i + 1 + k, n)]);
    let tail = if point != prev.start {
        seq![Edge { start: prev.start, end: point, curve: prev.curve }]
    } else {
        Seq::<Edge>::empty()
    };
    let r = insert_point_spec(edges, point, i);
    assert(r == head + middle + tail);
    assert forall|x: int| 0 <= x < r.len() implies #[trigger] r[x].valid() by {
        if x < head.len() {
            assert(r[x] == head[x]);
        } else if x < head.len() + m {
            assert(r[x] == middle[x - head.len()]);
            assert(edges[wrap(i + 1 + (x - head.len()), n)].valid());
        } else {
            assert(r[x] == tail[x - head.len() - m]);
        }
    }
}

proof fn lemma_insert_taken_no_stop(edges: Seq<Edge>, i: int, point: Point, j: int)
    requires
        1 <= j,
        forall|k: int| 0 <= k < edges.len() ==> #[trigger] edges[k].end != point,
        0 <= i < edges.len(),
    ensures
        insert_taken(edges, i, point, j) == if j <= edges.len() - 2 { edges.len() - 2 } else { j - 1 },
    decreases edges.len() - j,
{
    let n = edges.len() as int;
    if j >= n - 1 {
    } else {
        assert(0 <= wrap(i + j, n) < n);
        assert(edges[wrap(i + j, n)].end != point);
        lemma_insert_taken_no_stop(edges, i, point, j + 1);
    }
}

/// Inserting a point that is no corner of a contour into one of its edges
/// gives a closed contour again, with the point as its first corner.
pub proof fn lemma_insert_new_point_closes(edges: Seq<Edge>, point: Point, i: int)
    requires
        is_closed_chain(edges),
        all_valid(edges),
        0 <= i < edges.len(),
        forall|k: int| 0 <= k < edges.len() ==> #[trigger] edges[k].end != point,
    ensures
        is_closed_chain(insert_point_spec(edges, point, i)),
        all_valid(insert_point_spec(edges, point, i)),
        insert_point_spec(edges, point, i)[0].start == point,
{
    let n = edges.len() as int;
    let p = pred(i, n);
    let prev = edges[p];
    assert(edges[p].end == edges[succ(p, n)].start);
    assert(succ(p, n) == i);
    let pp = pred(p, n);
    assert(edges[pp].end == edges[succ(pp, n)].start);
    assert(succ(pp, n) == p);
    assert(edges[pp].end != point);
    assert(edges[i].end != point);
    lemma_insert_taken_no_stop(edges, i, point, 1);
    lemma_insert_point_valid(edges, point, i);
    let m = insert_taken(edges, i, point, 1);
    let head = seq![Edge { start: point, end: edges[i].end, curve: edges[i].curve }];
    let middle = Seq::new(m as nat, |k: int| edges[wrap(i + 1 + k, n)]);
    let tail = seq![Edge { start: prev.start, end: point, curve: prev.curve }];
    let r = insert_point_spec(edges, point, i);
    assert(r == head + middle + tail);
    assert(r.len() == m + 2);
    assert forall|x: int| 0 <= x < r.len() implies #[trigger] r[x].end == r[succ(x, r.len() as int)].start by {
        if x == 0 {
            assert(r[0] == head[0]);
            assert(edges[i].end == edges[succ(i, n)].start);
            if m > 0 {
                assert(r[1] == middle[0]);
                assert(wrap(i + 1, n) == succ(i, n));
            } else {
                assert(r[1] == tail[0]);
                assert(n <= 2);
                assert(succ(i, n) == p);
            }
        } else if x <= m {
            let k = x - 1;
            assert(r[x] == middle[k]);
            let y = wrap(i + 1 + k, n);
            assert(edges[y].end == edges[succ(y, n)].start);
            if k + 1 < m {
                assert(r[x + 1] == middle[k + 1]);
                assert(succ(y, n) == wrap(i + 1 + k + 1, n));
            } else {
                assert(r[x + 1] == tail[0]);
                assert(succ(y, n) == p);
            }
        } else {
            assert(r[x] == tail[0]);
            assert(succ(x, r.len() as int) == 0);
            assert(r[0] == head[0]);
        }
    }
}

/// A closed contour made of edges that meet at their end points.
#[derive(Debug)]
pub struct ContourMultiPoint {
    pub edges: Vec<Edge>,
}

impl ContourMultiPoint {
    /// The edges form a closed chain of non-zero-length edges.
    pub open spec fn wf(&self) -> bool {
        &&& is_closed_chain(self.edges@)
        &&& all_valid(self.edges@)
    }

    /// Creates a contour from edges that form a closed chain.
    pub fn new(edges: Vec<Edge>) -> (c: ContourMultiPoint)
        requires
            is_closed_chain(edges@),
            all_valid(edges@),
        ensures
            c.edges@ == edges@,
            c.wf(),
    {
        ContourMultiPoint { edges }
    }

    /// The start points of the edges, in order: the corners of the contour.
    pub fn all_points(&self) -> (points: Vec<Point>)
        ensures
            points@ == self.edges@.map_values(|e: Edge| e.start),
    {
        let mut points: Vec<Point> = Vec::new();
        let n = self.edges.len();
        for i in 0..n
            invariant
                n == self.edges.len(),
                points@ == self.edges@.subrange(0, i as int).map_values(|e: Edge| e.start),
        {
            points.push(self.edges[i].start);
            assert(self.edges@.subrange(0, i + 1) == self.edges@.subrange(0, i as int).push(self.edges@[i as int]));
        }
        assert(self.edges@.subrange(0, n as int) == self.edges@);
        points
    }

    /// The same contour run the other way: reversed order, each edge flipped.
    pub fn flip(&self) -> (c: ContourMultiPoint)
        requires
            self.wf(),
        ensures
            c.edges@ == flip_edges(self.edges@),
            c.wf(),
    {
        let n = self.edges.len();
        let mut edges: Vec<Edge> = Vec::new();
        let mut k: usize = 0;
        while k < n
            invariant
                n == self.edges.len(),
                self.wf(),
                k <= n,
                edges@ == flip_edges(self.edges@).subrange(0, k as int),
            decreases n - k,
        {
            let e = self.edges[n - 1 - k];
            assert(self.edges@[n - 1 - k].valid());
            edges.push(e.flip());
            k = k + 1;
        }
        assert(edges@ == flip_edges(self.edges@));
        proof {
            lemma_flip_keeps_closed_chain(self.edges@);
        }
        ContourMultiPoint::new(edges)
    }

    /// Finds where `point` lies on the contour from the first edge that
    /// touches it, or `None` when no edge touches it; `probes[i]` is what the
    /// geometry layer reports about the point and edge `i`.
    pub fn get_edge_index(&self, point: &Point, probes: &Vec<EdgePointProbe>) -> (r: Option<EdgeIndex>)
        requires
            self.wf(),
            probes.len() == self.edges.len(),
        ensures
            r == if touches(self.edges@, *point, probes@) {
                Some(edge_index_spec(self.edges@, *point, probes@))
            } else {
                None
            },
    {
        let n = self.edges.len();
        for i in 0..n
            invariant
                n == self.edges.len(),
                probes.len() == n,
                forall|j: int| 0 <= j < i ==> #[trigger] contact(self.edges@, *point, probes@, j) is Outside,
        {
            let c = edge_point_contains(&self.edges[i], point, probes[i]);
            assert(c == contact(self.edges@, *point, probes@, i as int));
            match c {
                EdgePointContains::Inside => {
                    proof {
                        lemma_first_contact_unique(self.edges@, *point, probes@, i as int);
                    }
                    return Some(EdgeIndex::OnEdge(i));
                },
                EdgePointContains::OnPoint(p) => {
                    proof {
                        lemma_first_contact_unique(self.edges@, *point, probes@, i as int);
                    }
                    if p == self.edges[i].end {
                        let next = if i + 1 < n { i + 1 } else { 0 };
                        return Some(EdgeIndex::OnCorner(i, next));
                    } else {
                        let prev = if i > 0 { i - 1 } else { n - 1 };
                        return Some(EdgeIndex::OnCorner(prev, i));
                    }
                },
                EdgePointContains::Outside => {},
            }
        }
        proof {
            if touches(self.edges@, *point, probes@) {
                let w = choose|i: int| 0 <= i < self.edges@.len() && !(#[trigger] contact(self.edges@, *point, probes@, i) is Outside);
                assert(contact(self.edges@, *point, probes@, w) is Outside);
            }
        }
        None
    }

    /// Where `point`, which lies on the contour, lies on it.
    fn edge_index_of(&self, point: &Point, probes: &Vec<EdgePointProbe>) -> (r: EdgeIndex)
        requires
            self.wf(),
            probes.len() == self.edges.len(),
            touches(self.edges@, *point, probes@),
        ensures
            r == edge_index_spec(self.edges@, *point, probes@),
    {
        match self.get_edge_index(point, probes) {
            Some(index) => index,
            None => EdgeIndex::OnEdge(0),
        }
    }

    /// Gets the part of the contour from `start` to `end`, walking forward.
    /// `start_probes` and `end_probes` are what the geometry layer reports
    /// about each point and each edge; `forward` tells whether `start` comes
    /// before `end` on the edge that holds both, and is only consulted when
    /// there is such an edge. The result never holds a zero-length edge.
    pub fn get_subcurve(
        &self,
        start: &Point,
        end: &Point,
        start_probes: &Vec<EdgePointProbe>,
        end_probes: &Vec<EdgePointProbe>,
        forward: bool,
    ) -> (r: Vec<Edge>)
        requires
            self.wf(),
            *start != *end,
            start_probes.len() == self.edges.len(),
            end_probes.len() == self.edges.len(),
            touches(self.edges@, *start, start_probes@),
            touches(self.edges@, *end, end_probes@),
        ensures
            r@ == subcurve_spec(
                self.edges@,
                *start,
                *end,
                start_edge(edge_index_spec(self.edges@, *start, start_probes@)),
                end_edge(edge_index_spec(self.edges@, *end, end_probes@)),
                forward,
            ),
            is_path(r@, *start, *end),
            start_edge(edge_index_spec(self.edges@, *start, start_probes@)) != end_edge(edge_index_spec(self.edges@, *end, end_probes@))
                ==> forall|k: int| 0 <= k < between_count(
                    start_edge(edge_index_spec(self.edges@, *start, start_probes@)),
                    end_edge(edge_index_spec(self.edges@, *end, end_probes@)),
                    self.edges@.len() as int,
                ) ==> r@.contains(#[trigger] self.edges@[wrap(
                    start_edge(edge_index_spec(self.edges@, *start, start_probes@)) + 1 + k,
                    self.edges@.len() as int,
                )]),
            start_edge(edge_index_spec(self.edges@, *start, start_probes@)) != end_edge(edge_index_spec(self.edges@, *end, end_probes@))
                && *start != self.edges@[start_edge(edge_index_spec(self.edges@, *start, start_probes@))].end
                ==> r@[0] == (Edge {
                    start: *start,
                    end: self.edges@[start_edge(edge_index_spec(self.edges@, *start, start_probes@))].end,
                    curve: self.edges@[start_edge(edge_index_spec(self.edges@, *start, start_probes@))].curve,
                }),
    {
        let si = match self.edge_index_of(start, start_probes) {
            EdgeIndex::OnEdge(i) => i,
            EdgeIndex::OnCorner(_i1, i2) => i2,
        };
        let ei = match self.edge_index_of(end, end_probes) {
            EdgeIndex::OnEdge(i) => i,
            EdgeIndex::OnCorner(i1, _i2) => i1,
        };
        proof {
            lemma_edge_index_in_range(self.edges@, *start, start_probes@);
            lemma_edge_index_in_range(self.edges@, *end, end_probes@);
            lemma_subcurve_is_path(self.edges@, *start, *end, si as int, ei as int, forward);
            if si != ei {
                lemma_subcurve_between_edges(self.edges@, *start, *end, si as int, ei as int, forward);
            }
        }
        self.subcurve_between(start, end, si, ei, forward)
    }

    /// The part of the contour from `start` on edge `si` to `end` on edge
    /// `ei`, walking forward.
    fn subcurve_between(&self, start: &Point, end: &Point, si: usize, ei: usize, forward: bool) -> (r: Vec<Edge>)
        requires
            self.wf(),
            *start != *end,
            si < self.edges.len(),
            ei < self.edges.len(),
        ensures
            r@ == subcurve_spec(self.edges@, *start, *end, si as int, ei as int, forward),
    {
        let n = self.edges.len();
        let mut result: Vec<Edge> = Vec::new();
        if si == ei && forward {
            result.push(Edge::new(*start, *end, self.edges[si].curve));
            return result;
        }
        let first = self.edges[si];
        if *start != first.end {
            result.push(Edge::new(*start, first.end, first.curve));
        }
        let count = if ei > si { ei - si - 1 } else { n - si - 1 + ei };
        let ghost head = result@;
        let ghost edges = self.edges@;
        let mut idx = si;
        let mut k: usize = 0;
        while k < count
            invariant
                n == self.edges.len(),
                edges == self.edges@,
                si < n,
                ei < n,
                count == between_count(si as int, ei as int, n as int),
                k <= count,
                idx < n,
                idx as int == wrap(si + k, n as int),
                result@ == head + Seq::new(k as nat, |j: int| edges[wrap(si + 1 + j, n as int)]),
            decreases count - k,
        {
            idx = if idx + 1 < n { idx + 1 } else { 0 };
            result.push(self.edges[idx]);
            k = k + 1;
            assert(result@ =~= head + Seq::new(k as nat, |j: int| edges[wrap(si + 1 + j, n as int)]));
        }
        let last = self.edges[ei];
        if last.start != *end {
            result.push(Edge::new(last.start, *end, last.curve));
        }
        assert(result@ =~= subcurve_spec(self.edges@, *start, *end, si as int, ei as int, forward));
        result
    }

    /// Inserts `point` as a new corner of the contour; `probes` is what the
    /// geometry layer reports about the point and each edge. The point has
    /// to lie on the contour, on the curve of the piece that closes the
    /// result, and the edges this produces have to close up into a contour.
    pub fn insert_point(&self, point: &Point, probes: &Vec<EdgePointProbe>) -> (c: ContourMultiPoint)
        requires
            self.wf(),
            probes.len() == self.edges.len(),
            touches(self.edges@, *point, probes@),
            insert_closing_on_curve(self.edges@, *point, probes@, end_edge(edge_index_spec(self.edges@, *point, probes@))),
            is_closed_chain(insert_point_spec(self.edges@, *point, end_edge(edge_index_spec(self.edges@, *point, probes@)))),
        ensures
            c.edges@ == insert_point_spec(self.edges@, *point, end_edge(edge_index_spec(self.edges@, *point, probes@))),
            c.wf(),
    {
        let i = match self.edge_index_of(point, probes) {
            EdgeIndex::OnEdge(i) => i,
            EdgeIndex::OnCorner(i, _) => i,
        };
        proof {
            lemma_edge_index_in_range(self.edges@, *point, probes@);
            lemma_insert_point_valid(self.edges@, *point, i as int);
        }
        let edges = self.insert_point_edges(point, i);
        ContourMultiPoint::new(edges)
    }

    /// The edges of the contour after inserting `point` found on edge `i`.
    fn insert_point_edges(&self, point: &Point, i: usize) -> (r: Vec<Edge>)
        requires
            self.wf(),
            i < self.edges.len(),
        ensures
            r@ == insert_point_spec(self.edges@, *point, i as int),
    {
        let n = self.edges.len();
        let ghost edges = self.edges@;
        let mut result: Vec<Edge> = Vec::new();
        let edge_i = self.edges[i];
        if *point != edge_i.end {
            result.push(Edge::new(*point, edge_i.end, edge_i.curve));
        }
        let ghost head = result@;
        let mut j: usize = 1;
        let mut stopped = false;
        while j < n - 1 && !stopped
            invariant
                n == self.edges.len(),
                edges == self.edges@,
                i < n,
                n > 0,
                1 <= j,
                j <= n || n < 2,
                result@ == head + Seq::new((j - 1) as nat, |k: int| edges[wrap(i + 1 + k, n as int)]),
                stopped ==> insert_taken(edges, i as int, *point, 1) == j - 1,
                !stopped ==> insert_taken(edges, i as int, *point, 1) == insert_taken(edges, i as int, *point, j as int),
            decreases n - j,
        {
            let idx = if j < n - i { i + j } else { j - (n - i) };
            assert(idx as int == wrap(i + j, n as int));
            let e = self.edges[idx];
            result.push(e);
            if e.end == *point {
                stopped = true;
            }
            j = j + 1;
            assert(result@ =~= head + Seq::new((j - 1) as nat, |k: int| edges[wrap(i + 1 + k, n as int)]));
        }
        let prev_i = if i > 0 { i - 1 } else { n - 1 };
        let prev = self.edges[prev_i];
        if *point != prev.start {
            result.push(Edge::new(prev.start, *point, prev.curve));
        }
        assert(result@ =~= insert_point_spec(self.edges@, *point, i as int));
        result
    }
}

/// Running a closed chain of valid edges backwards gives a closed chain of
/// valid edges.
pub proof fn lemma_flip_keeps_closed_chain(edges: Seq<Edge>)
    requires
        is_closed_chain(edges),
        all_valid(edges),
    ensures
        is_closed_chain(flip_edges(edges)),
        all_valid(flip_edges(edges)),
{
    let f = flip_edges(edges);
    let n = edges.len() as int;
    assert forall|k: int| 0 <= k < n implies #[trigger] f[k].end == f[succ(k, n)].start by {
        if k < n - 1 {
            assert(edges[n - 2 - k].end == edges[succ(n - 2 - k, n)].start);
        } else {
            assert(edges[n - 1].end == edges[succ(n - 1, n)].start);
        }
    }
    assert forall|k: int| 0 <= k < n implies #[trigger] f[k].valid() by {
        assert(edges[n - 1 - k].valid());
    }
}

/// Running a contour backwards twice gives the contour back.
pub proof fn lemma_flip_edges_involution(edges: Seq<Edge>)
    ensures
        flip_edges(flip_edges(edges)) == edges,
{
    assert(flip_edges(flip_edges(edges)) =~= edges);
}

/// Running a closed contour backwards keeps its set of corner points.
pub proof fn lemma_flip_keeps_points(edges: Seq<Edge>)
    requires
        is_closed_chain(edges),
    ensures
        flip_edges(edges).map_values(|e: Edge| e.start).to_set()
            == edges.map_values(|e: Edge| e.start).to_set(),
{
    let f = flip_edges(edges);
    let n = edges.len() as int;
    let a = f.map_values(|e: Edge| e.start);
    let b = edges.map_values(|e: Edge| e.start);
    assert forall|p: Point| a.to_set().contains(p) implies b.to_set().contains(p) by {
        let k = choose|k: int| 0 <= k < a.len() && a[k] == p;
        assert(edges[n - 1 - k].end == edges[succ(n - 1 - k, n)].start);
        let j = succ(n - 1 - k, n);
        assert(b[j] == p);
    }
    assert forall|p: Point| b.to_set().contains(p) implies a.to_set().contains(p) by {
        let j = choose|j: int| 0 <= j < b.len() && b[j] == p;
        let i = pred(j, n);
        assert(edges[i].end == edges[succ(i, n)].start);
        let k = n - 1 - i;
        assert(a[k] == p);
    }
    assert(a.to_set() =~= b.to_set());
}

} // verus!

verus! {

impl Clone for Contour {
    fn clone(&self) -> (c: Self)
        ensures
            c.shape() == self.shape(),
    {
        match self {
            Contour::ContourMultiPoint(m) => Contour::ContourMultiPoint(m.clone()),
            Contour::ContourSinglePoint(s) => Contour::ContourSinglePoint(*s),
            Contour::ContourNoPoint(s) => Contour::ContourNoPoint(*s),
        }
    }
}

impl Clone for ContourMultiPoint {
    fn clone(&self) -> (c: Self)
        ensures
            c.edges@ == self.edges@,
    {
        let edges = self.edges.clone();
        assert(edges@ =~= self.edges@);
        ContourMultiPoint { edges }
    }
}

/// A closed curve with no corner on it, such as a full circle.
#[derive(Clone, Copy, Debug)]
pub struct ContourNoPoint {
    pub curve: Curve,
}

impl ContourNoPoint {
    /// The closed contour formed by the whole of `curve`.
    pub fn new(curve: Curve) -> (c: ContourNoPoint)
        ensures
            c.curve == curve,
    {
        ContourNoPoint { curve }
    }

    /// A contour without corners has no points to list.
    pub fn all_points(&self) -> (points: Vec<Point>)
        ensures
            points@ == Seq::<Point>::empty(),
    {
        Vec::new()
    }

    /// The same contour run the other way.
    pub fn flip(&self) -> (c: ContourNoPoint)
        ensures
            c.curve == self.curve.spec_neg(),
    {
        ContourNoPoint::new(self.curve.neg())
    }

    /// The part of the curve from `start` to `end`. Both points have to lie
    /// on the curve, which the geometry layer checks.
    pub fn get_subcurve(&self, start: &Point, end: &Point) -> (e: Edge)
        requires
            *start != *end,
        ensures
            e == (Edge { start: *start, end: *end, curve: self.curve }),
    {
        Edge::new(*start, *end, self.curve)
    }

    /// Marks `point` (on the curve) as a corner, giving a contour with a
    /// single corner.
    pub fn insert_point(&self, point: &Point) -> (c: ContourSinglePoint)
        ensures
            c.curve == self.curve,
            c.point == *point,
    {
        ContourSinglePoint::new(self.curve, *point)
    }
}

/// A closed curve with exactly one corner on it.
#[derive(Clone, Copy, Debug)]
pub struct ContourSinglePoint {
    pub curve: Curve,
    pub point: Point,
}

impl ContourSinglePoint {
    /// The closed contour formed by the whole of `curve`, with a corner at
    /// `point`.
    pub fn new(curve: Curve, point: Point) -> (c: ContourSinglePoint)
        ensures
            c.curve == curve,
            c.point == point,
    {
        ContourSinglePoint { curve, point }
    }

    /// A contour with a single corner reports no points.
    pub fn all_points(&self) -> (points: Vec<Point>)
        ensures
            points@ == Seq::<Point>::empty(),
    {
        Vec::new()
    }

    /// The same contour run the other way, with the same corner.
    pub fn flip(&self) -> (c: ContourSinglePoint)
        ensures
            c.curve == self.curve.spec_neg(),
            c.point == self.point,
    {
        ContourSinglePoint::new(self.curve.neg(), self.point)
    }

    /// The part of the curve from `start` to `end`, as a single edge.
    pub fn get_subcurve(&self, start: &Point, end: &Point) -> (r: Vec<Edge>)
        requires
            *start != *end,
        ensures
            r@ == seq![Edge { start: *start, end: *end, curve: self.curve }],
    {
        let mut r: Vec<Edge> = Vec::new();
        r.push(Edge::new(*start, *end, self.curve));
        r
    }

    /// Adds a second corner at `point`: the contour becomes two edges along
    /// the curve, from the old corner to the new one and back.
    pub fn insert_point(&self, point: &Point) -> (c: ContourMultiPoint)
        requires
            *point != self.point,
        ensures
            c.edges@ == seq![
                Edge { start: self.point, end: *point, curve: self.curve },
                Edge { start: *point, end: self.point, curve: self.curve },
            ],
            c.wf(),
    {
        let mut edges: Vec<Edge> = Vec::new();
        edges.push(Edge::new(self.point, *point, self.curve));
        edges.push(Edge::new(*point, self.point, self.curve));
        assert(edges@[0].end == edges@[succ(0, 2)].start);
        assert(edges@[1].end == edges@[succ(1, 2)].start);
        ContourMultiPoint::new(edges)
    }
}

/// A closed boundary curve of a face: a chain of edges, a closed curve with
/// one corner, or a closed curve with no corner.
#[derive(Debug)]
pub enum Contour {
    ContourMultiPoint(ContourMultiPoint),
    ContourSinglePoint(ContourSinglePoint),
    ContourNoPoint(ContourNoPoint),
}

/// The content of a contour as a value: its edges, or its curve and corner.
pub enum ContourShape {
    Edges(Seq<Edge>),
    SinglePoint(Curve, Point),
    NoPoint(Curve),
}

/// The shape of a contour run the other way.
pub open spec fn flip_shape(s: ContourShape) -> ContourShape {
    match s {
        ContourShape::Edges(e) => ContourShape::Edges(flip_edges(e)),
        ContourShape::SinglePoint(c, p) => ContourShape::SinglePoint(c.spec_neg(), p),
        ContourShape::NoPoint(c) => ContourShape::NoPoint(c.spec_neg()),
    }
}

/// Running a contour backwards twice gives it back.
pub proof fn lemma_flip_shape_involution(s: ContourShape)
    ensures
        flip_shape(flip_shape(s)) == s,
{
    if let ContourShape::Edges(e) = s {
        lemma_flip_edges_involution(e);
    }
}

impl Contour {
    /// The content of the contour as a value.
    pub open spec fn shape(&self) -> ContourShape {
        match self {
            Contour::ContourMultiPoint(c) => ContourShape::Edges(c.edges@),
            Contour::ContourSinglePoint(c) => ContourShape::SinglePoint(c.curve, c.point),
            Contour::ContourNoPoint(c) => ContourShape::NoPoint(c.curve),
        }
    }

    /// A contour made of edges has its edges closing up.
    pub open spec fn wf(&self) -> bool {
        match self {
            Contour::ContourMultiPoint(c) => c.wf(),
            _ => true,
        }
    }

    /// The edges of the contour, for a contour made of edges; none otherwise.
    pub open spec fn edge_seq(&self) -> Seq<Edge> {
        match self {
            Contour::ContourMultiPoint(c) => c.edges@,
            _ => Seq::empty(),
        }
    }

    /// The corner points that `all_points` reports.
    pub open spec fn point_seq(&self) -> Seq<Point> {
        self.edge_seq().map_values(|e: Edge| e.start)
    }

    /// The contour formed by a closed chain of edges.
    pub fn from_edges(edges: Vec<Edge>) -> (c: Contour)
        requires
            is_closed_chain(edges@),
            all_valid(edges@),
        ensures
            c is ContourMultiPoint,
            c.edge_seq() == edges@,
            c.wf(),
    {
        Contour::ContourMultiPoint(ContourMultiPoint::new(edges))
    }

    /// The contour formed by a whole closed curve.
    pub fn from_curve(curve: ContourNoPoint) -> (c: Contour)
        ensures
            c == Contour::ContourNoPoint(curve),
    {
        Contour::ContourNoPoint(curve)
    }

    /// The corner points of a contour made of edges (the start of each
    /// edge); contours with one or no corner report none.
    pub fn all_points(&self) -> (points: Vec<Point>)
        ensures
            points@ == self.point_seq(),
    {
        match self {
            Contour::ContourMultiPoint(c) => c.all_points(),
            Contour::ContourSinglePoint(c) => c.all_points(),
            Contour::ContourNoPoint(c) => c.all_points(),
        }
    }

    /// What locating `start` and `end` on the contour needs: for a contour
    /// made of edges, one probe per edge for each point and both points on
    /// the contour.
    pub open spec fn can_cut(&self, start: Point, end: Point, start_probes: Seq<EdgePointProbe>, end_probes: Seq<EdgePointProbe>) -> bool {
        match self {
            Contour::ContourMultiPoint(c) => {
                &&& c.wf()
                &&& start_probes.len() == c.edges@.len()
                &&& end_probes.len() == c.edges@.len()
                &&& touches(c.edges@, start, start_probes)
                &&& touches(c.edges@, end, end_probes)
            },
            _ => true,
        }
    }

    /// Gets the part of the contour from `start` to `end`. For a contour
    /// made of edges the points are located with the probes, and `forward`
    /// tells whether `start` comes before `end` on an edge holding both; a
    /// contour with one or no corner gives the single piece of its curve.
    /// The result never holds a zero-length edge.
    pub fn get_subcurve(
        &self,
        start: &Point,
        end: &Point,
        start_probes: &Vec<EdgePointProbe>,
        end_probes: &Vec<EdgePointProbe>,
        forward: bool,
    ) -> (r: Vec<Edge>)
        requires
            *start != *end,
            self.can_cut(*start, *end, start_probes@, end_probes@),
        ensures
            is_path(r@, *start, *end),
            self matches Contour::ContourMultiPoint(c) ==> r@ == subcurve_spec(
                c.edges@,
                *start,
                *end,
                start_edge(edge_index_spec(c.edges@, *start, start_probes@)),
                end_edge(edge_index_spec(c.edges@, *end, end_probes@)),
                forward,
            ),
            self matches Contour::ContourSinglePoint(c) ==> r@ == seq![Edge { start: *start, end: *end, curve: c.curve }],
            self matches Contour::ContourNoPoint(c) ==> r@ == seq![Edge { start: *start, end: *end, curve: c.curve }],
    {
        match self {
            Contour::ContourMultiPoint(c) => c.get_subcurve(start, end, start_probes, end_probes, forward),
            Contour::ContourSinglePoint(c) => c.get_subcurve(start, end),
            Contour::ContourNoPoint(c) => {
                let mut r: Vec<Edge> = Vec::new();
                r.push(c.get_subcurve(start, end));
                r
            },
        }
    }

    /// What inserting `point` needs: for a contour made of edges, one probe
    /// per edge, the point on the contour and on the curve of the closing
    /// piece, and the resulting edges closing up; for a contour with one corner, a point other than that corner.
    pub open spec fn can_insert(&self, point: Point, probes: Seq<EdgePointProbe>) -> bool {
        match self {
            Contour::ContourMultiPoint(c) => {
                &&& c.wf()
                &&& probes.len() == c.edges@.len()
                &&& touches(c.edges@, point, probes)
                &&& insert_closing_on_curve(c.edges@, point, probes, end_edge(edge_index_spec(c.edges@, point, probes)))
                &&& is_closed_chain(insert_point_spec(c.edges@, point, end_edge(edge_index_spec(c.edges@, point, probes))))
            },
            Contour::ContourSinglePoint(c) => point != c.point,
            Contour::ContourNoPoint(_) => true,
        }
    }

    /// Inserts `point` as a new corner: a contour made of edges gets the
    /// point between its edges, a contour with one corner becomes two edges,
    /// a contour without corners gets its first corner.
    pub fn insert_point(&self, point: &Point, probes: &Vec<EdgePointProbe>) -> (c: Contour)
        requires
            self.can_insert(*point, probes@),
        ensures
            c.wf(),
            self matches Contour::ContourMultiPoint(m) ==> c.edge_seq() == insert_point_spec(
                m.edges@,
                *point,
                end_edge(edge_index_spec(m.edges@, *point, probes@)),
            ) && c is ContourMultiPoint,
            self matches Contour::ContourSinglePoint(s) ==> c.edge_seq() == seq![
                Edge { start: s.point, end: *point, curve: s.curve },
                Edge { start: *point, end: s.point, curve: s.curve },
            ] && c is ContourMultiPoint,
            self matches Contour::ContourNoPoint(s) ==> c == Contour::ContourSinglePoint(
                ContourSinglePoint { curve: s.curve, point: *point },
            ),
    {
        match self {
            Contour::ContourMultiPoint(c) => Contour::ContourMultiPoint(c.insert_point(point, probes)),
            Contour::ContourSinglePoint(c) => Contour::ContourMultiPoint(c.insert_point(point)),
            Contour::ContourNoPoint(c) => Contour::ContourSinglePoint(c.insert_point(point)),
        }
    }

    /// The same contour run the other way.
    pub fn flip(&self) -> (c: Contour)
        requires
            self.wf(),
        ensures
            c.wf(),
            c.shape() == flip_shape(self.shape()),
            c.edge_seq() == flip_edges(self.edge_seq()),
            self is ContourMultiPoint <==> c is ContourMultiPoint,
            self matches Contour::ContourSinglePoint(s) ==> c == Contour::ContourSinglePoint(
                ContourSinglePoint { curve: s.curve.spec_neg(), point: s.point },
            ),
            self matches Contour::ContourNoPoint(s) ==> c == Contour::ContourNoPoint(
                ContourNoPoint { curve: s.curve.spec_neg() },
            ),
    {
        match self {
            Contour::ContourMultiPoint(c) => Contour::ContourMultiPoint(c.flip()),
            Contour::ContourSinglePoint(c) => Contour::ContourSinglePoint(c.flip()),
            Contour::ContourNoPoint(c) => {
                assert(flip_edges(Seq::<Edge>::empty()) =~= Seq::<Edge>::empty());
                Contour::ContourNoPoint(c.flip())
            },
        }
    }
}

} // verus!

verus! {

/// A closed loop of edges which does not cross itself; the direction of its
/// edges decides its inside.
#[derive(Debug)]
pub struct EdgeLoop {
    pub edges: Vec<Edge>,
}

impl EdgeLoop {
    /// The edges form a closed chain of non-zero-length edges.
    pub open spec fn wf(&self) -> bool {
        &&& is_closed_chain(self.edges@)
        &&& all_valid(self.edges@)
    }

    /// Creates the loop of `edges`, which have to form a closed chain.
    pub fn new(edges: Vec<Edge>) -> (l: EdgeLoop)
        requires
            is_closed_chain(edges@),
            all_valid(edges@),
        ensures
            l.edges@ == edges@,
            l.wf(),
    {
        EdgeLoop { edges }
    }

    /// Whether `point` lies on the loop: some edge touches it. `probes[i]`
    /// is what the geometry layer reports about the point and edge `i`.
    pub fn contains(&self, point: &Point, probes: &Vec<EdgePointProbe>) -> (r: bool)
        requires
            probes.len() == self.edges.len(),
        ensures
            r == touches(self.edges@, *point, probes@),
    {
        let n = self.edges.len();
        for i in 0..n
            invariant
                n == self.edges.len(),
                probes.len() == n,
                forall|j: int| 0 <= j < i ==> #[trigger] contact(self.edges@, *point, probes@, j) is Outside,
        {
            let c = edge_point_contains(&self.edges[i], point, probes[i]);
            assert(c == contact(self.edges@, *point, probes@, i as int));
            if !matches!(c, EdgePointContains::Outside) {
                return true;
            }
        }
        false
    }
}

} // verus!
