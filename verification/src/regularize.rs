use vstd::prelude::*;

use crate::contour::all_valid;
use crate::curve::Curve;
use crate::edge::Edge;
use crate::point::Point;

verus! {

/// A boolean matrix recording, for each pair of boundaries of a face,
/// whether the first contains the second.
pub struct ContainmentMatrix {
    rows: usize,
    cols: usize,
    data: Vec<bool>,
}

impl ContainmentMatrix {
    /// The number of rows.
    pub closed spec fn row_count(&self) -> nat {
        self.rows as nat
    }

    /// The number of columns.
    pub closed spec fn col_count(&self) -> nat {
        self.cols as nat
    }

    /// The entry in row `i`, column `j`.
    pub closed spec fn entry(&self, i: int, j: int) -> bool {
        self.data@[i * self.cols + j]
    }

    /// The entries are stored row after row.
    pub closed spec fn wf(&self) -> bool {
        self.data@.len() == self.rows * self.cols
    }

    /// A `rows` by `cols` matrix with every entry false.
    pub fn new(rows: usize, cols: usize) -> (m: Self)
        requires
            rows * cols <= usize::MAX,
        ensures
            m.wf(),
            m.row_count() == rows,
            m.col_count() == cols,
            forall|i: int, j: int| 0 <= i < rows && 0 <= j < cols ==> !#[trigger] m.entry(i, j),
    {
        let data = vec![false; rows * cols];
        let m = ContainmentMatrix { rows, cols, data };
        assert forall|i: int, j: int| 0 <= i < rows && 0 <= j < cols implies !#[trigger] m.entry(i, j) by {
            lemma_row_major_in_range(i, j, rows as int, cols as int);
        }
        m
    }

    /// The entry stored at row-major position `k`.
    pub closed spec fn stored(&self, k: int) -> bool {
        self.data@[k]
    }

    /// Row `i`, column `j` is stored at row-major position `i * cols + j`.
    pub proof fn lemma_entry_is_stored(&self, i: int, j: int)
        ensures
            self.entry(i, j) == self.stored(i * self.col_count() + j),
    {
    }

    /// The entry at row-major position `index.0 * cols + index.1`: for a
    /// column inside the matrix, the entry in row `index.0`, column
    /// `index.1`. The position has to lie inside the matrix.
    pub fn index(&self, index: (usize, usize)) -> (r: &bool)
        requires
            self.wf(),
            index.0 * self.col_count() + index.1 < self.row_count() * self.col_count(),
        ensures
            *r == self.stored(index.0 * self.col_count() + index.1),
            index.1 < self.col_count() ==> *r == self.entry(index.0 as int, index.1 as int),
    {
        proof {
            assert(0 <= index.0 * self.cols) by (nonlinear_arith)
                requires
                    0 <= index.0,
                    0 <= self.cols,
            ;
            assert(self.data.len() == self.rows * self.cols);
        }
        let k = index.0 * self.cols + index.1;
        &self.data[k]
    }
}

/// Row-major positions of a `rows` by `cols` matrix lie inside its storage.
proof fn lemma_row_major_in_range(i: int, j: int, rows: int, cols: int)
    requires
        0 <= i < rows,
        0 <= j < cols,
    ensures
        0 <= i * cols + j < rows * cols,
{
    assert(i * cols + j < rows * cols) by (nonlinear_arith)
        requires
            0 <= i < rows,
            0 <= j < cols,
    ;
    assert(0 <= i * cols) by (nonlinear_arith)
        requires
            0 <= i,
            0 <= cols,
    ;
}

/// An edge made of several intervals of one curve, each given by its start
/// and end point; an interval whose ends coincide is degenerate.
#[derive(Clone, Debug)]
pub struct IntervalEdge {
    pub boundaries: Vec<(Point, Point)>,
    pub curve: Curve,
}

/// The non-degenerate intervals as single edges along `curve`, in order.
pub open spec fn regular_pieces(intervals: Seq<(Point, Point)>, curve: Curve) -> Seq<Edge>
    decreases intervals.len(),
{
    if intervals.len() == 0 {
        Seq::empty()
    } else {
        let rest = regular_pieces(intervals.drop_last(), curve);
        let last = intervals.last();
        if last.0 == last.1 {
            rest
        } else {
            rest.push(Edge { start: last.0, end: last.1, curve: curve })
        }
    }
}

/// Regular pieces never have zero length.
pub proof fn lemma_regular_pieces_valid(intervals: Seq<(Point, Point)>, curve: Curve)
    ensures
        all_valid(regular_pieces(intervals, curve)),
    decreases intervals.len(),
{
    if intervals.len() > 0 {
        lemma_regular_pieces_valid(intervals.drop_last(), curve);
    }
}

/// Splits an edge into one edge per interval, leaving out degenerate
/// intervals.
pub fn edge_regularize(edge: &IntervalEdge) -> (r: Vec<Edge>)
    ensures
        r@ == regular_pieces(edge.boundaries@, edge.curve),
        all_valid(r@),
{
    let n = edge.boundaries.len();
    let mut r: Vec<Edge> = Vec::new();
    for i in 0..n
        invariant
            n == edge.boundaries.len(),
            r@ == regular_pieces(edge.boundaries@.subrange(0, i as int), edge.curve),
    {
        proof {
            assert(edge.boundaries@.subrange(0, i + 1).drop_last() =~= edge.boundaries@.subrange(0, i as int));
        }
        let (s, e) = edge.boundaries[i];
        if s != e {
            r.push(Edge::new(s, e, edge.curve));
        }
    }
    proof {
        assert(edge.boundaries@.subrange(0, n as int) =~= edge.boundaries@);
        lemma_regular_pieces_valid(edge.boundaries@, edge.curve);
    }
    r
}

/// The regular pieces of every edge, edge after edge.
pub fn edge_regularize_all(edges: Vec<IntervalEdge>) -> (r: Vec<Edge>)
    ensures
        r@ == edges@.map_values(|e: IntervalEdge| regular_pieces(e.boundaries@, e.curve)).flatten(),
{
    let n = edges.len();
    let mut r: Vec<Edge> = Vec::new();
    for i in 0..n
        invariant
            n == edges.len(),
            r@ == edges@.subrange(0, i as int).map_values(|e: IntervalEdge| regular_pieces(e.boundaries@, e.curve)).flatten(),
    {
        let pieces = edge_regularize(&edges[i]);
        let ghost before = r@;
        let k = pieces.len();
        for t in 0..k
            invariant
                k == pieces.len(),
                r@ == before + pieces@.subrange(0, t as int),
        {
            r.push(pieces[t]);
            assert(r@ =~= before + pieces@.subrange(0, t + 1));
        }
        proof {
            assert(pieces@.subrange(0, k as int) =~= pieces@);
            let m = edges@.subrange(0, i as int).map_values(|e: IntervalEdge| regular_pieces(e.boundaries@, e.curve));
            let x = edges@[i as int];
            assert(edges@.subrange(0, i + 1).map_values(|e: IntervalEdge| regular_pieces(e.boundaries@, e.curve))
                =~= m.push(regular_pieces(x.boundaries@, x.curve)));
            m.lemma_flatten_push(regular_pieces(x.boundaries@, x.curve));
        }
    }
    assert(edges@.subrange(0, n as int) =~= edges@);
    r
}

/// An edge is regular when it has exactly one interval.
pub fn edge_is_regular(edge: &IntervalEdge) -> (r: bool)
    ensures
        r == (edge.boundaries@.len() == 1),
{
    edge.boundaries.len() == 1
}

} // verus!
