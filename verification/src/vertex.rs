use vstd::prelude::*;

use crate::point::Point;

verus! {

/// A corner of the topology, at a point. Two vertices are equal when their
/// points are.
#[derive(Clone, Copy, Debug, PartialEq, Eq, Structural)]
pub struct Vertex {
    pub point: Point,
}

impl Vertex {
    /// The vertex at `point`.
    pub fn new(point: Point) -> (v: Vertex)
        ensures
            v.point == point,
    {
        Vertex { point }
    }
}

} // verus!
