use vstd::prelude::*;

verus! {

/// A vertex position. The topology compares positions only for equality,
/// so a position is carried by the identity the geometry layer gave it.
#[derive(Clone, Copy, Debug, PartialEq, Eq, Structural)]
pub struct Point {
    pub id: u64,
}

impl Point {
    /// Creates the position with the given identity.
    pub fn new(id: u64) -> (p: Point)
        ensures
            p.id == id,
    {
        Point { id }
    }
}

} // verus!
