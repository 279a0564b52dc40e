use vstd::prelude::*;

use crate::face::Face;

verus! {

/// A closed set of faces bounding a region of space.
#[derive(Debug)]
pub struct Shell {
    pub faces: Vec<Face>,
}

impl Shell {
    /// Creates the shell made of `faces`; a shell has at least one face.
    pub fn new(faces: Vec<Face>) -> (s: Shell)
        requires
            faces.len() > 0,
        ensures
            s.faces@ == faces@,
    {
        Shell { faces }
    }
}

/// A solid, bounded by its faces.
#[derive(Debug)]
pub struct Volume {
    pub faces: Vec<Face>,
}

impl Volume {
    /// Creates the solid bounded by `faces`; a solid has at least one face.
    pub fn new(faces: Vec<Face>) -> (v: Volume)
        requires
            faces.len() > 0,
        ensures
            v.faces@ == faces@,
    {
        Volume { faces }
    }
}

} // verus!
