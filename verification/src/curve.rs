use vstd::prelude::*;

verus! {

/// An oriented curve carrying an edge. The topology compares curves for
/// equality and reverses their orientation, so a curve is carried by the
/// identity of its underlying geometric curve and an orientation flag.
#[derive(Clone, Copy, Debug, PartialEq, Eq, Structural)]
pub struct Curve {
    pub id: u64,
    pub reversed: bool,
}

impl Curve {
    /// The curve with identity `id`, in its own orientation.
    pub fn new(id: u64) -> (c: Curve)
        ensures
            c.id == id,
            !c.reversed,
    {
        Curve { id, reversed: false }
    }

    /// The same curve run in the opposite direction.
    pub open spec fn spec_neg(&self) -> Curve {
        Curve { id: self.id, reversed: !self.reversed }
    }

    /// Returns the same curve run in the opposite direction.
    #[verifier::when_used_as_spec(spec_neg)]
    pub fn neg(&self) -> (c: Curve)
        ensures
            c == self.spec_neg(),
    {
        Curve { id: self.id, reversed: !self.reversed }
    }
}

/// Reversing a curve twice gives the curve back, and reversing it once
/// never gives the same curve.
pub proof fn lemma_curve_neg_involution(c: Curve)
    ensures
        c.neg().neg() == c,
        c.neg() != c,
{
}

/// An oriented surface carrying a face, held like a curve: the identity of
/// the geometric surface and whether its normal is reversed.
#[derive(Clone, Copy, Debug, PartialEq, Eq, Structural)]
pub struct Surface {
    pub id: u64,
    pub reversed: bool,
}

impl Surface {
    /// The surface with identity `id`, with its own normal direction.
    pub fn new(id: u64) -> (s: Surface)
        ensures
            s.id == id,
            !s.reversed,
    {
        Surface { id, reversed: false }
    }

    /// The same surface with the normal pointing the other way.
    pub open spec fn spec_neg(&self) -> Surface {
        Surface { id: self.id, reversed: !self.reversed }
    }

    /// Returns the same surface with the normal pointing the other way.
    #[verifier::when_used_as_spec(spec_neg)]
    pub fn neg(&self) -> (s: Surface)
        ensures
            s == self.spec_neg(),
    {
        Surface { id: self.id, reversed: !self.reversed }
    }
}

/// Reversing a surface twice gives the surface back, and reversing it once
/// never gives the same surface.
pub proof fn lemma_surface_neg_involution(s: Surface)
    ensures
        s.neg().neg() == s,
        s.neg() != s,
{
}

} // verus!
