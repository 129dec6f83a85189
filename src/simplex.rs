//! The simplex that the intersection search grows inside the Minkowski
//! difference of two shapes.
use vstd::prelude::*;
use vstd::std_specs::cmp::PartialEqSpec;

verus! {

/// One to four support points, each paired with the direction that produced it.
#[derive(Clone, Copy, Debug)]
pub enum Simplex<P, D> {
    Point(P, D),
    Line(P, P, D, D),
    Triangle(P, P, P, D, D, D),
    Tetrahedron(P, P, P, P, D, D, D, D),
}

impl<P: PartialEq, D> Simplex<P, D> {
    /// Whether two of the simplex's points coincide.
    pub open spec fn dup_spec(&self) -> bool {
        match self {
            Simplex::Point(..) => false,
            Simplex::Line(a, b, ..) => a.eq_spec(b),
            Simplex::Triangle(a, b, c, ..) => a.eq_spec(b) || b.eq_spec(c) || c.eq_spec(a),
            Simplex::Tetrahedron(a, b, c, d, ..) => a.eq_spec(b) || a.eq_spec(c) || a.eq_spec(d)
                || b.eq_spec(c) || b.eq_spec(d) || c.eq_spec(d),
        }
    }

    pub fn is_dup(&self) -> (r: bool)
        ensures
            P::obeys_eq_spec() ==> r == self.dup_spec(),
    {
        match self {
            Simplex::Point(..) => false,
            Simplex::Line(a, b, ..) => a == b,
            Simplex::Triangle(a, b, c, ..) => a == b || b == c || c == a,
            Simplex::Tetrahedron(a, b, c, d, ..) => a == b || a == c || a == d || b == c || b == d
                || c == d,
        }
    }
}

} // verus!
