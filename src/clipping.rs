//! Sutherland–Hodgman clipping of a polygon against one plane.
//!
//! The caller classifies each polygon vertex by the sign of its distance to
//! the plane; [`clip`] decides from those signs alone which vertices survive
//! and between which neighbours a crossing point is inserted. The caller then
//! places each crossing point by linear interpolation.
use vstd::arithmetic::div_mod::{lemma_mod_self_0, lemma_small_mod};
use vstd::prelude::*;

verus! {

/// Where a polygon vertex lies relative to the clipping plane.
#[derive(Clone, Copy, Debug, PartialEq, Eq, Structural)]
pub enum Side {
    /// Strictly on the kept side (positive signed distance).
    Above,
    /// On the plane (zero signed distance).
    On,
    /// Strictly on the discarded side (negative signed distance).
    Below,
}

/// One point of a clipped polygon.
#[derive(Clone, Copy, Debug, PartialEq, Eq, Structural)]
pub enum ClipPoint {
    /// The input vertex with this index, kept as it is.
    Vertex(usize),
    /// The point where the edge from vertex `i` to vertex `j` meets the plane.
    Crossing(usize, usize),
}

/// A vertex that is not strictly below the plane is kept.
pub open spec fn kept(s: Side) -> bool {
    s != Side::Below
}

/// What the edge from vertex `i` to its successor contributes: vertex `i`
/// itself when it is kept, then, when clipped points are wanted and the edge
/// changes sides, the crossing point of that edge.
pub open spec fn edge_points(sides: Seq<Side>, i: int, leave_clipped: bool) -> Seq<ClipPoint> {
    let j = (i + 1) % (sides.len() as int);
    (if kept(sides[i]) {
        seq![ClipPoint::Vertex(i as usize)]
    } else {
        Seq::empty()
    }) + (if leave_clipped && kept(sides[i]) != kept(sides[j]) {
        seq![ClipPoint::Crossing(i as usize, j as usize)]
    } else {
        Seq::empty()
    })
}

/// The points contributed by the first `k` edges, in order.
pub open spec fn edges_points(sides: Seq<Side>, k: nat, leave_clipped: bool) -> Seq<ClipPoint>
    decreases k,
{
    if k == 0 {
        Seq::empty()
    } else {
        edges_points(sides, (k - 1) as nat, leave_clipped) + edge_points(
            sides,
            k - 1,
            leave_clipped,
        )
    }
}

/// The clipped polygon: empty unless some vertex lies strictly above the
/// plane, else the points of every edge in turn.
pub open spec fn clip_spec(sides: Seq<Side>, leave_clipped: bool) -> Seq<ClipPoint> {
    if exists|i: int| 0 <= i < sides.len() && sides[i] == Side::Above {
        edges_points(sides, sides.len(), leave_clipped)
    } else {
        Seq::empty()
    }
}

fn is_kept(s: Side) -> (r: bool)
    ensures
        r == kept(s),
{
    match s {
        Side::Below => false,
        _ => true,
    }
}

/// Clips a polygon whose vertices lie on the given sides of a plane.
/// With `leave_clipped`, each edge that changes sides also yields its crossing
/// point; without it only the kept vertices remain.
pub fn clip(sides: &Vec<Side>, leave_clipped: bool) -> (r: Vec<ClipPoint>)
    ensures
        r@ == clip_spec(sides@, leave_clipped),
{
    let n = sides.len();
    let mut any_above = false;
    let mut i: usize = 0;
    while i < n
        invariant
            i <= n,
            n == sides.len(),
            any_above == exists|k: int| 0 <= k < i && sides@[k] == Side::Above,
        decreases n - i,
    {
        if sides[i] == Side::Above {
            any_above = true;
        }
        i += 1;
    }
    let mut result: Vec<ClipPoint> = Vec::new();
    if !any_above {
        return result;
    }
    let mut i: usize = 0;
    while i < n
        invariant
            i <= n,
            n == sides.len(),
            n > 0,
            result@ == edges_points(sides@, i as nat, leave_clipped),
        decreases n - i,
    {
        let j = if i + 1 == n {
            0
        } else {
            i + 1
        };
        proof {
            lemma_mod_self_0(n as int);
            if i + 1 < n {
                lemma_small_mod((i + 1) as nat, n as nat);
            }
        }
        assert(j as int == (i as int + 1) % (n as int));
        let here = is_kept(sides[i]);
        let next = is_kept(sides[j]);
        let ghost before = result@;
        if here {
            result.push(ClipPoint::Vertex(i));
        }
        if leave_clipped && here != next {
            result.push(ClipPoint::Crossing(i, j));
        }
        assert(result@ =~= before + edge_points(sides@, i as int, leave_clipped));
        i += 1;
    }
    result
}

/// The points that the first `k` edges contribute when every vertex is kept:
/// the first `k` vertices, in order.
proof fn lemma_all_kept_prefix(sides: Seq<Side>, k: nat, leave_clipped: bool)
    requires
        k <= sides.len(),
        forall|i: int| 0 <= i < sides.len() ==> kept(#[trigger] sides[i]),
    ensures
        edges_points(sides, k, leave_clipped) =~= Seq::new(k, |i: int| ClipPoint::Vertex(i as usize)),
    decreases k,
{
    if k > 0 {
        lemma_all_kept_prefix(sides, (k - 1) as nat, leave_clipped);
        let j = (k as int) % (sides.len() as int);
        lemma_mod_self_0(sides.len() as int);
        if k < sides.len() {
            lemma_small_mod(k, sides.len());
        }
        assert(kept(sides[j]));
    }
}

/// A polygon that lies inside the kept half-space, touching the plane at
/// most, with some vertex strictly inside, comes out of clipping unchanged:
/// every vertex, in the same order, and no crossing point.
pub proof fn lemma_clip_inside_unchanged(sides: Seq<Side>, leave_clipped: bool)
    requires
        forall|i: int| 0 <= i < sides.len() ==> #[trigger] sides[i] != Side::Below,
        exists|i: int| 0 <= i < sides.len() && sides[i] == Side::Above,
    ensures
        clip_spec(sides, leave_clipped) == Seq::new(
            sides.len(),
            |i: int| ClipPoint::Vertex(i as usize),
        ),
{
    lemma_all_kept_prefix(sides, sides.len(), leave_clipped);
}

/// A polygon that lies strictly outside the kept half-space clips to nothing.
pub proof fn lemma_clip_outside_empty(sides: Seq<Side>, leave_clipped: bool)
    requires
        forall|i: int| 0 <= i < sides.len() ==> #[trigger] sides[i] == Side::Below,
    ensures
        clip_spec(sides, leave_clipped) == Seq::<ClipPoint>::empty(),
{
}

} // verus!
