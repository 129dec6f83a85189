//! Which pairs of colliders are handed to the narrow phase. Every pair is:
//! the collider count is small and no spatial filter is applied.
use itertools::Itertools;
use vstd::prelude::*;

verus! {

/// `x` comes strictly before `y` in lexicographic order.
pub open spec fn lex_less(x: (usize, usize), y: (usize, usize)) -> bool {
    x.0 < y.0 || (x.0 == y.0 && x.1 < y.1)
}

/// Relies on `itertools::Itertools::combinations` with `k = 2` over `0..n`:
/// every 2-element combination of the indices, each in increasing order,
/// the combinations themselves in lexicographic order.
#[verifier::external_body]
fn index_pairs(n: usize) -> (r: Vec<(usize, usize)>)
    ensures
        forall|k: int| 0 <= k < r@.len() ==> #[trigger] r@[k].0 < r@[k].1 && r@[k].1 < n,
        forall|i: usize, j: usize| i < j < n ==> r@.contains((i, j)),
        forall|k: int, l: int| 0 <= k < l < r@.len() ==> lex_less(#[trigger] r@[k], #[trigger] r@[l]),
{
    (0..n).combinations(2).map(|c| (c[0], c[1])).collect()
}

/// The pairs `(i, j)` with `i < j < collider_count`, each once, in
/// lexicographic order.
pub fn candidate_pairs(collider_count: usize) -> (r: Vec<(usize, usize)>)
    ensures
        forall|k: int| 0 <= k < r@.len() ==> #[trigger] r@[k].0 < r@[k].1 && r@[k].1 < collider_count,
        forall|i: usize, j: usize| i < j < collider_count ==> r@.contains((i, j)),
        forall|k: int, l: int| 0 <= k < l < r@.len() ==> lex_less(#[trigger] r@[k], #[trigger] r@[l]),
{
    index_pairs(collider_count)
}

} // verus!
