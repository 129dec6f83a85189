//! Face topology of convex polyhedra, as contact-manifold construction needs
//! it: which faces meet at a vertex, the edges of a face in winding order,
//! and the side faces whose planes bound a reference face.
use itertools::Itertools;
use vstd::arithmetic::div_mod::{lemma_mod_self_0, lemma_small_mod};
use vstd::prelude::*;

verus! {

/// The faces of a polyhedron as sequences of vertex indices.
pub open spec fn faces_view(faces: Seq<Vec<usize>>) -> Seq<Seq<usize>> {
    faces.map_values(|f: Vec<usize>| f@)
}

/// Edge `k` of a face: from its corner `k` to the next corner, wrapping
/// around after the last one.
pub open spec fn ring_edge(face: Seq<usize>, k: int) -> (usize, usize) {
    (face[k], face[(k + 1) % (face.len() as int)])
}

/// For the edge `e` of `reference`: the faces among the first `m` other than
/// `reference` that hold both ends of `e`, each as the pair of the edge's
/// first vertex and the face's index.
pub open spec fn edge_neighbours(
    faces: Seq<Seq<usize>>,
    reference: Seq<usize>,
    e: (usize, usize),
    m: nat,
) -> Seq<(usize, usize)>
    decreases m,
{
    if m == 0 {
        Seq::empty()
    } else {
        let prev = edge_neighbours(faces, reference, e, (m - 1) as nat);
        let f = faces[m - 1];
        if f != reference && f.contains(e.0) && f.contains(e.1) {
            prev.push((e.0, (m - 1) as usize))
        } else {
            prev
        }
    }
}

/// The neighbours of the first `k` edges of `reference`, edge by edge.
pub open spec fn side_planes_upto(faces: Seq<Seq<usize>>, reference: Seq<usize>, k: nat) -> Seq<
    (usize, usize),
>
    decreases k,
{
    if k == 0 {
        Seq::empty()
    } else {
        side_planes_upto(faces, reference, (k - 1) as nat) + edge_neighbours(
            faces,
            reference,
            ring_edge(reference, k - 1),
            faces.len(),
        )
    }
}

/// Relies on `itertools::Itertools::tuple_windows` with pairs: each item with
/// the one after it, in order, one pair fewer than there are items.
#[verifier::external_body]
fn consecutive_pairs(items: &Vec<usize>) -> (r: Vec<(usize, usize)>)
    ensures
        r@.len() == if items@.len() == 0 {
            0
        } else {
            items@.len() - 1
        },
        forall|k: int| 0 <= k < r@.len() ==> #[trigger] r@[k] == (items@[k], items@[k + 1]),
{
    items.iter().copied().tuple_windows().collect()
}

/// The edges of a face in winding order, the last one closing the loop.
pub fn face_edges(face: &Vec<usize>) -> (r: Vec<(usize, usize)>)
    requires
        0 < face@.len() < usize::MAX,
    ensures
        r@.len() == face@.len(),
        forall|k: int| 0 <= k < r@.len() ==> #[trigger] r@[k] == ring_edge(face@, k),
{
    let mut ring = face.clone();
    ring.push(face[0]);
    assert(ring@ =~= face@.push(face@[0]));
    let r = consecutive_pairs(&ring);
    proof {
        let n = face@.len() as int;
        lemma_mod_self_0(n);
        assert forall|k: int| 0 <= k < r@.len() implies #[trigger] r@[k] == ring_edge(face@, k) by {
            if k + 1 < n {
                lemma_small_mod((k + 1) as nat, n as nat);
            }
        }
    }
    r
}

/// Whether `v` is a corner of `face`.
fn has_vertex(face: &Vec<usize>, v: usize) -> (r: bool)
    ensures
        r == face@.contains(v),
{
    let mut i: usize = 0;
    while i < face.len()
        invariant
            i <= face@.len(),
            forall|j: int| 0 <= j < i ==> face@[j] != v,
        decreases face@.len() - i,
    {
        if face[i] == v {
            return true;
        }
        i += 1;
    }
    false
}

/// Whether two faces list the same corners in the same order.
fn same_face(a: &Vec<usize>, b: &Vec<usize>) -> (r: bool)
    ensures
        r == (a@ == b@),
{
    if a.len() != b.len() {
        return false;
    }
    let mut i: usize = 0;
    while i < a.len()
        invariant
            a@.len() == b@.len(),
            i <= a@.len(),
            forall|j: int| 0 <= j < i ==> a@[j] == b@[j],
        decreases a@.len() - i,
    {
        if a[i] != b[i] {
            return false;
        }
        i += 1;
    }
    assert(a@ =~= b@);
    true
}

/// The indices of the faces that have `v` as a corner, in increasing order.
pub fn faces_containing(faces: &Vec<Vec<usize>>, v: usize) -> (r: Vec<usize>)
    ensures
        forall|k: int|
            0 <= k < r@.len() ==> #[trigger] r@[k] < faces@.len() && faces@[r@[k] as int]@.contains(
                v,
            ),
        forall|k: int, l: int| 0 <= k < l < r@.len() ==> #[trigger] r@[k] < #[trigger] r@[l],
        forall|f: int| 0 <= f < faces@.len() && (#[trigger] faces@[f])@.contains(v) ==> r@.contains(f as usize),
{
    let mut r: Vec<usize> = Vec::new();
    let mut i: usize = 0;
    while i < faces.len()
        invariant
            i <= faces@.len(),
            forall|k: int| 0 <= k < r@.len() ==> #[trigger] r@[k] < i && faces@[r@[k] as int]@.contains(v),
            forall|k: int, l: int| 0 <= k < l < r@.len() ==> #[trigger] r@[k] < #[trigger] r@[l],
            forall|f: int| 0 <= f < i && (#[trigger] faces@[f])@.contains(v) ==> r@.contains(f as usize),
        decreases faces@.len() - i,
    {
        if has_vertex(&faces[i], v) {
            let ghost before = r@;
            r.push(i);
            assert forall|f: int| 0 <= f < i + 1 && (#[trigger] faces@[f])@.contains(v) implies r@.contains(f as usize) by {
                if f < i {
                    let w = choose|w: int| 0 <= w < before.len() && before[w] == f as usize;
                    assert(r@[w] == f as usize);
                } else {
                    assert(r@[r@.len() - 1] == f as usize);
                }
            }
        }
        i += 1;
    }
    r
}

/// The side planes that bound the face `reference`: for each of its edges in
/// winding order, each other face that holds both ends of the edge, given as
/// the edge's first vertex and that face's index. A face listing the same
/// corners as the reference face in the same order counts as the reference face.
pub fn side_planes(faces: &Vec<Vec<usize>>, reference: usize) -> (r: Vec<(usize, usize)>)
    requires
        reference < faces@.len(),
        0 < faces@[reference as int]@.len() < usize::MAX,
    ensures
        r@ == side_planes_upto(
            faces_view(faces@),
            faces@[reference as int]@,
            faces@[reference as int]@.len(),
        ),
{
    let ghost fv = faces_view(faces@);
    let ghost rf = faces@[reference as int]@;
    let edges = face_edges(&faces[reference]);
    let mut r: Vec<(usize, usize)> = Vec::new();
    let mut k: usize = 0;
    while k < edges.len()
        invariant
            fv == faces_view(faces@),
            reference < faces@.len(),
            rf == faces@[reference as int]@,
            edges@.len() == rf.len(),
            forall|j: int| 0 <= j < edges@.len() ==> #[trigger] edges@[j] == ring_edge(rf, j),
            k <= edges@.len(),
            r@ == side_planes_upto(fv, rf, k as nat),
        decreases edges@.len() - k,
    {
        let (ea, eb) = edges[k];
        let ghost before = r@;
        let mut m: usize = 0;
        while m < faces.len()
            invariant
                fv == faces_view(faces@),
                rf == faces@[reference as int]@,
                reference < faces@.len(),
                m <= faces@.len(),
                (ea, eb) == ring_edge(rf, k as int),
                r@ == before + edge_neighbours(fv, rf, (ea, eb), m as nat),
            decreases faces@.len() - m,
        {
            let f = &faces[m];
            assert(fv[m as int] == f@);
            if !same_face(f, &faces[reference]) && has_vertex(f, ea) && has_vertex(f, eb) {
                r.push((ea, m));
            }
            m += 1;
        }
        assert(fv.len() == faces@.len());
        k += 1;
    }
    r
}

/// The six square faces of a cube whose eight corners are numbered by the
/// signs of their coordinates, `x` slowest and `z` fastest, positive first
/// (see [`cube_corner`]): each face wound counter-clockwise seen from outside.
pub fn cube_faces() -> (r: Vec<Vec<usize>>)
    ensures
        faces_view(r@) == seq![
            seq![1usize, 5, 4, 0],
            seq![2usize, 3, 1, 0],
            seq![3usize, 7, 5, 1],
            seq![4usize, 6, 2, 0],
            seq![5usize, 7, 6, 4],
            seq![6usize, 7, 3, 2],
        ],
{
    let r = vec![
        vec![1usize, 5, 4, 0],
        vec![2usize, 3, 1, 0],
        vec![3usize, 7, 5, 1],
        vec![4usize, 6, 2, 0],
        vec![5usize, 7, 6, 4],
        vec![6usize, 7, 3, 2],
    ];
    assert(faces_view(r@) =~= seq![
        seq![1usize, 5, 4, 0],
        seq![2usize, 3, 1, 0],
        seq![3usize, 7, 5, 1],
        seq![4usize, 6, 2, 0],
        seq![5usize, 7, 6, 4],
        seq![6usize, 7, 3, 2],
    ]);
    r
}

/// Corner `i` of the cube with corners at `(±1, ±1, ±1)`: bit 2 of `i` clear
/// means `x = 1`, bit 1 clear means `y = 1`, bit 0 clear means `z = 1`.
pub open spec fn cube_corner(i: usize) -> (int, int, int) {
    (
        if i < 4 { 1 } else { -1 },
        if i % 4 < 2 { 1 } else { -1 },
        if i % 2 == 0 { 1 } else { -1 },
    )
}

/// The counter-clockwise normal `(q - p) × (r - p)` of the corner `p` and
/// its successors `q`, `r`.
pub open spec fn corner_normal(p: (int, int, int), q: (int, int, int), r: (int, int, int)) -> (int, int, int) {
    let u = (q.0 - p.0, q.1 - p.1, q.2 - p.2);
    let w = (r.0 - p.0, r.1 - p.1, r.2 - p.2);
    (u.1 * w.2 - u.2 * w.1, u.2 * w.0 - u.0 * w.2, u.0 * w.1 - u.1 * w.0)
}

pub open spec fn dot3(a: (int, int, int), b: (int, int, int)) -> int {
    a.0 * b.0 + a.1 * b.1 + a.2 * b.2
}

/// Every face of [`cube_faces`] winds outward: at each corner of each face,
/// the counter-clockwise normal of that corner and the two that follow it
/// has a positive dot product with the corner's position, so it points away
/// from the cube's centre.
pub proof fn lemma_cube_faces_outward(faces: Seq<Seq<usize>>)
    requires
        faces == seq![
            seq![1usize, 5, 4, 0],
            seq![2usize, 3, 1, 0],
            seq![3usize, 7, 5, 1],
            seq![4usize, 6, 2, 0],
            seq![5usize, 7, 6, 4],
            seq![6usize, 7, 3, 2],
        ],
    ensures
        forall|i: int, k: int|
            0 <= i < faces.len() && 0 <= k < 4 ==> dot3(
                #[trigger] corner_normal(
                    cube_corner(faces[i][k]),
                    cube_corner(faces[i][(k + 1) % 4]),
                    cube_corner(faces[i][(k + 2) % 4]),
                ),
                cube_corner(faces[i][k]),
            ) > 0,
{
    assert forall|i: int, k: int|
        0 <= i < faces.len() && 0 <= k < 4 implies dot3(
            #[trigger] corner_normal(
                cube_corner(faces[i][k]),
                cube_corner(faces[i][(k + 1) % 4]),
                cube_corner(faces[i][(k + 2) % 4]),
            ),
            cube_corner(faces[i][k]),
        ) > 0 by {
        let f = faces[i];
        if i == 0 {
            assert(f == seq![1usize, 5, 4, 0]);
            if k == 0 {
                assert((k + 1) % 4 == 1 && (k + 2) % 4 == 2);
                assert(cube_corner(1) == (1int, 1int, -1int) && cube_corner(5) == (-1int, 1int, -1int) && cube_corner(4) == (-1int, 1int, 1int));
                assert(dot3(corner_normal((1int, 1int, -1int), (-1int, 1int, -1int), (-1int, 1int, 1int)), (1int, 1int, -1int)) > 0) by (nonlinear_arith);
            } else if k == 1 {
                assert((k + 1) % 4 == 2 && (k + 2) % 4 == 3);
                assert(cube_corner(5) == (-1int, 1int, -1int) && cube_corner(4) == (-1int, 1int, 1int) && cube_corner(0) == (1int, 1int, 1int));
                assert(dot3(corner_normal((-1int, 1int, -1int), (-1int, 1int, 1int), (1int, 1int, 1int)), (-1int, 1int, -1int)) > 0) by (nonlinear_arith);
            } else if k == 2 {
                assert((k + 1) % 4 == 3 && (k + 2) % 4 == 0);
                assert(cube_corner(4) == (-1int, 1int, 1int) && cube_corner(0) == (1int, 1int, 1int) && cube_corner(1) == (1int, 1int, -1int));
                assert(dot3(corner_normal((-1int, 1int, 1int), (1int, 1int, 1int), (1int, 1int, -1int)), (-1int, 1int, 1int)) > 0) by (nonlinear_arith);
            } else if k == 3 {
                assert((k + 1) % 4 == 0 && (k + 2) % 4 == 1);
                assert(cube_corner(0) == (1int, 1int, 1int) && cube_corner(1) == (1int, 1int, -1int) && cube_corner(5) == (-1int, 1int, -1int));
                assert(dot3(corner_normal((1int, 1int, 1int), (1int, 1int, -1int), (-1int, 1int, -1int)), (1int, 1int, 1int)) > 0) by (nonlinear_arith);
            }
        } else if i == 1 {
            assert(f == seq![2usize, 3, 1, 0]);
            if k == 0 {
                assert((k + 1) % 4 == 1 && (k + 2) % 4 == 2);
                assert(cube_corner(2) == (1int, -1int, 1int) && cube_corner(3) == (1int, -1int, -1int) && cube_corner(1) == (1int, 1int, -1int));
                assert(dot3(corner_normal((1int, -1int, 1int), (1int, -1int, -1int), (1int, 1int, -1int)), (1int, -1int, 1int)) > 0) by (nonlinear_arith);
            } else if k == 1 {
                assert((k + 1) % 4 == 2 && (k + 2) % 4 == 3);
                assert(cube_corner(3) == (1int, -1int, -1int) && cube_corner(1) == (1int, 1int, -1int) && cube_corner(0) == (1int, 1int, 1int));
                assert(dot3(corner_normal((1int, -1int, -1int), (1int, 1int, -1int), (1int, 1int, 1int)), (1int, -1int, -1int)) > 0) by (nonlinear_arith);
            } else if k == 2 {
                assert((k + 1) % 4 == 3 && (k + 2) % 4 == 0);
                assert(cube_corner(1) == (1int, 1int, -1int) && cube_corner(0) == (1int, 1int, 1int) && cube_corner(2) == (1int, -1int, 1int));
                assert(dot3(corner_normal((1int, 1int, -1int), (1int, 1int, 1int), (1int, -1int, 1int)), (1int, 1int, -1int)) > 0) by (nonlinear_arith);
            } else if k == 3 {
                assert((k + 1) % 4 == 0 && (k + 2) % 4 == 1);
                assert(cube_corner(0) == (1int, 1int, 1int) && cube_corner(2) == (1int, -1int, 1int) && cube_corner(3) == (1int, -1int, -1int));
                assert(dot3(corner_normal((1int, 1int, 1int), (1int, -1int, 1int), (1int, -1int, -1int)), (1int, 1int, 1int)) > 0) by (nonlinear_arith);
            }
        } else if i == 2 {
            assert(f == seq![3usize, 7, 5, 1]);
            if k == 0 {
                assert((k + 1) % 4 == 1 && (k + 2) % 4 == 2);
                assert(cube_corner(3) == (1int, -1int, -1int) && cube_corner(7) == (-1int, -1int, -1int) && cube_corner(5) == (-1int, 1int, -1int));
                assert(dot3(corner_normal((1int, -1int, -1int), (-1int, -1int, -1int), (-1int, 1int, -1int)), (1int, -1int, -1int)) > 0) by (nonlinear_arith);
            } else if k == 1 {
                assert((k + 1) % 4 == 2 && (k + 2) % 4 == 3);
                assert(cube_corner(7) == (-1int, -1int, -1int) && cube_corner(5) == (-1int, 1int, -1int) && cube_corner(1) == (1int, 1int, -1int));
                assert(dot3(corner_normal((-1int, -1int, -1int), (-1int, 1int, -1int), (1int, 1int, -1int)), (-1int, -1int, -1int)) > 0) by (nonlinear_arith);
            } else if k == 2 {
                assert((k + 1) % 4 == 3 && (k + 2) % 4 == 0);
                assert(cube_corner(5) == (-1int, 1int, -1int) && cube_corner(1) == (1int, 1int, -1int) && cube_corner(3) == (1int, -1int, -1int));
                assert(dot3(corner_normal((-1int, 1int, -1int), (1int, 1int, -1int), (1int, -1int, -1int)), (-1int, 1int, -1int)) > 0) by (nonlinear_arith);
            } else if k == 3 {
                assert((k + 1) % 4 == 0 && (k + 2) % 4 == 1);
                assert(cube_corner(1) == (1int, 1int, -1int) && cube_corner(3) == (1int, -1int, -1int) && cube_corner(7) == (-1int, -1int, -1int));
                assert(dot3(corner_normal((1int, 1int, -1int), (1int, -1int, -1int), (-1int, -1int, -1int)), (1int, 1int, -1int)) > 0) by (nonlinear_arith);
            }
        } else if i == 3 {
            assert(f == seq![4usize, 6, 2, 0]);
            if k == 0 {
                assert((k + 1) % 4 == 1 && (k + 2) % 4 == 2);
                assert(cube_corner(4) == (-1int, 1int, 1int) && cube_corner(6) == (-1int, -1int, 1int) && cube_corner(2) == (1int, -1int, 1int));
                assert(dot3(corner_normal((-1int, 1int, 1int), (-1int, -1int, 1int), (1int, -1int, 1int)), (-1int, 1int, 1int)) > 0) by (nonlinear_arith);
            } else if k == 1 {
                assert((k + 1) % 4 == 2 && (k + 2) % 4 == 3);
                assert(cube_corner(6) == (-1int, -1int, 1int) && cube_corner(2) == (1int, -1int, 1int) && cube_corner(0) == (1int, 1int, 1int));
                assert(dot3(corner_normal((-1int, -1int, 1int), (1int, -1int, 1int), (1int, 1int, 1int)), (-1int, -1int, 1int)) > 0) by (nonlinear_arith);
            } else if k == 2 {
                assert((k + 1) % 4 == 3 && (k + 2) % 4 == 0);
                assert(cube_corner(2) == (1int, -1int, 1int) && cube_corner(0) == (1int, 1int, 1int) && cube_corner(4) == (-1int, 1int, 1int));
                assert(dot3(corner_normal((1int, -1int, 1int), (1int, 1int, 1int), (-1int, 1int, 1int)), (1int, -1int, 1int)) > 0) by (nonlinear_arith);
            } else if k == 3 {
                assert((k + 1) % 4 == 0 && (k + 2) % 4 == 1);
                assert(cube_corner(0) == (1int, 1int, 1int) && cube_corner(4) == (-1int, 1int, 1int) && cube_corner(6) == (-1int, -1int, 1int));
                assert(dot3(corner_normal((1int, 1int, 1int), (-1int, 1int, 1int), (-1int, -1int, 1int)), (1int, 1int, 1int)) > 0) by (nonlinear_arith);
            }
        } else if i == 4 {
            assert(f == seq![5usize, 7, 6, 4]);
            if k == 0 {
                assert((k + 1) % 4 == 1 && (k + 2) % 4 == 2);
                assert(cube_corner(5) == (-1int, 1int, -1int) && cube_corner(7) == (-1int, -1int, -1int) && cube_corner(6) == (-1int, -1int, 1int));
                assert(dot3(corner_normal((-1int, 1int, -1int), (-1int, -1int, -1int), (-1int, -1int, 1int)), (-1int, 1int, -1int)) > 0) by (nonlinear_arith);
            } else if k == 1 {
                assert((k + 1) % 4 == 2 && (k + 2) % 4 == 3);
                assert(cube_corner(7) == (-1int, -1int, -1int) && cube_corner(6) == (-1int, -1int, 1int) && cube_corner(4) == (-1int, 1int, 1int));
                assert(dot3(corner_normal((-1int, -1int, -1int), (-1int, -1int, 1int), (-1int, 1int, 1int)), (-1int, -1int, -1int)) > 0) by (nonlinear_arith);
            } else if k == 2 {
                assert((k + 1) % 4 == 3 && (k + 2) % 4 == 0);
                assert(cube_corner(6) == (-1int, -1int, 1int) && cube_corner(4) == (-1int, 1int, 1int) && cube_corner(5) == (-1int, 1int, -1int));
                assert(dot3(corner_normal((-1int, -1int, 1int), (-1int, 1int, 1int), (-1int, 1int, -1int)), (-1int, -1int, 1int)) > 0) by (nonlinear_arith);
            } else if k == 3 {
                assert((k + 1) % 4 == 0 && (k + 2) % 4 == 1);
                assert(cube_corner(4) == (-1int, 1int, 1int) && cube_corner(5) == (-1int, 1int, -1int) && cube_corner(7) == (-1int, -1int, -1int));
                assert(dot3(corner_normal((-1int, 1int, 1int), (-1int, 1int, -1int), (-1int, -1int, -1int)), (-1int, 1int, 1int)) > 0) by (nonlinear_arith);
            }
        } else if i == 5 {
            assert(f == seq![6usize, 7, 3, 2]);
            if k == 0 {
                assert((k + 1) % 4 == 1 && (k + 2) % 4 == 2);
                assert(cube_corner(6) == (-1int, -1int, 1int) && cube_corner(7) == (-1int, -1int, -1int) && cube_corner(3) == (1int, -1int, -1int));
                assert(dot3(corner_normal((-1int, -1int, 1int), (-1int, -1int, -1int), (1int, -1int, -1int)), (-1int, -1int, 1int)) > 0) by (nonlinear_arith);
            } else if k == 1 {
                assert((k + 1) % 4 == 2 && (k + 2) % 4 == 3);
                assert(cube_corner(7) == (-1int, -1int, -1int) && cube_corner(3) == (1int, -1int, -1int) && cube_corner(2) == (1int, -1int, 1int));
                assert(dot3(corner_normal((-1int, -1int, -1int), (1int, -1int, -1int), (1int, -1int, 1int)), (-1int, -1int, -1int)) > 0) by (nonlinear_arith);
            } else if k == 2 {
                assert((k + 1) % 4 == 3 && (k + 2) % 4 == 0);
                assert(cube_corner(3) == (1int, -1int, -1int) && cube_corner(2) == (1int, -1int, 1int) && cube_corner(6) == (-1int, -1int, 1int));
                assert(dot3(corner_normal((1int, -1int, -1int), (1int, -1int, 1int), (-1int, -1int, 1int)), (1int, -1int, -1int)) > 0) by (nonlinear_arith);
            } else if k == 3 {
                assert((k + 1) % 4 == 0 && (k + 2) % 4 == 1);
                assert(cube_corner(2) == (1int, -1int, 1int) && cube_corner(6) == (-1int, -1int, 1int) && cube_corner(7) == (-1int, -1int, -1int));
                assert(dot3(corner_normal((1int, -1int, 1int), (-1int, -1int, 1int), (-1int, -1int, -1int)), (1int, -1int, 1int)) > 0) by (nonlinear_arith);
            }
        }
    }
}

} // verus!
