//! The convex polytope that the penetration-depth search grows toward the
//! origin, as far as its shape is a matter of indices.
//!
//! Vertices and their support directions are carried as they are; the faces
//! are index triples. Which faces a new point sees, and which way a new face
//! must wind, are decided by the caller from the vertex positions.
use crate::simplex::Simplex;
use vstd::prelude::*;

verus! {

/// A triangle whose three corners are distinct vertices among the first `n`.
pub open spec fn face_valid(f: [usize; 3], n: nat) -> bool {
    &&& f[0] < n
    &&& f[1] < n
    &&& f[2] < n
    &&& f[0] != f[1]
    &&& f[1] != f[2]
    &&& f[2] != f[0]
}

/// An edge between two distinct vertices among the first `n`.
pub open spec fn edge_valid(e: (usize, usize), n: nat) -> bool {
    e.0 < n && e.1 < n && e.0 != e.1
}

/// The edge `e` run the other way.
pub open spec fn reversed(e: (usize, usize)) -> (usize, usize) {
    (e.1, e.0)
}

/// Adds the directed edge `e` to a boundary under construction: an edge whose
/// reverse is already there cancels it (the two faces share that edge),
/// and an edge that is already there is not added twice.
pub open spec fn toggle_edge(edges: Seq<(usize, usize)>, e: (usize, usize)) -> Seq<(usize, usize)> {
    if edges.contains(reversed(e)) {
        edges.remove_value(reversed(e))
    } else if edges.contains(e) {
        edges
    } else {
        edges.push(e)
    }
}

/// Adds the three edges of face `f`, in winding order.
pub open spec fn toggle_face(edges: Seq<(usize, usize)>, f: [usize; 3]) -> Seq<(usize, usize)> {
    toggle_edge(toggle_edge(toggle_edge(edges, (f[0], f[1])), (f[1], f[2])), (f[2], f[0]))
}

/// The boundary of the visible faces among the first `k`: the directed edges
/// of those faces that no other visible face shares.
pub open spec fn horizon(faces: Seq<[usize; 3]>, visible: Seq<bool>, k: nat) -> Seq<
    (usize, usize),
>
    decreases k,
{
    if k == 0 {
        Seq::empty()
    } else if visible[k - 1] {
        toggle_face(horizon(faces, visible, (k - 1) as nat), faces[k - 1])
    } else {
        horizon(faces, visible, (k - 1) as nat)
    }
}

/// The faces among the first `k` that are not visible, in order.
pub open spec fn hidden_faces(faces: Seq<[usize; 3]>, visible: Seq<bool>, k: nat) -> Seq<
    [usize; 3],
>
    decreases k,
{
    if k == 0 {
        Seq::empty()
    } else if visible[k - 1] {
        hidden_faces(faces, visible, (k - 1) as nat)
    } else {
        hidden_faces(faces, visible, (k - 1) as nat).push(faces[k - 1])
    }
}

/// One face per edge, joining the edge to the vertex `apex` and keeping the
/// edge's direction.
pub open spec fn cone(edges: Seq<(usize, usize)>, apex: usize) -> Seq<[usize; 3]> {
    Seq::new(edges.len(), |k: int| [edges[k].0, edges[k].1, apex])
}

/// Removes the first occurrence of the reverse of `(a, b)`, or else adds
/// `(a, b)` unless it is already there.
fn toggle(edges: &mut Vec<(usize, usize)>, a: usize, b: usize)
    ensures
        final(edges)@ == toggle_edge(old(edges)@, (a, b)),
        forall|j: int|
            0 <= j < final(edges)@.len() ==> old(edges)@.contains(#[trigger] final(edges)@[j])
                || final(edges)@[j] == (a, b),
{
    let ghost start = edges@;
    let mut k: usize = 0;
    while k < edges.len()
        invariant
            edges@ == start,
            start == old(edges)@,
            k <= edges.len(),
            forall|j: int| 0 <= j < k ==> edges@[j] != (b, a),
        decreases edges.len() - k,
    {
        if edges[k].0 == b && edges[k].1 == a {
            proof {
                start.index_of_first_ensures((b, a));
                start.remove_ensures(k as int);
                assert(start.contains((b, a)));
                assert forall|j: int| 0 <= j < start.len() - 1 implies start.contains(
                    #[trigger] start.remove(k as int)[j],
                ) by {
                    if j < k {
                        assert(start.remove(k as int)[j] == start[j]);
                    } else {
                        assert(start.remove(k as int)[j] == start[j + 1]);
                    }
                }
            }
            edges.remove(k);
            return;
        }
        k += 1;
    }
    assert(!start.contains((b, a)));
    let mut k: usize = 0;
    while k < edges.len()
        invariant
            edges@ == start,
            start == old(edges)@,
            k <= edges.len(),
            !start.contains((b, a)),
            forall|j: int| 0 <= j < k ==> edges@[j] != (a, b),
        decreases edges.len() - k,
    {
        if edges[k].0 == a && edges[k].1 == b {
            assert(start.contains((a, b)));
            return;
        }
        k += 1;
    }
    edges.push((a, b));
    proof {
        assert forall|j: int| 0 <= j < edges@.len() implies start.contains(#[trigger] edges@[j])
            || edges@[j] == (a, b) by {
            if j < start.len() {
                assert(edges@[j] == start[j]);
            }
        }
    }
}

/// A convex polytope: its vertices, the support direction that produced each
/// vertex, and its triangular faces as index triples wound counter-clockwise
/// seen from outside.
pub struct Polytope<V, D> {
    vertices: Vec<V>,
    dirs: Vec<D>,
    faces: Vec<[usize; 3]>,
}

impl<V, D> Polytope<V, D> {
    pub closed spec fn vertices_spec(&self) -> Seq<V> {
        self.vertices@
    }

    pub closed spec fn dirs_spec(&self) -> Seq<D> {
        self.dirs@
    }

    pub closed spec fn faces_spec(&self) -> Seq<[usize; 3]> {
        self.faces@
    }

    /// One direction per vertex, and every face a triangle of distinct vertices.
    pub open spec fn well_formed(&self) -> bool {
        &&& self.vertices_spec().len() == self.dirs_spec().len()
        &&& forall|i: int|
            0 <= i < self.faces_spec().len() ==> face_valid(
                #[trigger] self.faces_spec()[i],
                self.vertices_spec().len(),
            )
    }

    /// Builds the polytope of a tetrahedral simplex `a, b, c, d` with the faces
    /// `abc`, `bad`, `acd`, `cbd`. When `inward` is set (the tetrahedron has
    /// negative signed volume, so those faces would wind inward) the first two
    /// vertices trade places, with their directions. Any other simplex gives
    /// `None`.
    pub fn from_simplex(s: Simplex<V, D>, inward: bool) -> (r: Option<Self>)
        ensures
            r is Some <==> s is Tetrahedron,
            r matches Some(p) ==> {
                &&& p.well_formed()
                &&& p.faces_spec().len() == 4
                &&& p.faces_spec()[0] == [0usize, 1, 2]
                &&& p.faces_spec()[1] == [1usize, 0, 3]
                &&& p.faces_spec()[2] == [0usize, 2, 3]
                &&& p.faces_spec()[3] == [2usize, 1, 3]
                &&& s matches Simplex::Tetrahedron(a, b, c, d, ad, bd, cd, dd) && if inward {
                    p.vertices_spec() == seq![b, a, c, d] && p.dirs_spec() == seq![bd, ad, cd, dd]
                } else {
                    p.vertices_spec() == seq![a, b, c, d] && p.dirs_spec() == seq![ad, bd, cd, dd]
                }
            },
    {
        match s {
            Simplex::Tetrahedron(a, b, c, d, ad, bd, cd, dd) => {
                let (vertices, dirs) = if inward {
                    (vec![b, a, c, d], vec![bd, ad, cd, dd])
                } else {
                    (vec![a, b, c, d], vec![ad, bd, cd, dd])
                };
                let faces = vec![[0usize, 1, 2], [1usize, 0, 3], [0usize, 2, 3], [2usize, 1, 3]];
                let p = Self { vertices, dirs, faces };
                assert(p.vertices_spec() =~= seq![a, b, c, d] || p.vertices_spec() =~= seq![b, a, c, d]);
                Some(p)
            },
            _ => None,
        }
    }

    /// Adds the vertex `p`, found along `dir`, and re-triangulates: the faces
    /// that `visible` marks are removed, and each directed edge of their
    /// boundary (see [`horizon`], characterized in
    /// `winding::lemma_horizon`) gets a new face joining it to `p`. The faces
    /// that stay keep their order and come first; the new faces follow, from
    /// the returned index on.
    pub fn expand(&mut self, p: V, dir: D, visible: &Vec<bool>) -> (first_new: usize)
        requires
            old(self).well_formed(),
            visible@.len() == old(self).faces_spec().len(),
        ensures
            final(self).well_formed(),
            final(self).vertices_spec() == old(self).vertices_spec().push(p),
            final(self).dirs_spec() == old(self).dirs_spec().push(dir),
            ({
                let hidden = hidden_faces(old(self).faces_spec(), visible@, visible@.len());
                let edges = horizon(old(self).faces_spec(), visible@, visible@.len());
                let apex = old(self).vertices_spec().len() as usize;
                &&& first_new == hidden.len()
                &&& final(self).faces_spec() == hidden + cone(edges, apex)
            }),
    {
        let n = self.vertices.len();
        let ghost faces0 = self.faces@;
        let mut kept: Vec<[usize; 3]> = Vec::new();
        let mut edges: Vec<(usize, usize)> = Vec::new();
        let mut i: usize = 0;
        while i < self.faces.len()
            invariant
                self.faces@ == faces0,
                visible@.len() == faces0.len(),
                n == self.vertices@.len(),
                forall|j: int| 0 <= j < faces0.len() ==> face_valid(#[trigger] faces0[j], n as nat),
                i <= faces0.len(),
                kept@ == hidden_faces(faces0, visible@, i as nat),
                edges@ == horizon(faces0, visible@, i as nat),
                forall|j: int| 0 <= j < kept@.len() ==> face_valid(#[trigger] kept@[j], n as nat),
                forall|j: int| 0 <= j < edges@.len() ==> edge_valid(#[trigger] edges@[j], n as nat),
            decreases faces0.len() - i,
        {
            let f = self.faces[i];
            assert(face_valid(faces0[i as int], n as nat));
            if visible[i] {
                toggle(&mut edges, f[0], f[1]);
                toggle(&mut edges, f[1], f[2]);
                toggle(&mut edges, f[2], f[0]);
            } else {
                kept.push(f);
            }
            i += 1;
        }
        self.vertices.push(p);
        self.dirs.push(dir);
        let first_new = kept.len();
        let ghost hidden = kept@;
        let mut j: usize = 0;
        while j < edges.len()
            invariant
                j <= edges@.len(),
                kept@.len() == first_new + j,
                kept@.subrange(0, first_new as int) == hidden,
                forall|k: int| 0 <= k < hidden.len() ==> face_valid(#[trigger] hidden[k], n as nat),
                forall|k: int| 0 <= k < edges@.len() ==> edge_valid(#[trigger] edges@[k], n as nat),
                kept@ == hidden + cone(edges@, n).subrange(0, j as int),
                forall|k: int| 0 <= k < kept@.len() ==> face_valid(#[trigger] kept@[k], n as nat + 1),
            decreases edges@.len() - j,
        {
            let e = edges[j];
            assert(edge_valid(edges@[j as int], n as nat));
            kept.push([e.0, e.1, n]);
            assert(kept@.subrange(0, first_new as int) =~= hidden);
            assert(cone(edges@, n).subrange(0, j + 1) =~= cone(edges@, n).subrange(0, j as int).push([e.0, e.1, n]));
            j += 1;
        }
        assert(cone(edges@, n).subrange(0, j as int) =~= cone(edges@, n));
        self.faces = kept;
        first_new
    }

    /// Reverses the winding of face `f` by exchanging its first two corners.
    pub fn flip_face(&mut self, f: usize)
        requires
            old(self).well_formed(),
            f < old(self).faces_spec().len(),
        ensures
            final(self).well_formed(),
            final(self).vertices_spec() == old(self).vertices_spec(),
            final(self).dirs_spec() == old(self).dirs_spec(),
            final(self).faces_spec() == old(self).faces_spec().update(
                f as int,
                [old(self).faces_spec()[f as int][1], old(self).faces_spec()[f as int][0], old(self).faces_spec()[f as int][2]],
            ),
    {
        let t = self.faces[f];
        self.faces.set(f, [t[1], t[0], t[2]]);
    }

    pub fn faces(&self) -> (r: &Vec<[usize; 3]>)
        ensures
            r@ == self.faces_spec(),
    {
        &self.faces
    }

    pub fn vertices(&self) -> (r: &Vec<V>)
        ensures
            r@ == self.vertices_spec(),
    {
        &self.vertices
    }

    pub fn dirs(&self) -> (r: &Vec<D>)
        ensures
            r@ == self.dirs_spec(),
    {
        &self.dirs
    }
}

} // verus!
