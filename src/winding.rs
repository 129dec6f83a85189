//! The faces of the polytope as a closed surface: every directed edge is run
//! along by one face and its reverse by one other, so that all faces wind
//! the same way. Expansion keeps this as long as the boundary of the region
//! it removes is a simple loop, which is what a convex polytope seen from an
//! outside point gives.
use crate::polytope::{cone, face_valid, hidden_faces, horizon, reversed, toggle_edge};
use vstd::prelude::*;

verus! {

/// How often face `f` runs along the directed edge `e`.
pub open spec fn face_occ(f: [usize; 3], e: (usize, usize)) -> nat {
    (if (f[0], f[1]) == e {
        1nat
    } else {
        0nat
    }) + (if (f[1], f[2]) == e {
        1nat
    } else {
        0nat
    }) + (if (f[2], f[0]) == e {
        1nat
    } else {
        0nat
    })
}

/// How often the faces run along the directed edge `e`.
pub open spec fn edge_occ(faces: Seq<[usize; 3]>, e: (usize, usize)) -> nat
    decreases faces.len(),
{
    if faces.len() == 0 {
        0
    } else {
        edge_occ(faces.drop_last(), e) + face_occ(faces.last(), e)
    }
}

/// Each directed edge is run along at most once, and exactly as often as
/// its reverse: the faces close up into a surface wound the same way
/// throughout.
pub open spec fn closed_surface(faces: Seq<[usize; 3]>) -> bool {
    forall|e: (usize, usize)|
        #[trigger] edge_occ(faces, e) <= 1 && edge_occ(faces, e) == edge_occ(faces, reversed(e))
}

/// How many edges of the sequence satisfy `p`.
pub open spec fn count_where(edges: Seq<(usize, usize)>, p: spec_fn((usize, usize)) -> bool) -> nat
    decreases edges.len(),
{
    if edges.len() == 0 {
        0
    } else {
        count_where(edges.drop_last(), p) + if p(edges.last()) {
            1nat
        } else {
            0nat
        }
    }
}

/// How many edges of the sequence leave vertex `v`.
pub open spec fn starts_at(edges: Seq<(usize, usize)>, v: usize) -> nat {
    count_where(edges, |e: (usize, usize)| e.0 == v)
}

/// How many edges of the sequence enter vertex `v`.
pub open spec fn ends_at(edges: Seq<(usize, usize)>, v: usize) -> nat {
    count_where(edges, |e: (usize, usize)| e.1 == v)
}

/// How many times the edge `x` stands in the sequence.
pub open spec fn copies(edges: Seq<(usize, usize)>, x: (usize, usize)) -> nat {
    count_where(edges, |e: (usize, usize)| e == x)
}

/// The faces among the first `k` that are visible, in order.
pub open spec fn visible_faces(faces: Seq<[usize; 3]>, visible: Seq<bool>, k: nat) -> Seq<
    [usize; 3],
>
    decreases k,
{
    if k == 0 {
        Seq::empty()
    } else if visible[k - 1] {
        visible_faces(faces, visible, (k - 1) as nat).push(faces[k - 1])
    } else {
        visible_faces(faces, visible, (k - 1) as nat)
    }
}

proof fn lemma_occ_push(s: Seq<[usize; 3]>, f: [usize; 3], e: (usize, usize))
    ensures
        edge_occ(s.push(f), e) == edge_occ(s, e) + face_occ(f, e),
{
    assert(s.push(f).drop_last() =~= s);
}

proof fn lemma_occ_concat(a: Seq<[usize; 3]>, b: Seq<[usize; 3]>, e: (usize, usize))
    ensures
        edge_occ(a + b, e) == edge_occ(a, e) + edge_occ(b, e),
    decreases b.len(),
{
    if b.len() == 0 {
        assert(a + b =~= a);
    } else {
        lemma_occ_concat(a, b.drop_last(), e);
        assert((a + b).drop_last() =~= a + b.drop_last());
        assert((a + b).last() == b.last());
    }
}

proof fn lemma_count_push(s: Seq<(usize, usize)>, x: (usize, usize), p: spec_fn((usize, usize)) -> bool)
    ensures
        count_where(s.push(x), p) == count_where(s, p) + if p(x) {
            1nat
        } else {
            0nat
        },
{
    assert(s.push(x).drop_last() =~= s);
}

proof fn lemma_count_concat(
    a: Seq<(usize, usize)>,
    b: Seq<(usize, usize)>,
    p: spec_fn((usize, usize)) -> bool,
)
    ensures
        count_where(a + b, p) == count_where(a, p) + count_where(b, p),
    decreases b.len(),
{
    if b.len() == 0 {
        assert(a + b =~= a);
    } else {
        lemma_count_concat(a, b.drop_last(), p);
        assert((a + b).drop_last() =~= a + b.drop_last());
        assert((a + b).last() == b.last());
    }
}

proof fn lemma_count_remove(s: Seq<(usize, usize)>, i: int, p: spec_fn((usize, usize)) -> bool)
    requires
        0 <= i < s.len(),
    ensures
        count_where(s.remove(i), p) + (if p(s[i]) {
            1nat
        } else {
            0nat
        }) == count_where(s, p),
{
    let a = s.subrange(0, i);
    let b = s.subrange(i + 1, s.len() as int);
    assert(s.remove(i) =~= a + b);
    assert(s =~= a.push(s[i]) + b);
    lemma_count_concat(a, b, p);
    lemma_count_concat(a.push(s[i]), b, p);
    lemma_count_push(a, s[i], p);
}

/// Without repeats, an edge stands in the sequence once or not at all.
proof fn lemma_copies(s: Seq<(usize, usize)>, x: (usize, usize))
    requires
        s.no_duplicates(),
    ensures
        copies(s, x) == if s.contains(x) {
            1nat
        } else {
            0nat
        },
    decreases s.len(),
{
    if s.len() > 0 {
        let t = s.drop_last();
        assert(t.no_duplicates());
        lemma_copies(t, x);
        if s.last() == x {
            assert(!t.contains(x)) by {
                if t.contains(x) {
                    let j = choose|j: int| 0 <= j < t.len() && t[j] == x;
                    assert(s[j] == s[s.len() - 1]);
                }
            }
        }
        assert(s.contains(x) <==> (t.contains(x) || s.last() == x)) by {
            if s.contains(x) && s.last() != x {
                let j = choose|j: int| 0 <= j < s.len() && s[j] == x;
                assert(t[j] == x);
            }
            if t.contains(x) {
                let j = choose|j: int| 0 <= j < t.len() && t[j] == x;
                assert(s[j] == x);
            }
        }
    }
}

/// An edge that some face runs along joins two distinct vertices.
proof fn lemma_occ_valid(faces: Seq<[usize; 3]>, n: nat, e: (usize, usize))
    requires
        forall|i: int| 0 <= i < faces.len() ==> face_valid(#[trigger] faces[i], n),
        edge_occ(faces, e) > 0,
    ensures
        e.0 < n && e.1 < n && e.0 != e.1,
    decreases faces.len(),
{
    if face_occ(faces.last(), e) == 0 {
        let t = faces.drop_last();
        assert forall|i: int| 0 <= i < t.len() implies face_valid(#[trigger] t[i], n) by {
            assert(t[i] == faces[i]);
        }
        lemma_occ_valid(t, n, e);
    } else {
        assert(face_valid(faces[faces.len() - 1], n));
    }
}

/// The first `k` faces split into the hidden and the visible ones, and both
/// parts consist of valid faces.
proof fn lemma_split(faces: Seq<[usize; 3]>, visible: Seq<bool>, n: nat, k: nat, e: (usize, usize))
    requires
        visible.len() == faces.len(),
        k <= faces.len(),
        forall|i: int| 0 <= i < faces.len() ==> face_valid(#[trigger] faces[i], n),
    ensures
        edge_occ(faces.subrange(0, k as int), e) == edge_occ(hidden_faces(faces, visible, k), e)
            + edge_occ(visible_faces(faces, visible, k), e),
        forall|i: int|
            0 <= i < hidden_faces(faces, visible, k).len() ==> face_valid(
                #[trigger] hidden_faces(faces, visible, k)[i],
                n,
            ),
        forall|i: int|
            0 <= i < visible_faces(faces, visible, k).len() ==> face_valid(
                #[trigger] visible_faces(faces, visible, k)[i],
                n,
            ),
    decreases k,
{
    if k > 0 {
        let k1 = (k - 1) as nat;
        lemma_split(faces, visible, n, k1, e);
        let f = faces[k1 as int];
        assert(faces.subrange(0, k as int) =~= faces.subrange(0, k1 as int).push(f));
        lemma_occ_push(faces.subrange(0, k1 as int), f, e);
        lemma_occ_push(hidden_faces(faces, visible, k1), f, e);
        lemma_occ_push(visible_faces(faces, visible, k1), f, e);
        assert(face_valid(f, n));
    }
}

/// The visible faces run along each edge no more often than all faces do.
proof fn lemma_visible_bound(faces: Seq<[usize; 3]>, visible: Seq<bool>, n: nat, k: nat, e: (usize, usize))
    requires
        visible.len() == faces.len(),
        k <= faces.len(),
        forall|i: int| 0 <= i < faces.len() ==> face_valid(#[trigger] faces[i], n),
    ensures
        edge_occ(visible_faces(faces, visible, k), e) <= edge_occ(faces, e),
{
    lemma_split(faces, visible, n, k, e);
    assert(faces =~= faces.subrange(0, k as int) + faces.subrange(k as int, faces.len() as int));
    lemma_occ_concat(faces.subrange(0, k as int), faces.subrange(k as int, faces.len() as int), e);
}

/// Adding one directed edge `x` that the visible faces did not yet run along.
proof fn lemma_toggle(
    s: Seq<(usize, usize)>,
    o: spec_fn((usize, usize)) -> nat,
    o1: spec_fn((usize, usize)) -> nat,
    x: (usize, usize),
)
    requires
        s.no_duplicates(),
        forall|e: (usize, usize)| s.contains(e) <==> (o(e) == 1 && o(reversed(e)) == 0),
        forall|e: (usize, usize)| #[trigger] o1(e) == o(e) + if e == x {
            1nat
        } else {
            0nat
        },
        forall|e: (usize, usize)| #[trigger] o1(e) <= 1,
        o(x) == 0,
        x.0 != x.1,
    ensures
        toggle_edge(s, x).no_duplicates(),
        forall|e: (usize, usize)|
            toggle_edge(s, x).contains(e) <==> (o1(e) == 1 && o1(reversed(e)) == 0),
        forall|v: usize|
            ends_at(toggle_edge(s, x), v) + (if x.0 == v {
                1int
            } else {
                0int
            }) - starts_at(toggle_edge(s, x), v) == ends_at(s, v) + (if x.1 == v {
                1int
            } else {
                0int
            }) - starts_at(s, v),
{
    let r = reversed(x);
    let t = toggle_edge(s, x);
    assert(!s.contains(x));
    if s.contains(r) {
        s.index_of_first_ensures(r);
        let i = s.index_of_first(r).unwrap();
        assert(t == s.remove(i));
        s.remove_ensures(i);
        assert forall|e: (usize, usize)| t.contains(e) <==> (s.contains(e) && e != r) by {
            if t.contains(e) {
                let j = choose|j: int| 0 <= j < t.len() && t[j] == e;
                if j < i {
                    assert(s[j] == e);
                    assert(j != i);
                } else {
                    assert(s[j + 1] == e);
                }
            }
            if s.contains(e) && e != r {
                let j = choose|j: int| 0 <= j < s.len() && s[j] == e;
                if j < i {
                    assert(t[j] == e);
                } else {
                    assert(j != i);
                    assert(t[j - 1] == e);
                }
            }
        }
        assert forall|e: (usize, usize)| t.contains(e) <==> (o1(e) == 1 && o1(reversed(e)) == 0) by {
            assert(s.contains(e) <==> (o(e) == 1 && o(reversed(e)) == 0));
            assert(o1(e) == o(e) + if e == x { 1nat } else { 0nat });
            assert(o1(reversed(e)) == o(reversed(e)) + if reversed(e) == x { 1nat } else { 0nat });
        }
        assert(t.no_duplicates()) by {
            assert forall|a: int, b: int| 0 <= a < b < t.len() implies t[a] != t[b] by {
                let a1 = if a < i { a } else { a + 1 };
                let b1 = if b < i { b } else { b + 1 };
                assert(t[a] == s[a1] && t[b] == s[b1]);
            }
        }
        assert forall|v: usize|
            ends_at(t, v) + (if x.0 == v {
                1int
            } else {
                0int
            }) - starts_at(t, v) == ends_at(s, v) + (if x.1 == v {
                1int
            } else {
                0int
            }) - starts_at(s, v) by {
            lemma_count_remove(s, i, |e: (usize, usize)| e.0 == v);
            lemma_count_remove(s, i, |e: (usize, usize)| e.1 == v);
        }
    } else {
        assert(t == s.push(x));
        assert forall|e: (usize, usize)| t.contains(e) <==> (s.contains(e) || e == x) by {
            if t.contains(e) {
                let j = choose|j: int| 0 <= j < t.len() && t[j] == e;
                if j < s.len() {
                    assert(s[j] == e);
                }
            }
            if s.contains(e) {
                let j = choose|j: int| 0 <= j < s.len() && s[j] == e;
                assert(t[j] == e);
            }
            if e == x {
                assert(t[s.len() as int] == e);
            }
        }
        assert forall|e: (usize, usize)| t.contains(e) <==> (o1(e) == 1 && o1(reversed(e)) == 0) by {
            assert(s.contains(e) <==> (o(e) == 1 && o(reversed(e)) == 0));
            assert(s.contains(reversed(x)) <==> (o(reversed(x)) == 1 && o(reversed(reversed(x))) == 0));
            assert(reversed(reversed(x)) == x);
            assert(o1(reversed(x)) <= 1);
            assert(o1(reversed(x)) == o(reversed(x)) + if reversed(x) == x { 1nat } else { 0nat });
            assert(o1(e) == o(e) + if e == x { 1nat } else { 0nat });
            assert(o1(reversed(e)) == o(reversed(e)) + if reversed(e) == x { 1nat } else { 0nat });
        }
        assert(t.no_duplicates()) by {
            assert forall|a: int, b: int| 0 <= a < b < t.len() implies t[a] != t[b] by {
                if b == s.len() {
                    assert(t[a] == s[a]);
                } else {
                    assert(t[a] == s[a] && t[b] == s[b]);
                }
            }
        }
        assert forall|v: usize|
            ends_at(t, v) + (if x.0 == v {
                1int
            } else {
                0int
            }) - starts_at(t, v) == ends_at(s, v) + (if x.1 == v {
                1int
            } else {
                0int
            }) - starts_at(s, v) by {
            lemma_count_push(s, x, |e: (usize, usize)| e.0 == v);
            lemma_count_push(s, x, |e: (usize, usize)| e.1 == v);
        }
    }
}

/// The boundary that expansion re-triangulates, stated directly: when no
/// directed edge is run along twice, the boundary of the visible faces among
/// the first `k` holds no edge twice, holds exactly the directed edges that
/// some visible face runs along and no visible face runs back along, and
/// enters each vertex as often as it leaves it.
pub proof fn lemma_horizon(faces: Seq<[usize; 3]>, visible: Seq<bool>, n: nat, k: nat)
    requires
        visible.len() == faces.len(),
        k <= faces.len(),
        forall|i: int| 0 <= i < faces.len() ==> face_valid(#[trigger] faces[i], n),
        forall|e: (usize, usize)| #[trigger] edge_occ(faces, e) <= 1,
    ensures
        horizon(faces, visible, k).no_duplicates(),
        forall|e: (usize, usize)|
            horizon(faces, visible, k).contains(e) <==> (edge_occ(visible_faces(faces, visible, k), e)
                == 1 && edge_occ(visible_faces(faces, visible, k), reversed(e)) == 0),
        forall|v: usize|
            #[trigger] ends_at(horizon(faces, visible, k), v) == starts_at(horizon(faces, visible, k), v),
    decreases k,
{
    if k > 0 {
        let k1 = (k - 1) as nat;
        lemma_horizon(faces, visible, n, k1);
        if visible[k1 as int] {
            let f = faces[k1 as int];
            assert(face_valid(f, n));
            let prev = visible_faces(faces, visible, k1);
            let s0 = horizon(faces, visible, k1);
            let ab = (f[0], f[1]);
            let bc = (f[1], f[2]);
            let ca = (f[2], f[0]);
            let o0 = |e: (usize, usize)| edge_occ(prev, e);
            let o1 = |e: (usize, usize)| o0(e) + if e == ab { 1nat } else { 0nat };
            let o2 = |e: (usize, usize)| o1(e) + if e == bc { 1nat } else { 0nat };
            let o3 = |e: (usize, usize)| o2(e) + if e == ca { 1nat } else { 0nat };
            assert forall|e: (usize, usize)| #[trigger] o3(e) <= 1 by {
                lemma_occ_push(prev, f, e);
                lemma_visible_bound(faces, visible, n, k, e);
            }
            assert(o3(ab) <= 1 && o3(bc) <= 1 && o3(ca) <= 1);
            assert forall|e: (usize, usize)| #[trigger] o2(e) <= 1 by {
                assert(o3(e) <= 1);
            }
            assert forall|e: (usize, usize)| #[trigger] o1(e) <= 1 by {
                assert(o3(e) <= 1);
            }
            lemma_toggle(s0, o0, o1, ab);
            let s1 = toggle_edge(s0, ab);
            lemma_toggle(s1, o1, o2, bc);
            let s2 = toggle_edge(s1, bc);
            lemma_toggle(s2, o2, o3, ca);
            let s3 = toggle_edge(s2, ca);
            assert(horizon(faces, visible, k) == s3);
            assert forall|e: (usize, usize)| edge_occ(visible_faces(faces, visible, k), e) == o3(e) by {
                lemma_occ_push(prev, f, e);
            }
            assert forall|v: usize| #[trigger] ends_at(s3, v) == starts_at(s3, v) by {
                assert(ends_at(s0, v) == starts_at(s0, v));
            }
        }
    }
}

/// How often the cone over the edges `h` runs along each directed edge.
proof fn lemma_cone_occ(h: Seq<(usize, usize)>, apex: usize, e: (usize, usize))
    requires
        forall|j: int| 0 <= j < h.len() ==> (#[trigger] h[j]).0 != apex && h[j].1 != apex,
    ensures
        edge_occ(cone(h, apex), e) == if e.0 != apex && e.1 != apex {
            copies(h, e)
        } else if e.0 != apex {
            ends_at(h, e.0)
        } else if e.1 != apex {
            starts_at(h, e.1)
        } else {
            0
        },
    decreases h.len(),
{
    if h.len() > 0 {
        let t = h.drop_last();
        assert forall|j: int| 0 <= j < t.len() implies (#[trigger] t[j]).0 != apex && t[j].1 != apex by {
            assert(t[j] == h[j]);
        }
        lemma_cone_occ(t, apex, e);
        let l = h.last();
        assert(h[h.len() - 1] == l);
        assert(cone(h, apex).drop_last() =~= cone(t, apex));
        assert(cone(h, apex).last() == [l.0, l.1, apex]);
    }
}

/// The four faces of the starting tetrahedron form a closed surface.
pub proof fn lemma_tetrahedron_closed()
    ensures
        closed_surface(seq![[0usize, 1, 2], [1usize, 0, 3], [0usize, 2, 3], [2usize, 1, 3]]),
{
    let faces = seq![[0usize, 1, 2], [1usize, 0, 3], [0usize, 2, 3], [2usize, 1, 3]];
    assert forall|e: (usize, usize)|
        #[trigger] edge_occ(faces, e) <= 1 && edge_occ(faces, e) == edge_occ(faces, reversed(e)) by {
        assert(faces.drop_last().drop_last().drop_last().drop_last() =~= Seq::<[usize; 3]>::empty());
        reveal_with_fuel(edge_occ, 5);
    }
}

/// Expansion keeps a closed surface closed: if every directed edge of the
/// faces is run along at most once and as often as its reverse, and the
/// boundary of the visible faces leaves each vertex at most once (a simple
/// loop), then the faces that stay together with the new cone over that
/// boundary again run along each directed edge at most once and as often as
/// its reverse.
pub proof fn lemma_expand_keeps_surface_closed(faces: Seq<[usize; 3]>, visible: Seq<bool>, n: nat)
    requires
        visible.len() == faces.len(),
        n <= usize::MAX,
        forall|i: int| 0 <= i < faces.len() ==> face_valid(#[trigger] faces[i], n),
        closed_surface(faces),
        forall|v: usize| #[trigger] starts_at(horizon(faces, visible, faces.len()), v) <= 1,
    ensures
        closed_surface(
            hidden_faces(faces, visible, faces.len()) + cone(
                horizon(faces, visible, faces.len()),
                n as usize,
            ),
        ),
{
    let len = faces.len();
    let apex = n as usize;
    let h = horizon(faces, visible, len);
    let hid = hidden_faces(faces, visible, len);
    let vis = visible_faces(faces, visible, len);
    let after = hid + cone(h, apex);
    assert forall|e: (usize, usize)| #[trigger] edge_occ(faces, e) <= 1 by {}
    lemma_horizon(faces, visible, n, len);
    assert(faces.subrange(0, len as int) =~= faces);
    lemma_split(faces, visible, n, len, (0, 0));
    assert forall|j: int| 0 <= j < h.len() implies (#[trigger] h[j]).0 != apex && h[j].1 != apex by {
        assert(h.contains(h[j]));
        lemma_occ_valid(vis, n, h[j]);
    }
    assert forall|e: (usize, usize)|
        #[trigger] edge_occ(after, e) <= 1 && edge_occ(after, e) == edge_occ(after, reversed(e)) by {
        let r = reversed(e);
        lemma_occ_concat(hid, cone(h, apex), e);
        lemma_occ_concat(hid, cone(h, apex), r);
        lemma_split(faces, visible, n, len, e);
        lemma_split(faces, visible, n, len, r);
        lemma_cone_occ(h, apex, e);
        lemma_cone_occ(h, apex, r);
        lemma_copies(h, e);
        lemma_copies(h, r);
        assert(edge_occ(faces, e) <= 1 && edge_occ(faces, e) == edge_occ(faces, r));
        if e.0 == apex || e.1 == apex {
            if edge_occ(hid, e) > 0 {
                lemma_occ_valid(hid, n, e);
            }
            if edge_occ(hid, r) > 0 {
                lemma_occ_valid(hid, n, r);
            }
            assert(ends_at(h, e.0) == starts_at(h, e.0));
            assert(ends_at(h, e.1) == starts_at(h, e.1));
            assert(starts_at(h, e.0) <= 1);
            assert(starts_at(h, e.1) <= 1);
        }
    }
}

} // verus!
