use xpbd_core::polytope::Polytope;
use xpbd_core::simplex::Simplex;

type P = [f32; 3];

fn sub(a: P, b: P) -> P {
    [a[0] - b[0], a[1] - b[1], a[2] - b[2]]
}

fn cross(a: P, b: P) -> P {
    [a[1] * b[2] - a[2] * b[1], a[2] * b[0] - a[0] * b[2], a[0] * b[1] - a[1] * b[0]]
}

fn dot(a: P, b: P) -> f32 {
    a[0] * b[0] + a[1] * b[1] + a[2] * b[2]
}

fn normal(v: &[P], f: [usize; 3]) -> P {
    cross(sub(v[f[1]], v[f[0]]), sub(v[f[2]], v[f[0]]))
}

fn centroid(v: &[P]) -> P {
    let n = v.len() as f32;
    let s = v.iter().fold([0.0; 3], |s, p| [s[0] + p[0], s[1] + p[1], s[2] + p[2]]);
    [s[0] / n, s[1] / n, s[2] / n]
}

fn all_outward(p: &Polytope<P, P>) -> bool {
    let v = p.vertices();
    let c = centroid(v);
    p.faces().iter().all(|f| {
        let fc = centroid(&[v[f[0]], v[f[1]], v[f[2]]]);
        dot(normal(v, *f), sub(fc, c)) > 0.0
    })
}

fn closed(p: &Polytope<P, P>) -> bool {
    let edges: Vec<(usize, usize)> = p
        .faces()
        .iter()
        .flat_map(|f| [(f[0], f[1]), (f[1], f[2]), (f[2], f[0])])
        .collect();
    edges.iter().all(|&(a, b)| {
        edges.iter().filter(|&&e| e == (a, b)).count() == 1
            && edges.iter().filter(|&&e| e == (b, a)).count() == 1
    })
}

fn tetra(a: P, b: P, c: P, d: P) -> Simplex<P, P> {
    Simplex::Tetrahedron(a, b, c, d, a, b, c, d)
}

fn signed_volume_negative(a: P, b: P, c: P, d: P) -> bool {
    dot(sub(a, b), cross(sub(a, c), sub(a, d))) < 0.0
}

#[test]
fn only_tetrahedra_make_polytopes() {
    let s: Simplex<P, P> = Simplex::Triangle([0.0; 3], [1.0, 0.0, 0.0], [0.0, 1.0, 0.0], [0.0; 3], [0.0; 3], [0.0; 3]);
    assert!(Polytope::from_simplex(s, false).is_none());
}

#[test]
fn tetrahedron_faces_and_swap() {
    let (a, b, c, d) = ([1.0, 0.0, 0.0], [0.0, 1.0, 0.0], [0.0, 0.0, 1.0], [0.0, 0.0, 0.0]);
    let p = Polytope::from_simplex(tetra(a, b, c, d), false).unwrap();
    assert_eq!(p.faces(), &vec![[0, 1, 2], [1, 0, 3], [0, 2, 3], [2, 1, 3]]);
    assert_eq!(p.vertices(), &vec![a, b, c, d]);
    let q = Polytope::from_simplex(tetra(a, b, c, d), true).unwrap();
    assert_eq!(q.vertices(), &vec![b, a, c, d]);
    assert_eq!(q.dirs(), &vec![b, a, c, d]);
}

#[test]
fn expand_one_visible_face() {
    let (a, b, c, d) = ([1.0, 0.0, 0.0], [0.0, 1.0, 0.0], [0.0, 0.0, 1.0], [0.0, 0.0, 0.0]);
    let mut p = Polytope::from_simplex(tetra(a, b, c, d), false).unwrap();
    let first = p.expand([1.0, 1.0, 1.0], [1.0, 1.0, 1.0], &vec![true, false, false, false]);
    assert_eq!(first, 3);
    assert_eq!(
        p.faces(),
        &vec![[1, 0, 3], [0, 2, 3], [2, 1, 3], [0, 1, 4], [1, 2, 4], [2, 0, 4]]
    );
    assert_eq!(p.vertices().len(), 5);
    assert_eq!(p.dirs()[4], [1.0, 1.0, 1.0]);
}

#[test]
fn expand_cancels_shared_edges() {
    let (a, b, c, d) = ([1.0, 0.0, 0.0], [0.0, 1.0, 0.0], [0.0, 0.0, 1.0], [0.0, 0.0, 0.0]);
    let mut p = Polytope::from_simplex(tetra(a, b, c, d), false).unwrap();
    let first = p.expand([2.0, 2.0, 2.0], [0.0, 0.0, 1.0], &vec![true, true, false, false]);
    assert_eq!(first, 2);
    assert_eq!(
        p.faces(),
        &vec![[0, 2, 3], [2, 1, 3], [1, 2, 4], [2, 0, 4], [0, 3, 4], [3, 1, 4]]
    );
}

#[test]
fn flip_face_swaps_first_corners() {
    let (a, b, c, d) = ([1.0, 0.0, 0.0], [0.0, 1.0, 0.0], [0.0, 0.0, 1.0], [0.0, 0.0, 0.0]);
    let mut p = Polytope::from_simplex(tetra(a, b, c, d), false).unwrap();
    p.flip_face(2);
    assert_eq!(p.faces()[2], [2, 0, 3]);
    assert_eq!(p.faces()[1], [1, 0, 3]);
}

#[test]
fn expansion_keeps_faces_outward() {
    let a: P = [1.0, -1.0, -1.0];
    let b: P = [-1.0, 1.0, -1.0];
    let c: P = [-1.0, -1.0, 1.0];
    let d: P = [1.0, 1.0, 1.0];
    let inward = signed_volume_negative(a, b, c, d);
    let mut p = Polytope::from_simplex(tetra(a, b, c, d), inward).unwrap();
    assert!(all_outward(&p));
    assert!(closed(&p));
    for step in 0..3 {
        let v = p.vertices().clone();
        let f = p.faces()[step % p.faces().len()];
        let n = normal(&v, f);
        let fc = centroid(&[v[f[0]], v[f[1]], v[f[2]]]);
        let len = dot(n, n).sqrt();
        let new_point = [fc[0] + 0.3 * n[0] / len, fc[1] + 0.3 * n[1] / len, fc[2] + 0.3 * n[2] / len];
        let visible: Vec<bool> = p
            .faces()
            .iter()
            .map(|g| dot(normal(&v, *g), sub(new_point, v[g[0]])) > 0.0)
            .collect();
        let first = p.expand(new_point, n, &visible);
        for k in first..p.faces().len() {
            let g = p.faces()[k];
            if dot(normal(p.vertices(), g), n) < 0.0 {
                p.flip_face(k);
            }
        }
        assert!(all_outward(&p));
        assert!(closed(&p));
    }
}

#[test]
fn duplicate_points_in_simplex() {
    let s: Simplex<P, P> = Simplex::Line([1.0, 0.0, 0.0], [1.0, 0.0, 0.0], [0.0; 3], [0.0; 3]);
    assert!(s.is_dup());
    let s: Simplex<P, P> = Simplex::Line([1.0, 0.0, 0.0], [0.0, 1.0, 0.0], [0.0; 3], [0.0; 3]);
    assert!(!s.is_dup());
    let s: Simplex<P, P> = Simplex::Point([0.0; 3], [0.0; 3]);
    assert!(!s.is_dup());
    let s: Simplex<P, P> = Simplex::Tetrahedron([0.0; 3], [1.0, 0.0, 0.0], [0.0, 1.0, 0.0], [1.0, 0.0, 0.0], [0.0; 3], [0.0; 3], [0.0; 3], [0.0; 3]);
    assert!(s.is_dup());
    let s: Simplex<P, P> = Simplex::Triangle([0.0; 3], [0.0; 3], [0.0, 1.0, 0.0], [0.0; 3], [0.0; 3], [0.0; 3]);
    assert!(s.is_dup());
    let s: Simplex<P, P> = Simplex::Triangle([0.0; 3], [1.0, 0.0, 0.0], [0.0, 1.0, 0.0], [0.0; 3], [0.0; 3], [0.0; 3]);
    assert!(!s.is_dup());
    let s: Simplex<P, P> = Simplex::Tetrahedron([0.0; 3], [1.0, 0.0, 0.0], [1.0, 0.0, 0.0], [0.0, 0.0, 1.0], [0.0; 3], [0.0; 3], [0.0; 3], [0.0; 3]);
    assert!(s.is_dup());
    let s: Simplex<P, P> = Simplex::Tetrahedron([0.0; 3], [1.0, 0.0, 0.0], [0.0, 1.0, 0.0], [0.0, 0.0, 1.0], [0.0; 3], [0.0; 3], [0.0; 3], [0.0; 3]);
    assert!(!s.is_dup());
}
