use xpbd_core::broad_phase::candidate_pairs;
use xpbd_core::manifold::{cube_faces, face_edges, faces_containing, side_planes};

#[test]
fn all_pairs_in_lexicographic_order() {
    assert_eq!(
        candidate_pairs(4),
        vec![(0, 1), (0, 2), (0, 3), (1, 2), (1, 3), (2, 3)]
    );
}

#[test]
fn no_pairs_below_two_colliders() {
    assert!(candidate_pairs(0).is_empty());
    assert!(candidate_pairs(1).is_empty());
    assert_eq!(candidate_pairs(2), vec![(0, 1)]);
}

#[test]
fn cube_has_six_quads() {
    let faces = cube_faces();
    assert_eq!(faces.len(), 6);
    assert_eq!(faces[0], vec![1, 5, 4, 0]);
    assert_eq!(faces[5], vec![6, 7, 3, 2]);
    for v in 0..8 {
        assert_eq!(faces.iter().filter(|f| f.contains(&v)).count(), 3);
    }
}

#[test]
fn edges_wrap_around_the_face() {
    assert_eq!(face_edges(&vec![0, 4, 5, 1]), vec![(0, 4), (4, 5), (5, 1), (1, 0)]);
    assert_eq!(face_edges(&vec![7]), vec![(7, 7)]);
}

#[test]
fn faces_at_a_cube_corner() {
    let faces = cube_faces();
    assert_eq!(faces_containing(&faces, 0), vec![0, 1, 3]);
    assert_eq!(faces_containing(&faces, 7), vec![2, 4, 5]);
    assert!(faces_containing(&faces, 8).is_empty());
}

#[test]
fn side_planes_of_cube_face() {
    let faces = cube_faces();
    assert_eq!(side_planes(&faces, 0), vec![(1, 2), (5, 4), (4, 3), (0, 1)]);
    assert_eq!(side_planes(&faces, 4), vec![(5, 2), (7, 5), (6, 3), (4, 0)]);
}

#[test]
fn side_planes_skip_copies_of_reference() {
    let faces = vec![vec![0, 1, 2], vec![0, 1, 2], vec![2, 1, 3]];
    assert_eq!(side_planes(&faces, 0), vec![(1, 2)]);
}

#[test]
fn cube_faces_wind_outward() {
    let corner = |i: usize| -> [f32; 3] {
        [
            if i < 4 { 0.5 } else { -0.5 },
            if i % 4 < 2 { 0.5 } else { -0.5 },
            if i % 2 == 0 { 0.5 } else { -0.5 },
        ]
    };
    for face in cube_faces() {
        let (p, q, r) = (corner(face[0]), corner(face[1]), corner(face[2]));
        let u = [q[0] - p[0], q[1] - p[1], q[2] - p[2]];
        let w = [r[0] - p[0], r[1] - p[1], r[2] - p[2]];
        let n = [u[1] * w[2] - u[2] * w[1], u[2] * w[0] - u[0] * w[2], u[0] * w[1] - u[1] * w[0]];
        assert!(n[0] * p[0] + n[1] * p[1] + n[2] * p[2] > 0.0);
    }
}

#[test]
fn cube_edges_run_both_ways_once() {
    let faces = cube_faces();
    let edges: Vec<(usize, usize)> = faces.iter().flat_map(|f| face_edges(f)).collect();
    assert_eq!(edges.len(), 24);
    for &(a, b) in &edges {
        assert_eq!(edges.iter().filter(|&&e| e == (a, b)).count(), 1);
        assert_eq!(edges.iter().filter(|&&e| e == (b, a)).count(), 1);
    }
}
