use xpbd_core::clipping::{clip, ClipPoint, Side};

#[test]
fn clip_inside_polygon_is_unchanged() {
    let sides = vec![Side::Above, Side::Above, Side::Above, Side::Above];
    let expected = vec![
        ClipPoint::Vertex(0),
        ClipPoint::Vertex(1),
        ClipPoint::Vertex(2),
        ClipPoint::Vertex(3),
    ];
    assert_eq!(clip(&sides, true), expected);
    assert_eq!(clip(&sides, false), expected);
}

#[test]
fn clip_touching_polygon_is_unchanged() {
    let sides = vec![Side::On, Side::Above, Side::On];
    let expected = vec![ClipPoint::Vertex(0), ClipPoint::Vertex(1), ClipPoint::Vertex(2)];
    assert_eq!(clip(&sides, true), expected);
}

#[test]
fn clip_outside_polygon_is_empty() {
    let sides = vec![Side::Below, Side::Below, Side::Below];
    assert!(clip(&sides, true).is_empty());
    assert!(clip(&sides, false).is_empty());
}

#[test]
fn clip_polygon_on_plane_is_empty() {
    let sides = vec![Side::On, Side::On, Side::On];
    assert!(clip(&sides, true).is_empty());
}

#[test]
fn clip_empty_polygon() {
    assert!(clip(&Vec::new(), true).is_empty());
}

#[test]
fn clip_single_vertex() {
    assert_eq!(clip(&vec![Side::Above], true), vec![ClipPoint::Vertex(0)]);
    assert!(clip(&vec![Side::Below], true).is_empty());
}

#[test]
fn clip_straddling_square_keeps_crossings() {
    let sides = vec![Side::Above, Side::Above, Side::Below, Side::Below];
    assert_eq!(
        clip(&sides, true),
        vec![
            ClipPoint::Vertex(0),
            ClipPoint::Vertex(1),
            ClipPoint::Crossing(1, 2),
            ClipPoint::Crossing(3, 0),
        ]
    );
}

#[test]
fn clip_straddling_square_without_crossings() {
    let sides = vec![Side::Below, Side::Above, Side::Above, Side::Below];
    assert_eq!(clip(&sides, false), vec![ClipPoint::Vertex(1), ClipPoint::Vertex(2)]);
}

#[test]
fn clip_interpolates_crossing_points() {
    // A unit square in the xy-plane clipped against the plane x = 0.25, keeping x >= 0.25.
    let square: Vec<[f32; 2]> = vec![[0.0, 0.0], [1.0, 0.0], [1.0, 1.0], [0.0, 1.0]];
    let dots: Vec<f32> = square.iter().map(|p| p[0] - 0.25).collect();
    let sides: Vec<Side> = dots
        .iter()
        .map(|d| if *d > 0.0 { Side::Above } else if *d < 0.0 { Side::Below } else { Side::On })
        .collect();
    let points: Vec<[f32; 2]> = clip(&sides, true)
        .into_iter()
        .map(|c| match c {
            ClipPoint::Vertex(i) => square[i],
            ClipPoint::Crossing(i, j) => {
                let (di, dj) = (dots[i].abs(), dots[j].abs());
                [
                    (square[i][0] * dj + square[j][0] * di) / (di + dj),
                    (square[i][1] * dj + square[j][1] * di) / (di + dj),
                ]
            }
        })
        .collect();
    assert_eq!(points, vec![[0.25, 0.0], [1.0, 0.0], [1.0, 1.0], [0.25, 1.0]]);
}
