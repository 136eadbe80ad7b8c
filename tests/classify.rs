use plane_split::geometry::{Point3, Polygon};
use plane_split::plane::{Intersection, PolygonCut};

fn p(x: i32, y: i32, z: i32) -> Point3 {
    Point3::new(x, y, z)
}

/// A square of side `s` in the plane z = `z`, facing +z.
fn square_z(z: i32, s: i32, anchor: usize) -> Polygon {
    Polygon::new([p(0, 0, z), p(s, 0, z), p(s, s, z), p(0, s, z)], p(0, 0, 1), z as i64, anchor)
}

fn anchors(v: &[Polygon]) -> Vec<usize> {
    v.iter().map(|q| q.anchor).collect()
}

#[test]
fn dot_product_value() {
    assert_eq!(p(1, 2, 3).dot(&p(4, -5, 6)), 12);
    assert_eq!(p(i32::MIN, i32::MIN, i32::MIN).dot(&p(i32::MIN, i32::MIN, i32::MIN)), 3 * (1i128 << 62));
}

#[test]
fn signed_distances_values() {
    let a = square_z(0, 1, 1);
    assert_eq!(a.signed_distance_to(&p(5, 5, 3)), 3);
    assert_eq!(a.signed_distance_to(&p(5, 5, -2)), -2);
    let b = square_z(2, 1, 2);
    assert_eq!(a.signed_distance_sum_to(&b), 8);
    assert_eq!(b.signed_distance_sum_to(&a), -8);
    assert_eq!(a.signed_distance_sum_to(&a), 0);
}

#[test]
fn intersect_kinds() {
    let a = square_z(0, 2, 1);
    let above = square_z(3, 2, 2);
    assert!(matches!(a.intersect(&above), Intersection::Outside));
    let same = Polygon::new([p(2, 2, 0), p(0, 2, 0), p(0, 0, 0), p(2, 0, 0)], p(0, 0, 1), 0, 2);
    assert!(matches!(a.intersect(&same), Intersection::Coplanar));
    // A square in the plane x = 1, reaching from z = -1 to z = 1.
    let crossing = Polygon::new([p(1, 0, -1), p(1, 2, -1), p(1, 2, 1), p(1, 0, 1)], p(1, 0, 0), 1, 3);
    assert!(matches!(a.intersect(&crossing), Intersection::Inside(())));
}

#[test]
fn cut_same_points_is_sibling() {
    let a = square_z(0, 1, 1);
    let b = Polygon::new([p(1, 1, 0), p(0, 1, 0), p(0, 0, 0), p(1, 0, 0)], p(0, 0, 1), 0, 2);
    assert!(matches!(a.intersect(&b), Intersection::Coplanar));
    match a.cut(b, Intersection::Coplanar) {
        PolygonCut::Sibling(s) => assert_eq!(s.anchor, 2),
        _ => panic!("expected a sibling"),
    }
}

#[test]
fn cut_outside_goes_whole_by_sign() {
    let a = square_z(0, 1, 1);
    match a.cut(square_z(1, 1, 2), Intersection::Outside) {
        PolygonCut::Cut { front, back } => {
            assert_eq!(anchors(&front), vec![2]);
            assert!(back.is_empty());
        }
        _ => panic!("expected a cut"),
    }
    match a.cut(square_z(-1, 1, 3), Intersection::Outside) {
        PolygonCut::Cut { front, back } => {
            assert!(front.is_empty());
            assert_eq!(anchors(&back), vec![3]);
        }
        _ => panic!("expected a cut"),
    }
}

#[test]
fn cut_parallel_offset_plane_goes_by_sign() {
    let a = square_z(0, 1, 1);
    match a.cut(square_z(4, 1, 2), Intersection::Coplanar) {
        PolygonCut::Cut { front, back } => {
            assert_eq!(anchors(&front), vec![2]);
            assert!(back.is_empty());
        }
        _ => panic!("expected a cut"),
    }
}

#[test]
fn cut_inside_sorts_each_fragment() {
    let a = square_z(0, 1, 1);
    let first = square_z(2, 1, 7);
    let second = square_z(-3, 1, 7);
    let third = square_z(5, 1, 7);
    match a.cut(first, Intersection::Inside((Some(second), Some(third)))) {
        PolygonCut::Cut { front, back } => {
            assert_eq!(front.len(), 2);
            assert_eq!(front[0].points[0].z, 2);
            assert_eq!(front[1].points[0].z, 5);
            assert_eq!(back.len(), 1);
            assert_eq!(back[0].points[0].z, -3);
        }
        _ => panic!("expected a cut"),
    }
    match a.cut(square_z(-1, 1, 8), Intersection::Inside((None, None))) {
        PolygonCut::Cut { front, back } => {
            assert!(front.is_empty());
            assert_eq!(anchors(&back), vec![8]);
        }
        _ => panic!("expected a cut"),
    }
}

#[test]
fn cut_zero_sum_goes_back() {
    let a = square_z(0, 1, 1);
    let on_plane = square_z(0, 1, 2);
    match a.cut(on_plane, Intersection::Outside) {
        PolygonCut::Cut { front, back } => {
            assert!(front.is_empty());
            assert_eq!(anchors(&back), vec![2]);
        }
        _ => panic!("expected a cut"),
    }
}

#[test]
fn alignment_is_symmetric() {
    let a = square_z(0, 1, 1);
    let tilted = Polygon::new([p(0, 0, 0); 4], p(1, 0, 1), 0, 2);
    let down = Polygon::new([p(0, 0, 0); 4], p(0, 0, -1), 0, 3);
    let side = Polygon::new([p(0, 0, 0); 4], p(1, 0, 0), 0, 4);
    assert!(a.is_aligned(&a));
    assert!(a.is_aligned(&tilted) && tilted.is_aligned(&a));
    assert!(!a.is_aligned(&down) && !down.is_aligned(&a));
    assert!(!a.is_aligned(&side) && !side.is_aligned(&a));
}
