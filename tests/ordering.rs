use plane_split::geometry::{Point3, Polygon};
use plane_split::plane::PolygonCut;
use plane_split::splitter::{order_all, BspSplitter};

fn p(x: i32, y: i32, z: i32) -> Point3 {
    Point3::new(x, y, z)
}

fn square_z(z: i32, anchor: usize) -> Polygon {
    Polygon::new([p(0, 0, z), p(1, 0, z), p(1, 1, z), p(0, 1, z)], p(0, 0, 1), z as i64, anchor)
}

fn anchors(v: &[Polygon]) -> Vec<usize> {
    v.iter().map(|q| q.anchor).collect()
}

#[test]
fn parallel_squares_order_follows_view() {
    let mut s = BspSplitter::new();
    s.add(square_z(0, 1));
    s.add(square_z(1, 2));
    assert_eq!(anchors(s.sort(p(0, 0, 1))), vec![2, 1]);
    assert_eq!(anchors(s.sort(p(0, 0, -1))), vec![1, 2]);
}

#[test]
fn edge_sharing_squares_keep_their_anchors() {
    // One square on z = 0, the other on x = 0, sharing the edge x = 0, z = 0.
    let floor = square_z(0, 1);
    let wall = Polygon::new([p(0, 0, 0), p(0, 1, 0), p(0, 1, 1), p(0, 0, 1)], p(1, 0, 0), 0, 2);
    let mut s = BspSplitter::new();
    s.add(floor);
    s.add(wall);
    let out = anchors(s.sort(p(1, 1, 1)));
    assert_eq!(out.len(), 2);
    let mut sorted = out.clone();
    sorted.sort();
    assert_eq!(sorted, vec![1, 2]);
}

#[test]
fn every_polygon_comes_out_once() {
    let polys: Vec<Polygon> = (0..6).map(|i| square_z(3 * i - 7, i as usize + 10)).collect();
    let out = order_all(&polys, p(0, 1, 2));
    assert_eq!(out.len(), 6);
    let mut got = anchors(&out);
    got.sort();
    assert_eq!(got, vec![10, 11, 12, 13, 14, 15]);
    // Farthest along the view direction first.
    assert_eq!(anchors(&out), vec![15, 14, 13, 12, 11, 10]);
}

#[test]
fn empty_and_reset_give_nothing() {
    let mut s = BspSplitter::new();
    assert!(s.sort(p(0, 0, 1)).is_empty());
    s.add(square_z(0, 1));
    assert_eq!(s.sort(p(0, 0, 1)).len(), 1);
    s.reset();
    assert!(s.sort(p(0, 0, 1)).is_empty());
}

#[test]
fn repeated_sort_is_not_cumulative() {
    let mut s = BspSplitter::new();
    s.add(square_z(0, 1));
    s.add(square_z(2, 2));
    assert_eq!(s.sort(p(0, 0, 1)).len(), 2);
    assert_eq!(s.sort(p(0, 0, 1)).len(), 2);
}

#[test]
fn coplanar_squares_share_a_node() {
    let mut s = BspSplitter::new();
    s.add(square_z(0, 1));
    s.add(square_z(0, 2));
    s.add(square_z(5, 3));
    assert_eq!(anchors(s.sort(p(0, 0, 1))), vec![3, 1, 2]);
    assert_eq!(anchors(s.sort(p(0, 0, -1))), vec![1, 2, 3]);
}

#[test]
fn crossing_square_is_handed_on_whole() {
    // The second square stands in the plane x = 1 and reaches from z = -1 to z = 3.
    let floor = Polygon::new([p(0, 0, 0), p(2, 0, 0), p(2, 2, 0), p(0, 2, 0)], p(0, 0, 1), 0, 1);
    let wall = Polygon::new([p(1, 0, -1), p(1, 2, -1), p(1, 2, 3), p(1, 0, 3)], p(1, 0, 0), 1, 2);
    let mut s = BspSplitter::new();
    s.add(floor);
    s.add(wall);
    // The wall's distance sum from the floor is positive, so it is drawn first.
    assert_eq!(anchors(s.sort(p(0, 0, 1))), vec![2, 1]);
    assert_eq!(anchors(s.sort(p(0, 0, -1))), vec![1, 2]);
}

#[test]
fn tree_cut_keeps_crossing_polygon_whole() {
    let floor = Polygon::new([p(0, 0, 0), p(2, 0, 0), p(2, 2, 0), p(0, 2, 0)], p(0, 0, 1), 0, 1);
    let low_wall = Polygon::new([p(1, 0, -3), p(1, 2, -3), p(1, 2, 1), p(1, 0, 1)], p(1, 0, 0), 1, 2);
    match floor.tree_cut(low_wall) {
        PolygonCut::Cut { front, back } => {
            assert!(front.is_empty());
            assert_eq!(anchors(&back), vec![2]);
        }
        _ => panic!("expected a cut"),
    }
    match floor.tree_cut(square_z(0, 3)) {
        PolygonCut::Sibling(s) => assert_eq!(s.anchor, 3),
        _ => panic!("expected a sibling"),
    }
    match floor.tree_cut(square_z(2, 4)) {
        PolygonCut::Cut { front, back } => {
            assert_eq!(anchors(&front), vec![4]);
            assert!(back.is_empty());
        }
        _ => panic!("expected a cut"),
    }
}

#[test]
fn scaled_view_gives_same_order() {
    let mut s = BspSplitter::new();
    s.add(square_z(0, 1));
    s.add(square_z(1, 2));
    s.add(square_z(-2, 3));
    let a = anchors(s.sort(p(0, 1, 1)));
    let b = anchors(s.sort(p(0, 5, 5)));
    assert_eq!(a, vec![2, 1, 3]);
    assert_eq!(a, b);
    assert_eq!(anchors(s.sort(p(0, 0, -1))), vec![3, 1, 2]);
}
