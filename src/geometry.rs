//! Points, polygons and the signed distances between them.
use vstd::prelude::*;

verus! {

/// Smallest and largest coordinate a point may hold.
pub open spec fn coord_ok(v: int) -> bool {
    i32::MIN <= v <= i32::MAX
}

/// A point, or a vector, in 3D space with integer coordinates.
#[derive(Clone, Copy, Debug)]
pub struct Point3 {
    pub x: i32,
    pub y: i32,
    pub z: i32,
}

/// Dot product of two vectors.
pub open spec fn dot(a: Point3, b: Point3) -> int {
    a.x * b.x + a.y * b.y + a.z * b.z
}

impl Point3 {
    /// Builds a point from its coordinates.
    pub fn new(x: i32, y: i32, z: i32) -> (r: Point3)
        ensures
            r.x == x,
            r.y == y,
            r.z == z,
    {
        Point3 { x, y, z }
    }

    /// The origin.
    pub fn zero() -> (r: Point3)
        ensures
            r.x == 0,
            r.y == 0,
            r.z == 0,
    {
        Point3 { x: 0, y: 0, z: 0 }
    }

    /// Dot product with another vector, computed without loss.
    pub fn dot(&self, other: &Point3) -> (r: i128)
        ensures
            r == dot(*self, *other),
    {
        let (ax, ay, az) = (self.x as i128, self.y as i128, self.z as i128);
        let (bx, by, bz) = (other.x as i128, other.y as i128, other.z as i128);
        proof {
            lemma_product_bound(ax as int, bx as int);
            lemma_product_bound(ay as int, by as int);
            lemma_product_bound(az as int, bz as int);
        }
        ax * bx + ay * by + az * bz
    }
}

/// The product of two coordinates stays within 2^62 in magnitude.
pub proof fn lemma_product_bound(a: int, b: int)
    requires
        coord_ok(a),
        coord_ok(b),
    ensures
        -0x4000_0000_0000_0000 <= a * b <= 0x4000_0000_0000_0000,
{
    assert(-0x8000_0000 <= a <= 0x8000_0000 && -0x8000_0000 <= b <= 0x8000_0000);
    assert(-0x4000_0000_0000_0000 <= a * b <= 0x4000_0000_0000_0000) by (nonlinear_arith)
        requires
            -0x8000_0000 <= a <= 0x8000_0000,
            -0x8000_0000 <= b <= 0x8000_0000,
    ;
}

/// A dot product stays within 2^64 in magnitude.
pub proof fn lemma_dot_bound(a: Point3, b: Point3)
    ensures
        -0x1_0000_0000_0000_0000 <= dot(a, b) <= 0x1_0000_0000_0000_0000,
{
    lemma_product_bound(a.x as int, b.x as int);
    lemma_product_bound(a.y as int, b.y as int);
    lemma_product_bound(a.z as int, b.z as int);
}

/// A signed distance stays within 2^65 in magnitude.
pub proof fn lemma_distance_bound(plane: Polygon, p: Point3)
    ensures
        -0x2_0000_0000_0000_0000 <= distance_to(plane, p) <= 0x2_0000_0000_0000_0000,
{
    lemma_dot_bound(plane.normal, p);
}

/// A convex planar quadrilateral: four points, the normal of its plane, the
/// plane's offset along that normal (`dot(normal, p) == offset` on the plane),
/// and an anchor that ties fragments back to the polygon they came from.
#[derive(Clone, Copy, Debug)]
pub struct Polygon {
    pub points: [Point3; 4],
    pub normal: Point3,
    pub offset: i64,
    pub anchor: usize,
}

/// Signed distance of a point from the plane of `plane`, scaled by the length
/// of its normal: positive on the side the normal points to.
pub open spec fn distance_to(plane: Polygon, p: Point3) -> int {
    dot(plane.normal, p) - plane.offset
}

/// Sum of the signed distances of the vertices of `other` from the plane of
/// `plane`.
pub open spec fn distance_sum(plane: Polygon, other: Polygon) -> int {
    distance_to(plane, other.points@[0]) + distance_to(plane, other.points@[1])
        + distance_to(plane, other.points@[2]) + distance_to(plane, other.points@[3])
}

/// Every vertex lies on the polygon's own plane.
pub open spec fn on_own_plane(p: Polygon) -> bool {
    forall|i: int| 0 <= i < 4 ==> #[trigger] distance_to(p, p.points@[i]) == 0
}

impl Polygon {
    /// Builds a polygon from its parts.
    pub fn new(points: [Point3; 4], normal: Point3, offset: i64, anchor: usize) -> (r: Polygon)
        ensures
            r.points@ == points@,
            r.normal == normal,
            r.offset == offset,
            r.anchor == anchor,
    {
        Polygon { points, normal, offset, anchor }
    }

    /// Signed distance of `point` from this polygon's plane.
    pub fn signed_distance_to(&self, point: &Point3) -> (r: i128)
        ensures
            r == distance_to(*self, *point),
    {
        proof {
            lemma_dot_bound(self.normal, *point);
        }
        self.normal.dot(point) - self.offset as i128
    }

    /// Sum of the signed distances of the vertices of `other` from this
    /// polygon's plane: its sign tells on which side `other` lies.
    pub fn signed_distance_sum_to(&self, other: &Polygon) -> (r: i128)
        ensures
            r == distance_sum(*self, *other),
    {
        let d0 = self.signed_distance_to(&other.points[0]);
        let d1 = self.signed_distance_to(&other.points[1]);
        let d2 = self.signed_distance_to(&other.points[2]);
        let d3 = self.signed_distance_to(&other.points[3]);
        proof {
            lemma_distance_bound(*self, other.points@[0]);
            lemma_distance_bound(*self, other.points@[1]);
            lemma_distance_bound(*self, other.points@[2]);
            lemma_distance_bound(*self, other.points@[3]);
        }
        d0 + d1 + d2 + d3
    }
}

} // verus!
