//! Classification of one polygon against the plane of another.
use vstd::prelude::*;
use vstd::multiset::Multiset;
use crate::geometry::{
    distance_sum, distance_to, dot, lemma_product_bound, on_own_plane, Point3, Polygon,
};

verus! {

broadcast use vstd::seq_lib::group_seq_properties;

/// How the plane of one polygon meets another polygon.
#[derive(Debug)]
pub enum Intersection<L> {
    /// The two polygons lie on parallel planes.
    Coplanar,
    /// The other polygon lies wholly on one side of the plane.
    Outside,
    /// The plane passes through the other polygon; the payload carries what
    /// the split along the line of intersection needs or gave.
    Inside(L),
}

/// The fragments that splitting a polygon along a line adds to the polygon
/// itself, which the split turns into the first fragment.
pub type Fragments = (Option<Polygon>, Option<Polygon>);

/// The outcome of classifying a polygon against the plane of another.
#[derive(Debug)]
pub enum PolygonCut {
    /// The polygon lies on the same plane, and is handed back whole.
    Sibling(Polygon),
    /// The polygon, possibly in several fragments, split by side.
    Cut { front: Vec<Polygon>, back: Vec<Polygon> },
}

/// What a `PolygonCut` holds, with its lists as sequences.
pub enum CutView {
    Sibling(Polygon),
    Cut(Seq<Polygon>, Seq<Polygon>),
}

impl View for PolygonCut {
    type V = CutView;

    open spec fn view(&self) -> CutView {
        match self {
            PolygonCut::Sibling(p) => CutView::Sibling(*p),
            PolygonCut::Cut { front, back } => CutView::Cut(front@, back@),
        }
    }
}

/// A fragment goes to the front when its distance sum from `plane` is positive.
pub open spec fn in_front_of(plane: Polygon) -> spec_fn(Polygon) -> bool {
    |p: Polygon| distance_sum(plane, p) > 0
}

/// A fragment goes to the back when its distance sum from `plane` is not positive.
pub open spec fn behind(plane: Polygon) -> spec_fn(Polygon) -> bool {
    |p: Polygon| distance_sum(plane, p) <= 0
}

/// `s` followed by the fragment in `o`, if there is one.
pub open spec fn push_opt(s: Seq<Polygon>, o: Option<Polygon>) -> Seq<Polygon> {
    match o {
        Some(p) => s.push(p),
        None => s,
    }
}

/// The pieces of a split polygon: the polygon itself, then the extra fragments.
pub open spec fn pieces(first: Polygon, extra: Fragments) -> Seq<Polygon> {
    push_opt(push_opt(seq![first], extra.0), extra.1)
}

/// The classification of `other` against the plane of `plane`, given how the
/// two meet.
pub open spec fn cut_result(plane: Polygon, other: Polygon, kind: Intersection<Fragments>) -> CutView {
    match kind {
        Intersection::Inside(extra) => CutView::Cut(
            pieces(other, extra).filter(in_front_of(plane)),
            pieces(other, extra).filter(behind(plane)),
        ),
        _ => if kind is Coplanar && distance_sum(plane, other) == 0 {
            CutView::Sibling(other)
        } else if distance_sum(plane, other) > 0 {
            CutView::Cut(seq![other], Seq::empty())
        } else {
            CutView::Cut(Seq::empty(), seq![other])
        },
    }
}

/// Neither vertex distance is zero and both have the same sign.
pub open spec fn same_strict_side(a: int, b: int) -> bool {
    (a > 0 && b > 0) || (a < 0 && b < 0)
}

/// Every vertex of `other` lies strictly on the side of the plane of `plane`
/// where its first vertex lies.
pub open spec fn strictly_outside(plane: Polygon, other: Polygon) -> bool {
    let d0 = distance_to(plane, other.points@[0]);
    &&& same_strict_side(distance_to(plane, other.points@[1]), d0)
    &&& same_strict_side(distance_to(plane, other.points@[2]), d0)
    &&& same_strict_side(distance_to(plane, other.points@[3]), d0)
}

/// The two vectors are parallel: their cross product is zero.
pub open spec fn parallel(a: Point3, b: Point3) -> bool {
    &&& a.y * b.z - a.z * b.y == 0
    &&& a.z * b.x - a.x * b.z == 0
    &&& a.x * b.y - a.y * b.x == 0
}

/// How the planes of `a` and `b` meet.
pub open spec fn intersection_of(a: Polygon, b: Polygon) -> Intersection<()> {
    if strictly_outside(a, b) || strictly_outside(b, a) {
        Intersection::Outside
    } else if parallel(a.normal, b.normal) {
        Intersection::Coplanar
    } else {
        Intersection::Inside(())
    }
}

/// Neither value is zero and both have the same sign.
fn same_strict_side_exec(a: i128, b: i128) -> (r: bool)
    ensures
        r == same_strict_side(a as int, b as int),
{
    (a > 0 && b > 0) || (a < 0 && b < 0)
}

/// `a * d - b * c` of four coordinates is zero.
fn cross_term_is_zero(a: i32, d: i32, b: i32, c: i32) -> (r: bool)
    ensures
        r == (a * d - b * c == 0),
{
    proof {
        lemma_product_bound(a as int, d as int);
        lemma_product_bound(b as int, c as int);
    }
    (a as i128) * (d as i128) - (b as i128) * (c as i128) == 0
}

impl Polygon {
    /// Appends `sub` to `front` when it lies in front of this polygon's plane,
    /// and to `back` otherwise.
    fn place(&self, sub: Polygon, front: &mut Vec<Polygon>, back: &mut Vec<Polygon>)
        ensures
            final(front)@ == if in_front_of(*self)(sub) {
                old(front)@.push(sub)
            } else {
                old(front)@
            },
            final(back)@ == if behind(*self)(sub) {
                old(back)@.push(sub)
            } else {
                old(back)@
            },
    {
        if self.signed_distance_sum_to(&sub) > 0 {
            front.push(sub);
        } else {
            back.push(sub);
        }
    }

    /// Classifies `plane` against this polygon's plane, given how the two meet.
    ///
    /// On parallel planes with a zero distance sum, `plane` is a sibling and
    /// comes back whole. Otherwise, unless the plane passes through it,
    /// `plane` goes whole to the front when its distance sum is positive and
    /// to the back when not. When the plane passes through it, `plane` is the
    /// first fragment of the split along the line and the line's payload holds
    /// the extra fragments: each piece goes by the sign of its own distance
    /// sum, in order.
    pub fn cut(&self, plane: Polygon, kind: Intersection<Fragments>) -> (r: PolygonCut)
        ensures
            r@ == cut_result(*self, plane, kind),
    {
        let dist = self.signed_distance_sum_to(&plane);
        match kind {
            Intersection::Inside((extra1, extra2)) => {
                let mut front: Vec<Polygon> = Vec::new();
                let mut back: Vec<Polygon> = Vec::new();
                let ghost first = plane;
                let ghost (fp, bp) = (in_front_of(*self), behind(*self));
                let ghost s0 = Seq::<Polygon>::empty();
                let ghost s1 = s0.push(first);
                let ghost s2 = push_opt(s1, extra1);
                proof {
                    reveal_with_fuel(Seq::filter, 1);
                    assert(s0.filter(fp) == s0 && s0.filter(bp) == s0);
                    s0.lemma_filter_push(first, fp);
                    s0.lemma_filter_push(first, bp);
                    if let Some(sub) = extra1 {
                        s1.lemma_filter_push(sub, fp);
                        s1.lemma_filter_push(sub, bp);
                    }
                    if let Some(sub) = extra2 {
                        s2.lemma_filter_push(sub, fp);
                        s2.lemma_filter_push(sub, bp);
                    }
                    assert(seq![first] == s1);
                }
                self.place(plane, &mut front, &mut back);
                if let Some(sub) = extra1 {
                    self.place(sub, &mut front, &mut back);
                }
                assert(front@ == s2.filter(fp) && back@ == s2.filter(bp));
                if let Some(sub) = extra2 {
                    self.place(sub, &mut front, &mut back);
                }
                assert(pieces(first, (extra1, extra2)) == push_opt(s2, extra2));
                PolygonCut::Cut { front, back }
            },
            Intersection::Coplanar if dist == 0 => PolygonCut::Sibling(plane),
            _ => {
                let one = vec![plane];
                assert(one@ =~= seq![plane]);
                if dist > 0 {
                    PolygonCut::Cut { front: one, back: Vec::new() }
                } else {
                    PolygonCut::Cut { front: Vec::new(), back: one }
                }
            },
        }
    }

    /// Whether every vertex of `other` lies strictly on one side of this
    /// polygon's plane.
    pub fn is_outside(&self, other: &Polygon) -> (r: bool)
        ensures
            r == strictly_outside(*self, *other),
    {
        let d0 = self.signed_distance_to(&other.points[0]);
        same_strict_side_exec(self.signed_distance_to(&other.points[1]), d0)
            && same_strict_side_exec(self.signed_distance_to(&other.points[2]), d0)
            && same_strict_side_exec(self.signed_distance_to(&other.points[3]), d0)
    }

    /// How this polygon's plane meets `other`: apart, on parallel planes, or
    /// through it.
    pub fn intersect(&self, other: &Polygon) -> (r: Intersection<()>)
        ensures
            r == intersection_of(*self, *other),
    {
        if self.is_outside(other) || other.is_outside(self) {
            Intersection::Outside
        } else {
            let (a, b) = (self.normal, other.normal);
            if cross_term_is_zero(a.y, b.z, a.z, b.y) && cross_term_is_zero(a.z, b.x, a.x, b.z)
                && cross_term_is_zero(a.x, b.y, a.y, b.x) {
                Intersection::Coplanar
            } else {
                Intersection::Inside(())
            }
        }
    }

    /// Whether the normals of the two polygons point into the same half-space.
    pub fn is_aligned(&self, other: &Polygon) -> (r: bool)
        ensures
            r == (dot(self.normal, other.normal) > 0),
    {
        self.normal.dot(&other.normal) > 0
    }
}

/// What `cut` is handed to classify: the pieces of a split, or the polygon
/// alone.
pub open spec fn handed(other: Polygon, kind: Intersection<Fragments>) -> Seq<Polygon> {
    match kind {
        Intersection::Inside(extra) => pieces(other, extra),
        _ => seq![other],
    }
}

/// Splitting a sequence by side keeps every element once.
proof fn lemma_sides_split(s: Seq<Polygon>, plane: Polygon)
    ensures
        s.filter(in_front_of(plane)).to_multiset().add(s.filter(behind(plane)).to_multiset())
            == s.to_multiset(),
    decreases s.len(),
{
    broadcast use vstd::seq_lib::group_to_multiset_ensures;

    let (fp, bp) = (in_front_of(plane), behind(plane));
    if s.len() == 0 {
        reveal_with_fuel(Seq::filter, 1);
        assert(s.filter(fp) =~= s && s.filter(bp) =~= s);
        assert(s.to_multiset() =~= Multiset::<Polygon>::empty());
    } else {
        let t = s.drop_last();
        lemma_sides_split(t, plane);
        assert(t.push(s.last()) =~= s);
        t.lemma_filter_push(s.last(), fp);
        t.lemma_filter_push(s.last(), bp);
        assert(s.filter(fp).to_multiset().add(s.filter(bp).to_multiset())
            =~= s.to_multiset());
    }
}

/// Classification loses and duplicates nothing: a sibling is the polygon
/// itself, and otherwise the front and back lists together hold each piece
/// handed to the classification exactly once.
pub proof fn lemma_cut_keeps_every_piece(plane: Polygon, other: Polygon, kind: Intersection<Fragments>)
    ensures
        match cut_result(plane, other, kind) {
            CutView::Sibling(p) => p == other,
            CutView::Cut(front, back) => front.to_multiset().add(back.to_multiset())
                == handed(other, kind).to_multiset(),
        },
{
    broadcast use vstd::seq_lib::group_to_multiset_ensures;

    match kind {
        Intersection::Inside(extra) => lemma_sides_split(pieces(other, extra), plane),
        _ => {
            assert(Seq::<Polygon>::empty().to_multiset() =~= Multiset::<Polygon>::empty());
        },
    }
}

/// Every fragment in the front list has a positive distance sum from the
/// plane, and every fragment in the back list a distance sum that is not.
pub proof fn lemma_cut_sides(plane: Polygon, other: Polygon, kind: Intersection<Fragments>)
    ensures
        cut_result(plane, other, kind) is Cut ==> {
            let (front, back) = (
                cut_result(plane, other, kind)->Cut_0,
                cut_result(plane, other, kind)->Cut_1,
            );
            &&& forall|i: int| 0 <= i < front.len() ==> distance_sum(plane, #[trigger] front[i]) > 0
            &&& forall|i: int| 0 <= i < back.len() ==> distance_sum(plane, #[trigger] back[i]) <= 0
        },
{
    broadcast use Seq::lemma_filter_pred;

}

/// A polygon that lies wholly on one side is never split: the two lists
/// together hold just that polygon.
pub proof fn lemma_outside_stays_whole(plane: Polygon, other: Polygon, kind: Intersection<Fragments>)
    requires
        kind is Outside,
    ensures
        cut_result(plane, other, kind) is Cut,
        cut_result(plane, other, kind)->Cut_0 + cut_result(plane, other, kind)->Cut_1
            == seq![other],
{
    assert(seq![other] + Seq::<Polygon>::empty() =~= seq![other]);
    assert(Seq::<Polygon>::empty() + seq![other] =~= seq![other]);
}

/// Two polygons with the same normal and offset, whose vertices are the same
/// points on that plane in any order, meet as parallel planes, and the second
/// is classified as a sibling of the first.
pub proof fn lemma_same_plane_is_sibling(a: Polygon, b: Polygon)
    requires
        on_own_plane(a),
        b.normal == a.normal,
        b.offset == a.offset,
        forall|i: int| 0 <= i < 4 ==> exists|j: int| 0 <= j < 4 && #[trigger] b.points@[i] == #[trigger] a.points@[j],
    ensures
        intersection_of(a, b) is Coplanar,
        cut_result(a, b, Intersection::Coplanar) == CutView::Sibling(b),
{
    assert forall|i: int| 0 <= i < 4 implies #[trigger] distance_to(a, b.points@[i]) == 0 by {
        assert(b.points@[i] == b.points@[i]);
        let j = choose|j: int| 0 <= j < 4 && #[trigger] b.points@[i] == #[trigger] a.points@[j];
        assert(distance_to(a, a.points@[j]) == 0);
    }
    assert(distance_to(a, b.points@[0]) == 0);
    assert(distance_to(a, b.points@[1]) == 0);
    assert(distance_to(a, b.points@[2]) == 0);
    assert(distance_to(a, b.points@[3]) == 0);
    assert(distance_to(a, a.points@[0]) == 0);
    assert(distance_to(b, a.points@[0]) == 0);
    let n = a.normal;
    assert(parallel(n, n)) by (nonlinear_arith);
}

/// Alignment is symmetric, and a polygon with a non-zero normal is aligned
/// with itself.
pub proof fn lemma_alignment_symmetric(a: Polygon, b: Polygon)
    ensures
        (dot(a.normal, b.normal) > 0) == (dot(b.normal, a.normal) > 0),
        !(a.normal.x == 0 && a.normal.y == 0 && a.normal.z == 0) ==> dot(a.normal, a.normal) > 0,
{
    let (n, m) = (a.normal, b.normal);
    assert(dot(n, m) == dot(m, n)) by (nonlinear_arith);
    let (x, y, z) = (n.x as int, n.y as int, n.z as int);
    assert(!(x == 0 && y == 0 && z == 0) ==> x * x + y * y + z * z > 0) by (nonlinear_arith);
}

} // verus!
