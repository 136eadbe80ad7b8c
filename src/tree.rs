//! The shape of a BSP tree of polygons, and how inserting and ordering act
//! on it.
use vstd::prelude::*;
use vstd::multiset::Multiset;
use crate::geometry::{distance_sum, dot, Point3, Polygon};
use crate::plane::{intersection_of, CutView};

verus! {

/// A node of a BSP tree: the polygons stored at it, the first of which gives
/// its plane, and the subtrees in front of and behind that plane.
pub struct BspModel {
    pub values: Seq<Polygon>,
    pub front: Option<Box<BspModel>>,
    pub back: Option<Box<BspModel>>,
}

/// A node that holds nothing and has no subtrees.
pub open spec fn empty_model() -> BspModel {
    BspModel { values: Seq::empty(), front: None, back: None }
}

/// A node that holds `p` alone.
pub open spec fn leaf(p: Polygon) -> BspModel {
    BspModel { values: seq![p], front: None, back: None }
}

/// `other` lies on the plane of `plane` and is kept beside it.
pub open spec fn sibling_of(plane: Polygon, other: Polygon) -> bool {
    intersection_of(plane, other) is Coplanar && distance_sum(plane, other) == 0
}

/// How the tree classifies `other` against a node whose plane is that of
/// `plane`: a sibling, or the whole polygon on one side.
pub open spec fn tree_cut_result(plane: Polygon, other: Polygon) -> CutView {
    if sibling_of(plane, other) {
        CutView::Sibling(other)
    } else if distance_sum(plane, other) > 0 {
        CutView::Cut(seq![other], Seq::empty())
    } else {
        CutView::Cut(Seq::empty(), seq![other])
    }
}

/// The tree after inserting `p`: an empty node takes it; otherwise it joins
/// the node as a sibling, or goes down the side its distance sum gives.
pub open spec fn model_insert(m: BspModel, p: Polygon) -> BspModel
    decreases m,
{
    if m.values.len() == 0 || sibling_of(m.values[0], p) {
        BspModel { values: m.values.push(p), front: m.front, back: m.back }
    } else if distance_sum(m.values[0], p) > 0 {
        let front = match m.front {
            Some(c) => model_insert(*c, p),
            None => leaf(p),
        };
        BspModel { values: m.values, front: Some(Box::new(front)), back: m.back }
    } else {
        let back = match m.back {
            Some(c) => model_insert(*c, p),
            None => leaf(p),
        };
        BspModel { values: m.values, front: m.front, back: Some(Box::new(back)) }
    }
}

/// The tree after inserting the polygons of `s` in order into an empty one.
pub open spec fn model_insert_all(s: Seq<Polygon>) -> BspModel
    decreases s.len(),
{
    if s.len() == 0 {
        empty_model()
    } else {
        model_insert(model_insert_all(s.drop_last()), s.last())
    }
}

/// The draw order of a tree for the view direction `view`. A node with no
/// values gives nothing. Otherwise, when `view` and the node's plane face the
/// same half-space the front subtree comes first, then the node's values, then
/// the back subtree; when not, the back subtree comes first.
pub open spec fn model_order(m: BspModel, view: Point3) -> Seq<Polygon>
    decreases m,
{
    if m.values.len() == 0 {
        Seq::empty()
    } else {
        let f = match m.front {
            Some(c) => model_order(*c, view),
            None => Seq::empty(),
        };
        let b = match m.back {
            Some(c) => model_order(*c, view),
            None => Seq::empty(),
        };
        if dot(view, m.values[0].normal) > 0 {
            f + m.values + b
        } else {
            b + m.values + f
        }
    }
}

/// Every polygon stored in the tree, counted with multiplicity.
pub open spec fn model_items(m: BspModel) -> Multiset<Polygon>
    decreases m,
{
    let f = match m.front {
        Some(c) => model_items(*c),
        None => Multiset::empty(),
    };
    let b = match m.back {
        Some(c) => model_items(*c),
        None => Multiset::empty(),
    };
    m.values.to_multiset().add(f).add(b)
}

/// A node with no values has no subtrees, throughout the tree.
pub open spec fn model_wf(m: BspModel) -> bool
    decreases m,
{
    &&& (m.values.len() == 0 ==> m.front is None && m.back is None)
    &&& match m.front {
        Some(c) => model_wf(*c),
        None => true,
    }
    &&& match m.back {
        Some(c) => model_wf(*c),
        None => true,
    }
}

/// Inserting adds exactly the polygon to what the tree holds.
pub proof fn lemma_insert_items(m: BspModel, p: Polygon)
    ensures
        model_items(model_insert(m, p)) == model_items(m).insert(p),
    decreases m,
{
    broadcast use vstd::seq_lib::group_to_multiset_ensures;
    broadcast use vstd::multiset::group_multiset_axioms;

    let r = model_insert(m, p);
    if m.values.len() == 0 || sibling_of(m.values[0], p) {
        vstd::seq_lib::to_multiset_build(m.values, p);
        assert(model_items(r) =~= model_items(m).insert(p));
    } else if distance_sum(m.values[0], p) > 0 {
        lemma_child_insert_items(m.front, p);
        assert(model_items(r) =~= model_items(m).insert(p));
    } else {
        lemma_child_insert_items(m.back, p);
        assert(model_items(r) =~= model_items(m).insert(p));
    }
}

/// What a subtree holds, none for a missing one.
pub open spec fn child_items(c: Option<Box<BspModel>>) -> Multiset<Polygon> {
    match c {
        Some(c) => model_items(*c),
        None => Multiset::empty(),
    }
}

/// Inserting into a subtree, or into a new leaf where there is none, adds
/// exactly the polygon.
proof fn lemma_child_insert_items(c: Option<Box<BspModel>>, p: Polygon)
    ensures
        model_items(
            match c {
                Some(c) => model_insert(*c, p),
                None => leaf(p),
            },
        ) == child_items(c).insert(p),
    decreases c,
{
    broadcast use vstd::seq_lib::group_to_multiset_ensures;
    broadcast use vstd::multiset::group_multiset_axioms;

    match c {
        Some(b) => lemma_insert_items(*b, p),
        None => {
            assert(seq![p] =~= Seq::<Polygon>::empty().push(p));
            vstd::seq_lib::to_multiset_build(Seq::<Polygon>::empty(), p);
            assert(Seq::<Polygon>::empty().to_multiset() =~= Multiset::<Polygon>::empty());
            assert(model_items(leaf(p)) =~= Multiset::<Polygon>::empty().insert(p));
        },
    }
}

/// Inserting keeps every node with no values free of subtrees.
pub proof fn lemma_insert_wf(m: BspModel, p: Polygon)
    requires
        model_wf(m),
    ensures
        model_wf(model_insert(m, p)),
    decreases m,
{
    reveal_with_fuel(model_wf, 2);
    if m.values.len() == 0 || sibling_of(m.values[0], p) {
    } else if distance_sum(m.values[0], p) > 0 {
        if let Some(c) = m.front {
            lemma_insert_wf(*c, p);
        }
    } else {
        if let Some(c) = m.back {
            lemma_insert_wf(*c, p);
        }
    }
}

/// A tree built by inserts into an empty one keeps nodes with no values free
/// of subtrees.
pub proof fn lemma_insert_all_wf(s: Seq<Polygon>)
    ensures
        model_wf(model_insert_all(s)),
    decreases s.len(),
{
    if s.len() > 0 {
        lemma_insert_all_wf(s.drop_last());
        lemma_insert_wf(model_insert_all(s.drop_last()), s.last());
    }
}

/// A tree built by inserts into an empty one holds exactly what was inserted.
pub proof fn lemma_insert_all_items(s: Seq<Polygon>)
    ensures
        model_items(model_insert_all(s)) == s.to_multiset(),
    decreases s.len(),
{
    broadcast use vstd::seq_lib::group_to_multiset_ensures;

    if s.len() == 0 {
        assert(s.to_multiset() =~= Multiset::<Polygon>::empty());
        assert(model_items(empty_model()) =~= Multiset::<Polygon>::empty());
    } else {
        lemma_insert_all_items(s.drop_last());
        lemma_insert_items(model_insert_all(s.drop_last()), s.last());
        assert(s.drop_last().push(s.last()) =~= s);
        vstd::seq_lib::to_multiset_build(s.drop_last(), s.last());
    }
}

/// In a well-formed tree the draw order holds every stored polygon once.
pub proof fn lemma_order_items(m: BspModel, view: Point3)
    requires
        model_wf(m),
    ensures
        model_order(m, view).to_multiset() == model_items(m),
    decreases m,
{
    broadcast use vstd::seq_lib::group_to_multiset_ensures;

    if m.values.len() == 0 {
        assert(Seq::<Polygon>::empty().to_multiset() =~= Multiset::<Polygon>::empty());
        assert(model_items(m) =~= Multiset::<Polygon>::empty());
    } else {
        let f = match m.front {
            Some(c) => model_order(*c, view),
            None => Seq::empty(),
        };
        let b = match m.back {
            Some(c) => model_order(*c, view),
            None => Seq::empty(),
        };
        if let Some(c) = m.front {
            lemma_order_items(*c, view);
        }
        if let Some(c) = m.back {
            lemma_order_items(*c, view);
        }
        assert(Seq::<Polygon>::empty().to_multiset() =~= Multiset::<Polygon>::empty());
        vstd::seq_lib::lemma_multiset_commutative(f, m.values);
        vstd::seq_lib::lemma_multiset_commutative(f + m.values, b);
        vstd::seq_lib::lemma_multiset_commutative(b, m.values);
        vstd::seq_lib::lemma_multiset_commutative(b + m.values, f);
        assert(model_order(m, view).to_multiset() =~= model_items(m));
    }
}

/// Only the direction of the view matters: scaling it by a positive factor
/// leaves the draw order unchanged.
pub proof fn lemma_order_scaled(m: BspModel, view: Point3, scaled: Point3, k: int)
    requires
        k > 0,
        scaled.x == k * view.x,
        scaled.y == k * view.y,
        scaled.z == k * view.z,
    ensures
        model_order(m, scaled) == model_order(m, view),
    decreases m,
{
    if m.values.len() > 0 {
        if let Some(c) = m.front {
            lemma_order_scaled(*c, view, scaled, k);
        }
        if let Some(c) = m.back {
            lemma_order_scaled(*c, view, scaled, k);
        }
        let n = m.values[0].normal;
        let (vx, vy, vz) = (view.x as int, view.y as int, view.z as int);
        let (nx, ny, nz) = (n.x as int, n.y as int, n.z as int);
        assert((k * vx) * nx == k * (vx * nx)) by (nonlinear_arith);
        assert((k * vy) * ny == k * (vy * ny)) by (nonlinear_arith);
        assert((k * vz) * nz == k * (vz * nz)) by (nonlinear_arith);
        assert(k * (vx * nx) + k * (vy * ny) + k * (vz * nz) == k * (vx * nx + vy * ny + vz * nz))
            by (nonlinear_arith);
        assert((dot(scaled, n) > 0) == (dot(view, n) > 0)) by (nonlinear_arith)
            requires
                k > 0,
                dot(scaled, n) == k * dot(view, n),
        ;
    }
}

} // verus!
