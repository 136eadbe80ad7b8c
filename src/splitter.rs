//! Back-to-front ordering of polygons through a BSP tree.
use vstd::prelude::*;
use binary_space_partition::BspNode;
use crate::geometry::{Point3, Polygon};
use crate::plane::{behind, in_front_of, Intersection, PolygonCut};
use crate::tree::{
    empty_model, lemma_insert_all_items, lemma_insert_all_wf, lemma_insert_items,
    lemma_insert_wf, lemma_order_items, model_insert, model_insert_all, model_items,
    model_order, model_wf, tree_cut_result, BspModel,
};

verus! {

#[verifier::external_type_specification]
#[verifier::external_body]
#[verifier::reject_recursive_types(T)]
pub struct ExBspNode<T>(binary_space_partition::BspNode<T>);

#[verifier::external_type_specification]
#[verifier::external_body]
#[verifier::reject_recursive_types(T)]
pub struct ExPlaneCut<T>(binary_space_partition::PlaneCut<T>);

/// The shape of a tree: for each node, its `values` in order and its `front`
/// and `back` children, a missing child being `None`.
pub uninterp spec fn tree_model(t: BspNode<Polygon>) -> BspModel;

/// Relies on `BspNode::new`: a new node holds no value and has no children.
#[verifier::external_body]
fn new_tree() -> (t: BspNode<Polygon>)
    ensures
        tree_model(t) == empty_model(),
{
    BspNode::new()
}

/// Relies on `BspNode::insert`: an empty node stores the value; otherwise the
/// value is classified with `Plane::cut` against the node's first value, a
/// sibling is stored at the node, and the pieces of a cut go down their sides,
/// into a new node where the side has none. The `cut` below is `tree_cut`,
/// which hands every polygon back whole.
#[verifier::external_body]
fn tree_insert(t: &mut BspNode<Polygon>, p: Polygon)
    ensures
        tree_model(*final(t)) == model_insert(tree_model(*old(t)), p),
{
    t.insert(p)
}

/// Relies on `BspNode::order`: from a node with values it appends the side
/// that `Plane::is_aligned` of `base` with the first value picks, the node's
/// values, then the other side, recursively; it removes nothing from `out`.
#[verifier::external_body]
fn tree_order(t: &BspNode<Polygon>, base: &Polygon, out: &mut Vec<Polygon>)
    ensures
        final(out)@ == old(out)@ + model_order(tree_model(*t), base.normal),
{
    t.order(base, out)
}

/// Relies on the variants of `binary_space_partition::PlaneCut`: moves a
/// classification into the tree's own type, field for field.
#[verifier::external_body]
fn to_tree_cut(c: crate::plane::PolygonCut) -> binary_space_partition::PlaneCut<Polygon> {
    match c {
        crate::plane::PolygonCut::Sibling(p) => binary_space_partition::PlaneCut::Sibling(p),
        crate::plane::PolygonCut::Cut { front, back } => binary_space_partition::PlaneCut::Cut { front, back },
    }
}

impl Polygon {
    /// Classifies `plane` against this polygon's plane as the tree does.
    /// Splitting along a line needs points off the integer grid, so a polygon
    /// that the plane passes through is not split: it is handed on whole,
    /// with no extra fragments, and goes by the sign of its distance sum.
    pub fn tree_cut(&self, plane: Polygon) -> (r: PolygonCut)
        ensures
            r@ == tree_cut_result(*self, plane),
    {
        let kind = match self.intersect(&plane) {
            Intersection::Coplanar => Intersection::Coplanar,
            Intersection::Outside => Intersection::Outside,
            Intersection::Inside(()) => Intersection::Inside((None, None)),
        };
        proof {
            let s0 = Seq::<Polygon>::empty();
            reveal_with_fuel(Seq::filter, 1);
            s0.lemma_filter_push(plane, in_front_of(*self));
            s0.lemma_filter_push(plane, behind(*self));
            assert(seq![plane] == s0.push(plane));
        }
        self.cut(plane, kind)
    }
}

/// How the tree classifies and orders polygons.
impl binary_space_partition::Plane for Polygon {
    fn cut(&self, plane: Polygon) -> binary_space_partition::PlaneCut<Polygon> {
        to_tree_cut(self.tree_cut(plane))
    }

    fn is_aligned(&self, plane: &Polygon) -> bool {
        Polygon::is_aligned(self, plane)
    }
}

/// Orders polygons back to front for a view direction, through a BSP tree.
/// Polygons that cross the plane of another are not split: each is placed
/// whole, by the sign of its distance sum from that plane.
pub struct BspSplitter {
    tree: BspNode<Polygon>,
    result: Vec<Polygon>,
}

impl BspSplitter {
    /// The shape of the tree of polygons added since the splitter was made or
    /// last reset.
    pub closed spec fn shape(&self) -> BspModel {
        tree_model(self.tree)
    }

    /// Creates a splitter that holds no polygon.
    pub fn new() -> (r: Self)
        ensures
            r.shape() == empty_model(),
    {
        BspSplitter { tree: new_tree(), result: Vec::new() }
    }

    /// Discards every polygon added so far.
    pub fn reset(&mut self)
        ensures
            final(self).shape() == empty_model(),
    {
        self.tree = new_tree();
    }

    /// Adds a polygon to the set being ordered. It is placed whole, never
    /// split, and the splitter then holds exactly one more polygon.
    pub fn add(&mut self, poly: Polygon)
        ensures
            final(self).shape() == model_insert(old(self).shape(), poly),
            model_items(final(self).shape()) == model_items(old(self).shape()).insert(poly),
            model_wf(old(self).shape()) ==> model_wf(final(self).shape()),
    {
        tree_insert(&mut self.tree, poly);
        proof {
            lemma_insert_items(old(self).shape(), poly);
            if model_wf(old(self).shape()) {
                lemma_insert_wf(old(self).shape(), poly);
            }
        }
    }

    /// Orders the polygons for the view direction `view`, walking the tree
    /// with a probe polygon through the origin whose normal is `view`. The
    /// buffer is refilled on each call.
    pub fn sort(&mut self, view: Point3) -> (r: &[Polygon])
        ensures
            r@ == model_order(old(self).shape(), view),
            model_wf(old(self).shape()) ==> r@.to_multiset() == model_items(old(self).shape()),
            final(self).shape() == old(self).shape(),
    {
        let probe = Polygon {
            points: [Point3::zero(), Point3::zero(), Point3::zero(), Point3::zero()],
            normal: view,
            offset: 0,
            anchor: 0,
        };
        self.result.clear();
        tree_order(&self.tree, &probe, &mut self.result);
        proof {
            assert(self.result@ =~= model_order(self.shape(), view));
            if model_wf(self.shape()) {
                lemma_order_items(self.shape(), view);
            }
        }
        self.result.as_slice()
    }
}

/// Orders a batch of polygons for the view direction `view`: inserted in
/// order into an empty tree, they come out in that tree's draw order, and each
/// is handed back exactly once.
pub fn order_all(polys: &Vec<Polygon>, view: Point3) -> (r: Vec<Polygon>)
    ensures
        r@ == model_order(model_insert_all(polys@), view),
        r@.to_multiset() == polys@.to_multiset(),
        r.len() == polys.len(),
{
    let mut splitter = BspSplitter::new();
    let mut i: usize = 0;
    assert(polys@.take(0) =~= Seq::<Polygon>::empty());
    while i < polys.len()
        invariant
            i <= polys.len(),
            splitter.shape() == model_insert_all(polys@.take(i as int)),
        decreases polys.len() - i,
    {
        splitter.add(polys[i]);
        assert(polys@.take(i + 1).drop_last() =~= polys@.take(i as int));
        i += 1;
    }
    assert(polys@.take(i as int) =~= polys@);
    let out = splitter.sort(view);
    let r = vstd::slice::slice_to_vec(out);
    proof {
        lemma_insert_all_wf(polys@);
        lemma_insert_all_items(polys@);
        lemma_order_items(model_insert_all(polys@), view);
        vstd::seq_lib::to_multiset_len(r@);
        vstd::seq_lib::to_multiset_len(polys@);
    }
    r
}

} // verus!
