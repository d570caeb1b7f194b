use rstar::primitives::GeomWithData;
use rstar::RTree;
use vstd::multiset::Multiset;
use vstd::prelude::*;
use crate::point::{entry_dist2, entry_in_range, Coord, Entry};

verus! {

/// An R*-tree of points, each carrying the entity it stands for.
///
/// The tree is `rstar::RTree` over `GeomWithData<[i64; 3], u64>`; Verus sees
/// it only through `tree_contents` and the functions below.
#[verifier::external_body]
pub struct PointTree {
    tree: RTree<GeomWithData<[i64; 3], u64>>,
}

/// The entries that a tree holds, with their multiplicities.
pub uninterp spec fn tree_contents(t: PointTree) -> Multiset<Entry>;

/// Every entry of the tree is within the coordinate range.
pub open spec fn contents_in_range(m: Multiset<Entry>) -> bool {
    forall|e: Entry| m.count(e) > 0 ==> entry_in_range(e)
}

/// Relies on `RTree::new`: a new tree holds nothing.
#[verifier::external_body]
pub(crate) fn tree_new() -> (r: PointTree)
    ensures
        tree_contents(r) =~= Multiset::<Entry>::empty(),
{
    PointTree { tree: RTree::new() }
}

/// Relies on `RTree::bulk_load`: the tree holds exactly the given elements.
#[verifier::external_body]
pub(crate) fn tree_bulk_load(items: Vec<Entry>) -> (r: PointTree)
    requires
        contents_in_range(items@.to_multiset()),
    ensures
        tree_contents(r) =~= items@.to_multiset(),
{
    PointTree {
        tree: RTree::bulk_load(
            items.into_iter().map(|e| GeomWithData::new([e.0, e.1, e.2], e.3)).collect(),
        ),
    }
}

/// Relies on `RTree::size`: the number of elements held.
#[verifier::external_body]
pub(crate) fn tree_size(t: &PointTree) -> (r: usize)
    ensures
        r == tree_contents(*t).len(),
{
    t.tree.size()
}

/// Relies on `RTree::insert`: the element is added, once more if already present.
#[verifier::external_body]
pub(crate) fn tree_insert(t: &mut PointTree, e: Entry)
    requires
        contents_in_range(tree_contents(*old(t))),
        entry_in_range(e),
    ensures
        tree_contents(*final(t)) =~= tree_contents(*old(t)).insert(e),
{
    t.tree.insert(GeomWithData::new([e.0, e.1, e.2], e.3))
}

/// Relies on `RTree::remove`: one element equal to `e` is removed, if any is held.
#[verifier::external_body]
pub(crate) fn tree_remove(t: &mut PointTree, e: Entry) -> (r: bool)
    requires
        contents_in_range(tree_contents(*old(t))),
        entry_in_range(e),
    ensures
        r == (tree_contents(*old(t)).count(e) > 0),
        tree_contents(*final(t)) =~= tree_contents(*old(t)).remove(e),
{
    t.tree.remove(&GeomWithData::new([e.0, e.1, e.2], e.3)).is_some()
}

/// Relies on `RTree::iter`: every element once, in no stated order.
#[verifier::external_body]
pub(crate) fn tree_items(t: &PointTree) -> (r: Vec<Entry>)
    ensures
        r@.to_multiset() =~= tree_contents(*t),
{
    t.tree.iter().map(|g| (g.geom()[0], g.geom()[1], g.geom()[2], g.data)).collect()
}

/// Relies on `RTree::nearest_neighbor`: an element at the least squared
/// distance from `q`, present whenever the tree holds any.
#[verifier::external_body]
pub(crate) fn tree_nearest(t: &PointTree, q: Coord) -> (r: Option<Entry>)
    requires
        contents_in_range(tree_contents(*t)),
        q.in_range(),
    ensures
        r is None <==> tree_contents(*t).len() == 0,
        r matches Some(e) ==> tree_contents(*t).count(e) > 0 && forall|o: Entry|
            tree_contents(*t).count(o) > 0 ==> entry_dist2(e, q) <= entry_dist2(o, q),
{
    t.tree.nearest_neighbor(&[q.x, q.y, q.z]).map(|g| (g.geom()[0], g.geom()[1], g.geom()[2], g.data))
}

/// The first `k` elements of a listing of all held elements by
/// non-decreasing squared distance from `q`.
pub open spec fn is_k_nearest(r: Seq<Entry>, m: Multiset<Entry>, q: Coord, k: nat) -> bool {
    &&& r.len() == if k < m.len() { k } else { m.len() }
    &&& r.to_multiset().subset_of(m)
    &&& forall|i: int, j: int|
        0 <= i < j < r.len() ==> entry_dist2(r[i], q) <= entry_dist2(r[j], q)
    &&& forall|o: Entry, i: int|
        #![trigger r.to_multiset().count(o), r[i]]
        m.count(o) > r.to_multiset().count(o) && 0 <= i < r.len() ==> entry_dist2(r[i], q)
            <= entry_dist2(o, q)
}

/// Relies on `RTree::nearest_neighbor_iter`, which yields every element by
/// non-decreasing squared distance from `q`; the first `k` are taken.
#[verifier::external_body]
pub(crate) fn tree_nearest_k(t: &PointTree, q: Coord, k: usize) -> (r: Vec<Entry>)
    requires
        contents_in_range(tree_contents(*t)),
        q.in_range(),
    ensures
        is_k_nearest(r@, tree_contents(*t), q, k as nat),
{
    t.tree.nearest_neighbor_iter(&[q.x, q.y, q.z]).take(k).map(
        |g| (g.geom()[0], g.geom()[1], g.geom()[2], g.data),
    ).collect()
}

/// Relies on `RTree::locate_within_distance`: every held element whose
/// squared distance from `q` is at most `max_d2`, each as often as held.
#[verifier::external_body]
pub(crate) fn tree_within(t: &PointTree, q: Coord, max_d2: i64) -> (r: Vec<Entry>)
    requires
        contents_in_range(tree_contents(*t)),
        q.in_range(),
        max_d2 >= 0,
    ensures
        forall|e: Entry|
            #[trigger] r@.to_multiset().count(e) == if entry_dist2(e, q) <= max_d2 {
                tree_contents(*t).count(e)
            } else {
                0
            },
{
    t.tree.locate_within_distance([q.x, q.y, q.z], max_d2).map(
        |g| (g.geom()[0], g.geom()[1], g.geom()[2], g.data),
    ).collect()
}

} // verus!
