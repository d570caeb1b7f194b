use vstd::multiset::Multiset;
use vstd::prelude::*;
use crate::point::{
    coord_of, dist2, distance_squared, entry_dist2, entry_in_range, entry_of, lemma_dist2_bounds,
    Coord, Entry, EntityId,
};
use crate::tree::{
    contents_in_range, is_k_nearest, tree_bulk_load, tree_contents, tree_insert, tree_items,
    tree_nearest, tree_nearest_k, tree_new, tree_remove, tree_size, tree_within, PointTree,
};

verus! {

/// Largest squared distance between two positions in range.
pub const MAX_DIST2: i64 = 824633720832;

/// The entry that stands for a `(position, entity)` pair.
pub open spec fn pair_entry(p: (Coord, EntityId)) -> Entry {
    entry_of(p.0, p.1)
}

pub open spec fn pair_in_range(p: (Coord, EntityId)) -> bool {
    p.0.in_range()
}

/// The entries that a list of pairs stands for, in order.
pub open spec fn entries(s: Seq<(Coord, EntityId)>) -> Seq<Entry> {
    s.map_values(|p: (Coord, EntityId)| pair_entry(p))
}

/// Whether any entry of `m` belongs to `entity`.
pub open spec fn tracks(m: Multiset<Entry>, entity: EntityId) -> bool {
    exists|x: Entry| m.count(x) > 0 && x.3 == entity
}

/// `m` with every entry of `entity` taken out.
pub open spec fn without_entity(m: Multiset<Entry>, entity: EntityId) -> Multiset<Entry> {
    m.filter(|x: Entry| x.3 != entity)
}

/// The nearest-first answer for `k`, as pairs.
pub open spec fn pairs_k_nearest(
    r: Seq<(Coord, EntityId)>,
    m: Multiset<Entry>,
    q: Coord,
    k: nat,
) -> bool {
    is_k_nearest(entries(r), m, q, k)
}

/// `r` holds each entry of `m` within squared distance `d2` of `q` as often
/// as `m` does, and nothing else.
pub open spec fn is_within(r: Seq<Entry>, m: Multiset<Entry>, q: Coord, d2: int) -> bool {
    forall|e: Entry|
        #[trigger] r.to_multiset().count(e) == if entry_dist2(e, q) <= d2 {
            m.count(e)
        } else {
            0
        }
}

fn pair_of(e: Entry) -> (r: (Coord, EntityId))
    ensures
        pair_entry(r) == e,
{
    (Coord { x: e.0, y: e.1, z: e.2 }, e.3)
}

fn pairs_of(v: Vec<Entry>) -> (r: Vec<(Coord, EntityId)>)
    ensures
        entries(r@) == v@,
{
    let mut r: Vec<(Coord, EntityId)> = Vec::new();
    let mut i: usize = 0;
    while i < v.len()
        invariant
            i <= v.len(),
            entries(r@) =~= v@.subrange(0, i as int),
        decreases v.len() - i,
    {
        let p = pair_of(v[i]);
        let ghost before = r@;
        r.push(p);
        proof {
            assert(r@ == before.push(p));
            assert(entries(before).len() == i);
            assert(r@.len() == i + 1);
            assert(entries(r@).len() == i + 1);
            assert forall|j: int| 0 <= j < i + 1 implies entries(r@)[j] == v@[j] by {
                if j < i {
                    assert(entries(before)[j] == v@.subrange(0, i as int)[j]);
                }
            }
        }
        i += 1;
        assert(entries(r@) =~= v@.subrange(0, i as int));
    }
    assert(v@.subrange(0, v.len() as int) =~= v@);
    r
}

fn entries_of(v: &Vec<(Coord, EntityId)>) -> (r: Vec<Entry>)
    ensures
        r@ == entries(v@),
{
    let mut r: Vec<Entry> = Vec::new();
    let mut i: usize = 0;
    while i < v.len()
        invariant
            i <= v.len(),
            r@ =~= entries(v@.subrange(0, i as int)),
        decreases v.len() - i,
    {
        let p = v[i];
        r.push((p.0.x, p.0.y, p.0.z, p.1));
        i += 1;
        assert(r@ =~= entries(v@.subrange(0, i as int)));
    }
    assert(v@.subrange(0, v.len() as int) =~= v@);
    r
}

/// A spatial index over the points of one category of entities, with the
/// parameters of its maintenance policy.
pub struct RTreeAccess3D {
    tree: PointTree,
    min_moved: i64,
    recreate_after: usize,
}

impl RTreeAccess3D {
    /// The entries held, with their multiplicities.
    pub closed spec fn points(&self) -> Multiset<Entry> {
        tree_contents(self.tree)
    }

    /// Squared displacement below which a move is not applied.
    pub closed spec fn min_moved_spec(&self) -> int {
        self.min_moved as int
    }

    /// Number of moved entities in one frame above which the index is rebuilt.
    pub closed spec fn recreate_after_spec(&self) -> nat {
        self.recreate_after as nat
    }

    pub closed spec fn wf(&self) -> bool {
        contents_in_range(tree_contents(self.tree)) && self.min_moved >= 0
    }

    /// An empty index with the given policy parameters.
    pub fn new(min_moved: i64, recreate_after: usize) -> (r: Self)
        requires
            min_moved >= 0,
        ensures
            r.wf(),
            r.points() =~= Multiset::<Entry>::empty(),
            r.min_moved_spec() == min_moved,
            r.recreate_after_spec() == recreate_after,
    {
        RTreeAccess3D { tree: tree_new(), min_moved, recreate_after }
    }

    /// An index bulk-built over `all`, with the given policy parameters.
    pub fn with_points(all: Vec<(Coord, EntityId)>, min_moved: i64, recreate_after: usize) -> (r: Self)
        requires
            min_moved >= 0,
            forall|i: int| 0 <= i < all@.len() ==> #[trigger] all@[i].0.in_range(),
        ensures
            r.wf(),
            r.points() =~= entries(all@).to_multiset(),
            r.min_moved_spec() == min_moved,
            r.recreate_after_spec() == recreate_after,
    {
        let items = entries_of(&all);
        proof {
            lemma_entries_in_range(all@);
        }
        RTreeAccess3D { tree: tree_bulk_load(items), min_moved, recreate_after }
    }

    /// Squared Euclidean distance between two positions.
    pub fn distance_squared(&self, loc_a: Coord, loc_b: Coord) -> (r: i64)
        requires
            loc_a.in_range(),
            loc_b.in_range(),
        ensures
            r == dist2(loc_a, loc_b),
    {
        distance_squared(loc_a, loc_b)
    }

    /// The entry nearest to `loc`, or `None` when the index is empty.
    ///
    /// Where several entries are equally near, any one of them is returned.
    pub fn nearest_neighbour(&self, loc: Coord) -> (r: Option<(Coord, EntityId)>)
        requires
            self.wf(),
            loc.in_range(),
        ensures
            r is None <==> self.points().len() == 0,
            r matches Some(p) ==> {
                &&& self.points().count(pair_entry(p)) > 0
                &&& forall|o: Entry|
                    self.points().count(o) > 0 ==> dist2(p.0, loc) <= #[trigger] entry_dist2(o, loc)
            },
    {
        match tree_nearest(&self.tree, loc) {
            Some(e) => Some(pair_of(e)),
            None => None,
        }
    }

    /// The `k` entries nearest to `loc`, nearest first; all of them when the
    /// index holds fewer than `k`.
    ///
    /// When `loc` is the position of a tracked entity, that entity comes first
    /// (or among the first, with others at the same position).
    pub fn k_nearest_neighbour(&self, loc: Coord, k: usize) -> (r: Vec<(Coord, EntityId)>)
        requires
            self.wf(),
            loc.in_range(),
        ensures
            pairs_k_nearest(r@, self.points(), loc, k as nat),
    {
        pairs_of(tree_nearest_k(&self.tree, loc, k))
    }

    /// Every entry whose distance to `loc` is at most `distance`, in no
    /// particular order.
    pub fn within_distance(&self, loc: Coord, distance: u32) -> (r: Vec<(Coord, EntityId)>)
        requires
            self.wf(),
            loc.in_range(),
        ensures
            is_within(entries(r@), self.points(), loc, distance * distance),
    {
        let d: u64 = distance as u64;
        assert(d * d <= 0xffff_ffff * 0xffff_ffff) by (nonlinear_arith)
            requires
                d <= 0xffff_ffff,
        ;
        let d2_wide: u64 = d * d;
        let d2: i64 = if d2_wide > MAX_DIST2 as u64 {
            MAX_DIST2
        } else {
            d2_wide as i64
        };
        let found = tree_within(&self.tree, loc, d2);
        let r = pairs_of(found);
        proof {
            let m = self.points();
            assert forall|e: Entry| #[trigger]
                entries(r@).to_multiset().count(e) == if entry_dist2(e, loc) <= distance * distance {
                    m.count(e)
                } else {
                    0
                } by {
                if m.count(e) > 0 {
                    assert(entry_in_range(e));
                    lemma_dist2_bounds(coord_of(e), loc);
                }
            }
        }
        r
    }

    /// Replaces everything held with `all`, built in one bulk load.
    pub fn recreate(&mut self, all: Vec<(Coord, EntityId)>)
        requires
            old(self).wf(),
            forall|i: int| 0 <= i < all@.len() ==> #[trigger] all@[i].0.in_range(),
        ensures
            final(self).wf(),
            final(self).points() =~= entries(all@).to_multiset(),
            final(self).min_moved_spec() == old(self).min_moved_spec(),
            final(self).recreate_after_spec() == old(self).recreate_after_spec(),
    {
        let items = entries_of(&all);
        proof {
            lemma_entries_in_range(all@);
        }
        self.tree = tree_bulk_load(items);
    }

    /// Adds one entry. An entity already held is then held twice.
    pub fn add_point(&mut self, point: (Coord, EntityId))
        requires
            old(self).wf(),
            point.0.in_range(),
        ensures
            final(self).wf(),
            final(self).points() =~= old(self).points().insert(pair_entry(point)),
            final(self).min_moved_spec() == old(self).min_moved_spec(),
            final(self).recreate_after_spec() == old(self).recreate_after_spec(),
    {
        tree_insert(&mut self.tree, (point.0.x, point.0.y, point.0.z, point.1));
    }

    /// Removes one entry equal to `point` in position and entity; tells
    /// whether there was one.
    pub fn remove_point(&mut self, point: (Coord, EntityId)) -> (r: bool)
        requires
            old(self).wf(),
            point.0.in_range(),
        ensures
            final(self).wf(),
            r == (old(self).points().count(pair_entry(point)) > 0),
            final(self).points() =~= old(self).points().remove(pair_entry(point)),
            final(self).min_moved_spec() == old(self).min_moved_spec(),
            final(self).recreate_after_spec() == old(self).recreate_after_spec(),
    {
        tree_remove(&mut self.tree, (point.0.x, point.0.y, point.0.z, point.1))
    }

    /// Removes every entry of `entity`, wherever it is held; tells whether
    /// there was any.
    pub fn remove_entity(&mut self, entity: EntityId) -> (r: bool)
        requires
            old(self).wf(),
        ensures
            final(self).wf(),
            r == tracks(old(self).points(), entity),
            final(self).points() =~= without_entity(old(self).points(), entity),
            final(self).min_moved_spec() == old(self).min_moved_spec(),
            final(self).recreate_after_spec() == old(self).recreate_after_spec(),
    {
        broadcast use vstd::seq_lib::group_to_multiset_ensures;

        let items = tree_items(&self.tree);
        let n = items.len();
        let ghost start = self.points();
        let mut removed = false;
        let mut i: usize = 0;
        assert(items@.subrange(0, n as int) =~= items@);
        while i < n
            invariant
                n == items@.len(),
                i <= n,
                self.wf(),
                items@.to_multiset() =~= start,
                self.min_moved == old(self).min_moved,
                self.recreate_after == old(self).recreate_after,
                start == old(self).points(),
                forall|x: Entry|
                    #[trigger] self.points().count(x) == if x.3 == entity {
                        items@.subrange(i as int, n as int).to_multiset().count(x)
                    } else {
                        start.count(x)
                    },
                removed == exists|j: int| 0 <= j < i && (#[trigger] items@[j]).3 == entity,
            decreases n - i,
        {
            let e = items[i];
            let ghost rest = items@.subrange(i as int, n as int);
            proof {
                assert(rest[0] == e);
                assert(rest.remove(0) =~= items@.subrange(i + 1, n as int));
                assert(rest.contains(e));
                vstd::seq_lib::to_multiset_contains(rest, e);
                assert(rest.to_multiset().count(e) > 0);
                rest.to_multiset_ensures();
                assert(rest.remove(0).to_multiset() =~= rest.to_multiset().remove(e));
            }
            if e.3 == entity {
                proof {
                    assert(self.points().count(e) > 0);
                    assert(entry_in_range(e));
                }
                tree_remove(&mut self.tree, e);
                removed = true;
            }
            i += 1;
        }
        proof {
            assert(items@.subrange(n as int, n as int) =~= Seq::<Entry>::empty());
            if removed {
                let j = choose|j: int| 0 <= j < n && (#[trigger] items@[j]).3 == entity;
                assert(items@.contains(items@[j]));
                vstd::seq_lib::to_multiset_contains(items@, items@[j]);
            }
            if tracks(start, entity) {
                let x = choose|x: Entry| start.count(x) > 0 && x.3 == entity;
                vstd::seq_lib::to_multiset_contains(items@, x);
                assert(items@.contains(x));
                let j = choose|j: int| 0 <= j < n && items@[j] == x;
                assert(items@[j].3 == entity);
            }
        }
        removed
    }

    /// Number of entries held.
    pub fn size(&self) -> (r: usize)
        ensures
            r == self.points().len(),
    {
        tree_size(&self.tree)
    }

    /// The squared displacement below which a move is not applied.
    pub fn get_min_dist(&self) -> (r: i64)
        ensures
            r == self.min_moved_spec(),
    {
        self.min_moved
    }

    /// The number of moved entities in one frame above which the whole
    /// index is rebuilt instead of patched.
    pub fn get_recreate_after(&self) -> (r: usize)
        ensures
            r == self.recreate_after_spec(),
    {
        self.recreate_after
    }
}

proof fn lemma_entries_in_range(s: Seq<(Coord, EntityId)>)
    requires
        forall|i: int| 0 <= i < s.len() ==> #[trigger] s[i].0.in_range(),
    ensures
        contents_in_range(entries(s).to_multiset()),
{
    broadcast use vstd::seq_lib::group_to_multiset_ensures;

    assert forall|e: Entry| entries(s).to_multiset().count(e) > 0 implies entry_in_range(e) by {
        assert(entries(s).contains(e));
        let i = choose|i: int| 0 <= i < entries(s).len() && entries(s)[i] == e;
        assert(s[i].0.in_range());
    }
}

} // verus!
