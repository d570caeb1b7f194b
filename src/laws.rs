use vstd::multiset::Multiset;
use vstd::prelude::*;
use crate::index::{entries, is_within, pair_entry, pairs_k_nearest, tracks, without_entity};
use crate::policy::{patched, patched_all, Movement};
use crate::point::{Coord, Entry, EntityId};

verus! {

/// No entity is held twice, whether at one position or at two.
pub open spec fn unique_entities(m: Multiset<Entry>) -> bool {
    forall|x: Entry, y: Entry|
        #![trigger m.count(x), m.count(y)]
        m.count(x) > 0 && m.count(y) > 0 && x.3 == y.3 ==> x == y && m.count(x) == 1
}

/// The entities that `m` holds.
pub open spec fn entity_set(m: Multiset<Entry>) -> Set<EntityId> {
    Set::new(|e: EntityId| tracks(m, e))
}

/// While no entity is held twice, the number of entries held is the number
/// of distinct entities tracked.
pub proof fn lemma_size_is_entity_count(m: Multiset<Entry>)
    requires
        unique_entities(m),
    ensures
        entity_set(m).finite(),
        m.len() == entity_set(m).len(),
    decreases m.len(),
{
    broadcast use vstd::multiset::group_multiset_axioms;

    if m.len() == 0 {
        assert(entity_set(m) =~= Set::<EntityId>::empty()) by {
            assert forall|e: EntityId| !entity_set(m).contains(e) by {
                if tracks(m, e) {
                    let x = choose|x: Entry| m.count(x) > 0 && x.3 == e;
                }
            }
        }
    } else {
        let x = m.choose();
        assert(m.count(x) > 0);
        let rest = m.remove(x);
        assert(rest.len() == m.len() - 1);
        assert(unique_entities(rest));
        lemma_size_is_entity_count(rest);
        assert(entity_set(m) =~= entity_set(rest).insert(x.3)) by {
            assert forall|e: EntityId| entity_set(m).contains(e) implies entity_set(rest).insert(
                x.3,
            ).contains(e) by {
                let y = choose|y: Entry| m.count(y) > 0 && y.3 == e;
                if y != x {
                    assert(rest.count(y) > 0);
                }
            }
            assert forall|e: EntityId| entity_set(rest).insert(x.3).contains(e) implies entity_set(
                m,
            ).contains(e) by {
                if e != x.3 {
                    let y = choose|y: Entry| rest.count(y) > 0 && y.3 == e;
                    assert(m.count(y) > 0);
                }
            }
        }
        assert(!entity_set(rest).contains(x.3)) by {
            if tracks(rest, x.3) {
                let y = choose|y: Entry| rest.count(y) > 0 && y.3 == x.3;
                assert(m.count(y) > 0);
            }
        }
    }
}

/// Adding an entity that is not tracked keeps every entity held once.
pub proof fn lemma_add_untracked_keeps_unique(m: Multiset<Entry>, point: (Coord, EntityId))
    requires
        unique_entities(m),
        !tracks(m, point.1),
    ensures
        unique_entities(m.insert(pair_entry(point))),
{
    broadcast use vstd::multiset::group_multiset_axioms;

    let p = pair_entry(point);
    let n = m.insert(p);
    assert forall|x: Entry, y: Entry|
        n.count(x) > 0 && n.count(y) > 0 && x.3 == y.3 implies x == y && n.count(x) == 1 by {
        if x != p {
            assert(m.count(x) > 0);
        }
        if y != p {
            assert(m.count(y) > 0);
        }
        if x == p {
            assert(m.count(p) == 0);
        }
    }
}

/// Taking an entity out keeps every other entity held once.
pub proof fn lemma_remove_entity_keeps_unique(m: Multiset<Entry>, entity: EntityId)
    requires
        unique_entities(m),
    ensures
        unique_entities(without_entity(m, entity)),
        !tracks(without_entity(m, entity), entity),
{
    broadcast use vstd::multiset::group_multiset_axioms;

}

/// No entity occurs twice in a list of pairs.
pub open spec fn distinct_entities(s: Seq<(Coord, EntityId)>) -> bool {
    forall|i: int, j: int| 0 <= i < j < s.len() ==> s[i].1 != s[j].1
}

/// Rebuilding from a list in which no entity occurs twice holds every entity
/// once.
pub proof fn lemma_recreate_unique(s: Seq<(Coord, EntityId)>)
    requires
        distinct_entities(s),
    ensures
        unique_entities(entries(s).to_multiset()),
    decreases s.len(),
{
    broadcast use vstd::multiset::group_multiset_axioms;

    if s.len() == 0 {
        assert(entries(s) =~= Seq::<Entry>::empty());
        entries(s).to_multiset_ensures();
        assert(entries(s).to_multiset().len() == 0);
    } else {
        let prior = s.drop_last();
        let last = s.last();
        assert(distinct_entities(prior));
        lemma_recreate_unique(prior);
        assert(entries(s) =~= entries(prior).push(pair_entry(last)));
        entries(prior).to_multiset_ensures();
        assert(!tracks(entries(prior).to_multiset(), last.1)) by {
            if tracks(entries(prior).to_multiset(), last.1) {
                let x = choose|x: Entry| entries(prior).to_multiset().count(x) > 0 && x.3 == last.1;
                assert(entries(prior).contains(x));
                let i = choose|i: int| 0 <= i < entries(prior).len() && entries(prior)[i] == x;
                assert(s[i].1 == s[s.len() - 1].1);
            }
        }
        lemma_add_untracked_keeps_unique(entries(prior).to_multiset(), last);
    }
}

/// A point-level patch keeps every entity held once.
pub proof fn lemma_patch_keeps_unique(m: Multiset<Entry>, mv: Movement)
    requires
        unique_entities(m),
    ensures
        unique_entities(patched(m, mv)),
{
    lemma_remove_entity_keeps_unique(m, mv.entity);
    lemma_add_untracked_keeps_unique(without_entity(m, mv.entity), (mv.to, mv.entity));
}

/// A frame's patches, applied in order, keep every entity held once.
pub proof fn lemma_patches_keep_unique(m: Multiset<Entry>, s: Seq<Movement>)
    requires
        unique_entities(m),
    ensures
        unique_entities(patched_all(m, s)),
    decreases s.len(),
{
    if s.len() > 0 {
        lemma_patches_keep_unique(m, s.drop_last());
        lemma_patch_keeps_unique(patched_all(m, s.drop_last()), s.last());
    }
}

/// Adding a point for an entity that is not tracked and then removing that
/// entity reports a removal and leaves what was held before.
pub proof fn lemma_add_then_remove_entity(m: Multiset<Entry>, point: (Coord, EntityId))
    requires
        !tracks(m, point.1),
    ensures
        tracks(m.insert(pair_entry(point)), point.1),
        without_entity(m.insert(pair_entry(point)), point.1) =~= m,
        without_entity(m.insert(pair_entry(point)), point.1).len() == m.len(),
{
    broadcast use vstd::multiset::group_multiset_axioms;

    let p = pair_entry(point);
    assert(m.insert(p).count(p) > 0);
    assert forall|x: Entry| #[trigger] m.count(x) > 0 implies x.3 != point.1 by {}
    assert(without_entity(m.insert(p), point.1) =~= m);
}

/// An index rebuilt from `s` and an index bulk-built from `s` hold the same
/// entries, so each accepts exactly the query answers that the other does.
pub proof fn lemma_rebuild_equivalence(
    rebuilt: Multiset<Entry>,
    fresh: Multiset<Entry>,
    s: Seq<(Coord, EntityId)>,
)
    requires
        rebuilt =~= entries(s).to_multiset(),
        fresh =~= entries(s).to_multiset(),
    ensures
        rebuilt == fresh,
        forall|r: Seq<(Coord, EntityId)>, q: Coord, k: nat|
            pairs_k_nearest(r, rebuilt, q, k) <==> pairs_k_nearest(r, fresh, q, k),
        forall|r: Seq<(Coord, EntityId)>, q: Coord, d2: int|
            is_within(entries(r), rebuilt, q, d2) <==> is_within(entries(r), fresh, q, d2),
{
}

} // verus!
