use vstd::multiset::Multiset;
use vstd::prelude::*;
use crate::index::{entries, without_entity, RTreeAccess3D};
use crate::point::{dist2, distance_squared, entry_of, Coord, Entry, EntityId};

verus! {

/// One entity's change of position during a frame.
#[derive(Clone, Copy, Debug, PartialEq, Eq, Structural)]
pub struct Movement {
    pub entity: EntityId,
    pub from: Coord,
    pub to: Coord,
}

/// What a frame does to one category's index.
#[derive(Debug)]
pub enum FramePlan {
    /// Each listed move is applied as a removal of the entity followed by an
    /// insertion at its new position.
    Patch(Vec<Movement>),
    /// Too many entities moved: the index is rebuilt once from a full snapshot.
    Rebuild,
}

pub open spec fn movement_in_range(m: Movement) -> bool {
    m.from.in_range() && m.to.in_range()
}

pub open spec fn movements_in_range(s: Seq<Movement>) -> bool {
    forall|i: int| 0 <= i < s.len() ==> movement_in_range(#[trigger] s[i])
}

/// A move counts when its squared displacement reaches `min_moved`.
pub open spec fn moved_enough(m: Movement, min_moved: int) -> bool {
    dist2(m.from, m.to) >= min_moved
}

/// The moves of `s` that count, in order.
pub open spec fn moved_in(s: Seq<Movement>, min_moved: int) -> Seq<Movement>
    decreases s.len(),
{
    if s.len() == 0 {
        Seq::empty()
    } else {
        let prior = moved_in(s.drop_last(), min_moved);
        if moved_enough(s.last(), min_moved) {
            prior.push(s.last())
        } else {
            prior
        }
    }
}

/// The plan that the policy owes for `moves`.
pub open spec fn is_plan_for(
    r: FramePlan,
    moves: Seq<Movement>,
    min_moved: int,
    recreate_after: nat,
) -> bool {
    match r {
        FramePlan::Rebuild => moved_in(moves, min_moved).len() > recreate_after,
        FramePlan::Patch(v) => moved_in(moves, min_moved).len() <= recreate_after && v@ == moved_in(
            moves,
            min_moved,
        ),
    }
}

/// `m` after one move is applied as a point-level patch.
pub open spec fn patched(m: Multiset<Entry>, mv: Movement) -> Multiset<Entry> {
    without_entity(m, mv.entity).insert(entry_of(mv.to, mv.entity))
}

/// `m` after the moves of `s` are applied one after another.
pub open spec fn patched_all(m: Multiset<Entry>, s: Seq<Movement>) -> Multiset<Entry>
    decreases s.len(),
{
    if s.len() == 0 {
        m
    } else {
        patched(patched_all(m, s.drop_last()), s.last())
    }
}

/// Decides, for one frame's moves, between patching and one rebuild.
///
/// Moves whose squared displacement is below `min_moved` are ignored. When
/// more than `recreate_after` moves remain, the frame rebuilds; otherwise it
/// patches exactly those moves, in order.
pub fn plan_frame(moves: &Vec<Movement>, min_moved: i64, recreate_after: usize) -> (r: FramePlan)
    requires
        movements_in_range(moves@),
    ensures
        is_plan_for(r, moves@, min_moved as int, recreate_after as nat),
{
    let mut moved: Vec<Movement> = Vec::new();
    let mut i: usize = 0;
    while i < moves.len()
        invariant
            i <= moves.len(),
            movements_in_range(moves@),
            moved@ == moved_in(moves@.subrange(0, i as int), min_moved as int),
        decreases moves.len() - i,
    {
        let m = moves[i];
        proof {
            assert(movement_in_range(moves@[i as int]));
            assert(moves@.subrange(0, i + 1).drop_last() =~= moves@.subrange(0, i as int));
            assert(moves@.subrange(0, i + 1).last() == m);
        }
        if distance_squared(m.from, m.to) >= min_moved {
            moved.push(m);
        }
        i += 1;
    }
    assert(moves@.subrange(0, moves.len() as int) =~= moves@);
    if moved.len() > recreate_after {
        FramePlan::Rebuild
    } else {
        FramePlan::Patch(moved)
    }
}

impl RTreeAccess3D {
    /// Brings the index up to date with one frame's moves.
    ///
    /// `snapshot` holds every tracked entity at its current position; it is
    /// used only when the frame rebuilds. Returns the plan that was carried
    /// out.
    pub fn update_frame(&mut self, moves: &Vec<Movement>, snapshot: Vec<(Coord, EntityId)>) -> (r:
        FramePlan)
        requires
            old(self).wf(),
            movements_in_range(moves@),
            forall|i: int| 0 <= i < snapshot@.len() ==> #[trigger] snapshot@[i].0.in_range(),
        ensures
            final(self).wf(),
            final(self).min_moved_spec() == old(self).min_moved_spec(),
            final(self).recreate_after_spec() == old(self).recreate_after_spec(),
            is_plan_for(r, moves@, old(self).min_moved_spec(), old(self).recreate_after_spec()),
            r is Rebuild ==> final(self).points() =~= entries(snapshot@).to_multiset(),
            r matches FramePlan::Patch(v) ==> final(self).points() =~= patched_all(
                old(self).points(),
                v@,
            ),
    {
        let plan = plan_frame(moves, self.get_min_dist(), self.get_recreate_after());
        match plan {
            FramePlan::Rebuild => {
                self.recreate(snapshot);
                FramePlan::Rebuild
            },
            FramePlan::Patch(v) => {
                let ghost start = self.points();
                let ghost min_moved = self.min_moved_spec();
                let ghost recreate_after = self.recreate_after_spec();
                let mut j: usize = 0;
                while j < v.len()
                    invariant
                        j <= v.len(),
                        self.wf(),
                        self.min_moved_spec() == min_moved,
                        self.recreate_after_spec() == recreate_after,
                        v@ == moved_in(moves@, min_moved),
                        movements_in_range(moves@),
                        self.points() == patched_all(start, v@.subrange(0, j as int)),
                    decreases v.len() - j,
                {
                    let mv = v[j];
                    proof {
                        lemma_moved_in_range(moves@, min_moved);
                        assert(movement_in_range(v@[j as int]));
                        assert(v@.subrange(0, j + 1).drop_last() =~= v@.subrange(0, j as int));
                        assert(v@.subrange(0, j + 1).last() == mv);
                    }
                    self.remove_entity(mv.entity);
                    self.add_point((mv.to, mv.entity));
                    j += 1;
                }
                assert(v@.subrange(0, v.len() as int) =~= v@);
                FramePlan::Patch(v)
            },
        }
    }
}

/// The counted moves are moves of the frame, so they stay in range.
proof fn lemma_moved_in_range(s: Seq<Movement>, min_moved: int)
    requires
        movements_in_range(s),
    ensures
        movements_in_range(moved_in(s, min_moved)),
    decreases s.len(),
{
    if s.len() > 0 {
        assert(movements_in_range(s.drop_last()));
        lemma_moved_in_range(s.drop_last(), min_moved);
        assert(movement_in_range(s[s.len() - 1]));
    }
}

} // verus!
