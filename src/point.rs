use vstd::prelude::*;

verus! {

/// Largest magnitude of a coordinate on any axis.
///
/// The tree computes box volumes in the coordinate type: with this bound the
/// volume of any box, and the sum of a node's overlaps, stay far below
/// `i64::MAX`.
pub const COORD_LIMIT: i64 = 262144;

/// The host's opaque identifier of an entity.
pub type EntityId = u64;

/// A position in fixed-point units.
#[derive(Clone, Copy, Debug, PartialEq, Eq, Structural)]
pub struct Coord {
    pub x: i64,
    pub y: i64,
    pub z: i64,
}

/// One indexed element as the tree holds it: x, y, z and the entity.
pub type Entry = (i64, i64, i64, u64);

pub open spec fn axis_in_range(v: int) -> bool {
    -COORD_LIMIT <= v <= COORD_LIMIT
}

impl Coord {
    pub open spec fn in_range(self) -> bool {
        axis_in_range(self.x as int) && axis_in_range(self.y as int) && axis_in_range(self.z as int)
    }

    pub fn new(x: i64, y: i64, z: i64) -> (r: Coord)
        ensures
            r == (Coord { x, y, z }),
    {
        Coord { x, y, z }
    }
}

pub open spec fn entry_in_range(e: Entry) -> bool {
    axis_in_range(e.0 as int) && axis_in_range(e.1 as int) && axis_in_range(e.2 as int)
}

/// The entry that stands for `entity` at `c`.
pub open spec fn entry_of(c: Coord, entity: EntityId) -> Entry {
    (c.x, c.y, c.z, entity)
}

pub open spec fn coord_of(e: Entry) -> Coord {
    Coord { x: e.0, y: e.1, z: e.2 }
}

pub open spec fn sq(v: int) -> int {
    v * v
}

/// Squared Euclidean distance between two positions.
pub open spec fn dist2(a: Coord, b: Coord) -> int {
    sq(a.x - b.x) + sq(a.y - b.y) + sq(a.z - b.z)
}

/// Squared distance from an entry to a query position.
pub open spec fn entry_dist2(e: Entry, q: Coord) -> int {
    dist2(coord_of(e), q)
}

proof fn lemma_sq_bound(d: int)
    requires
        -2 * COORD_LIMIT <= d <= 2 * COORD_LIMIT,
    ensures
        0 <= sq(d) <= 274877906944,
{
    let l: int = 524288;
    assert(0 <= d * d <= l * l) by (nonlinear_arith)
        requires
            -l <= d <= l,
    ;
    assert(l * l == 274877906944);
}

/// Squared distance between two positions in range, bounded by the widest
/// span the range admits.
pub proof fn lemma_dist2_bounds(a: Coord, b: Coord)
    requires
        a.in_range(),
        b.in_range(),
    ensures
        0 <= dist2(a, b) <= 824633720832,
{
    lemma_sq_bound(a.x - b.x);
    lemma_sq_bound(a.y - b.y);
    lemma_sq_bound(a.z - b.z);
}

/// Squared Euclidean distance between two positions in range.
pub fn distance_squared(a: Coord, b: Coord) -> (r: i64)
    requires
        a.in_range(),
        b.in_range(),
    ensures
        r == dist2(a, b),
{
    let dx = a.x - b.x;
    let dy = a.y - b.y;
    let dz = a.z - b.z;
    proof {
        lemma_sq_bound(dx as int);
        lemma_sq_bound(dy as int);
        lemma_sq_bound(dz as int);
        assert(sq(dx as int) == dx * dx);
        assert(sq(dy as int) == dy * dy);
        assert(sq(dz as int) == dz * dz);
    }
    dx * dx + dy * dy + dz * dz
}

} // verus!
