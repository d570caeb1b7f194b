use spatial_index::{plan_frame, Coord, FramePlan, Movement, RTreeAccess3D};

fn c(x: i64, y: i64, z: i64) -> Coord {
    Coord::new(x, y, z)
}

fn d2(a: Coord, b: Coord) -> i64 {
    (a.x - b.x) * (a.x - b.x) + (a.y - b.y) * (a.y - b.y) + (a.z - b.z) * (a.z - b.z)
}

/// Deterministic pseudo-random coordinates in [-range, range].
fn scatter(n: usize, range: i64, seed: u64) -> Vec<(Coord, u64)> {
    let mut s = seed;
    let mut next = || {
        s = s.wrapping_mul(6364136223846793005).wrapping_add(1442695040888963407);
        ((s >> 33) % (2 * range as u64 + 1)) as i64 - range
    };
    (0..n).map(|i| (c(next(), next(), next()), i as u64 + 1)).collect()
}

fn sorted_ids(v: &[(Coord, u64)]) -> Vec<u64> {
    let mut ids: Vec<u64> = v.iter().map(|p| p.1).collect();
    ids.sort();
    ids
}

/// Three points at doubled scale: (0,0,0), (1,0,0) and (5,5,5) become
/// (0,0,0), (2,0,0) and (10,10,10).
fn three_points() -> RTreeAccess3D {
    let mut idx = RTreeAccess3D::new(0, 10);
    idx.add_point((c(0, 0, 0), 1));
    idx.add_point((c(2, 0, 0), 2));
    idx.add_point((c(10, 10, 10), 3));
    idx
}

#[test]
fn scenario_nearest_tie() {
    let idx = three_points();
    let (pos, e) = idx.nearest_neighbour(c(1, 0, 0)).unwrap();
    assert!(e == 1 || e == 2);
    assert_eq!(idx.distance_squared(pos, c(1, 0, 0)), 1);
}

#[test]
fn scenario_k_nearest_two() {
    let idx = three_points();
    let r = idx.k_nearest_neighbour(c(0, 0, 0), 2);
    let ids: Vec<u64> = r.iter().map(|p| p.1).collect();
    assert_eq!(ids, vec![1, 2]);
    assert_eq!(r[0].0, c(0, 0, 0));
}

#[test]
fn scenario_within_radius() {
    let idx = three_points();
    let r = idx.within_distance(c(0, 0, 0), 3);
    assert_eq!(sorted_ids(&r), vec![1, 2]);
}

#[test]
fn within_radius_boundary_is_included() {
    let idx = three_points();
    assert_eq!(sorted_ids(&idx.within_distance(c(0, 0, 0), 2)), vec![1, 2]);
    assert_eq!(sorted_ids(&idx.within_distance(c(0, 0, 0), 1)), vec![1]);
    assert_eq!(sorted_ids(&idx.within_distance(c(0, 0, 0), u32::MAX)), vec![1, 2, 3]);
}

#[test]
fn empty_index_queries() {
    let idx = RTreeAccess3D::new(0, 0);
    assert_eq!(idx.size(), 0);
    assert!(idx.nearest_neighbour(c(0, 0, 0)).is_none());
    assert!(idx.k_nearest_neighbour(c(0, 0, 0), 5).is_empty());
    assert!(idx.within_distance(c(0, 0, 0), 100).is_empty());
}

#[test]
fn distance_squared_exact() {
    let idx = RTreeAccess3D::new(0, 0);
    assert_eq!(idx.distance_squared(c(1, 2, 3), c(4, 6, 3)), 25);
    assert_eq!(idx.distance_squared(c(-262144, -262144, -262144), c(262144, 262144, 262144)), 824633720832);
}

#[test]
fn policy_parameters_are_kept() {
    let idx = RTreeAccess3D::new(7, 3);
    assert_eq!(idx.get_min_dist(), 7);
    assert_eq!(idx.get_recreate_after(), 3);
}

#[test]
fn remove_point_needs_exact_match() {
    let mut idx = three_points();
    assert!(!idx.remove_point((c(2, 0, 0), 1)));
    assert_eq!(idx.size(), 3);
    assert!(idx.remove_point((c(2, 0, 0), 2)));
    assert_eq!(idx.size(), 2);
    assert!(!idx.remove_point((c(2, 0, 0), 2)));
}

#[test]
fn remove_entity_ignores_position() {
    let mut idx = three_points();
    assert!(idx.remove_entity(3));
    assert_eq!(idx.size(), 2);
    assert!(!idx.remove_entity(3));
    assert!(!idx.remove_entity(99));
    assert_eq!(idx.size(), 2);
}

#[test]
fn remove_entity_clears_duplicates() {
    let mut idx = three_points();
    idx.add_point((c(50, 50, 50), 2));
    assert_eq!(idx.size(), 4);
    assert!(idx.remove_entity(2));
    assert_eq!(idx.size(), 2);
    assert_eq!(sorted_ids(&idx.within_distance(c(0, 0, 0), 1000)), vec![1, 3]);
}

#[test]
fn size_tracks_distinct_entities() {
    let mut idx = RTreeAccess3D::new(0, 5);
    let pts = scatter(40, 1000, 11);
    for p in &pts {
        idx.add_point(*p);
    }
    assert_eq!(idx.size(), 40);
    for p in pts.iter().take(10) {
        assert!(idx.remove_entity(p.1));
    }
    assert_eq!(idx.size(), 30);
    idx.add_point((c(1, 1, 1), 500));
    assert_eq!(idx.size(), 31);
    idx.recreate(scatter(7, 1000, 12));
    assert_eq!(idx.size(), 7);
}

#[test]
fn add_then_remove_entity_round_trip() {
    let mut idx = three_points();
    let before = idx.size();
    idx.add_point((c(4, 4, 4), 77));
    assert!(idx.remove_entity(77));
    assert_eq!(idx.size(), before);
}

#[test]
fn nearest_matches_brute_force() {
    let pts = scatter(200, 5000, 3);
    let idx = RTreeAccess3D::with_points(pts.clone(), 0, 0);
    for q in scatter(30, 6000, 4) {
        let (pos, _) = idx.nearest_neighbour(q.0).unwrap();
        let best = pts.iter().map(|p| d2(p.0, q.0)).min().unwrap();
        assert_eq!(d2(pos, q.0), best);
    }
}

#[test]
fn k_nearest_is_ordered_and_sized() {
    let pts = scatter(120, 3000, 5);
    let idx = RTreeAccess3D::with_points(pts.clone(), 0, 0);
    for (k, q) in [0usize, 1, 7, 120, 500].iter().zip(scatter(5, 3000, 6)) {
        let r = idx.k_nearest_neighbour(q.0, *k);
        assert_eq!(r.len(), (*k).min(idx.size()));
        for w in r.windows(2) {
            assert!(d2(w[0].0, q.0) <= d2(w[1].0, q.0));
        }
        let mut all: Vec<i64> = pts.iter().map(|p| d2(p.0, q.0)).collect();
        all.sort();
        let got: Vec<i64> = r.iter().map(|p| d2(p.0, q.0)).collect();
        assert_eq!(got, all[..r.len()].to_vec());
    }
}

#[test]
fn within_distance_matches_brute_force() {
    let pts = scatter(150, 2000, 8);
    let idx = RTreeAccess3D::with_points(pts.clone(), 0, 0);
    for (r, q) in [0u32, 100, 700, 1500, 5000].iter().zip(scatter(5, 2000, 9)) {
        let got = sorted_ids(&idx.within_distance(q.0, *r));
        let want: Vec<(Coord, u64)> =
            pts.iter().filter(|p| d2(p.0, q.0) <= (*r as i64) * (*r as i64)).cloned().collect();
        assert_eq!(got, sorted_ids(&want));
    }
}

#[test]
fn within_distance_keeps_points_at_query() {
    let mut idx = RTreeAccess3D::new(0, 0);
    idx.add_point((c(3, 3, 3), 1));
    idx.add_point((c(3, 3, 3), 2));
    assert_eq!(sorted_ids(&idx.within_distance(c(3, 3, 3), 0)), vec![1, 2]);
}

#[test]
fn recreate_matches_fresh_bulk_load() {
    let mut idx = RTreeAccess3D::new(0, 0);
    for p in scatter(60, 4000, 21) {
        idx.add_point(p);
    }
    idx.remove_entity(5);
    let s = scatter(80, 4000, 22);
    idx.recreate(s.clone());
    let fresh = RTreeAccess3D::with_points(s, 0, 0);
    assert_eq!(idx.size(), fresh.size());
    for q in scatter(10, 4000, 23) {
        let a: Vec<i64> = idx.k_nearest_neighbour(q.0, 10).iter().map(|p| d2(p.0, q.0)).collect();
        let b: Vec<i64> = fresh.k_nearest_neighbour(q.0, 10).iter().map(|p| d2(p.0, q.0)).collect();
        assert_eq!(a, b);
        assert_eq!(sorted_ids(&idx.within_distance(q.0, 1500)), sorted_ids(&fresh.within_distance(q.0, 1500)));
    }
}

fn mv(entity: u64, from: Coord, to: Coord) -> Movement {
    Movement { entity, from, to }
}

#[test]
fn small_move_is_ignored() {
    // A threshold of 1.0 and a move of 0.5 at doubled scale.
    let plan = plan_frame(&vec![mv(1, c(0, 0, 0), c(1, 0, 0))], 4, 5);
    match plan {
        FramePlan::Patch(v) => assert!(v.is_empty()),
        FramePlan::Rebuild => panic!("a small move must not rebuild"),
    }
}

#[test]
fn large_move_is_patched() {
    let m = mv(1, c(0, 0, 0), c(4, 0, 0));
    match plan_frame(&vec![m], 4, 5) {
        FramePlan::Patch(v) => assert_eq!(v, vec![m]),
        FramePlan::Rebuild => panic!("one move must not rebuild"),
    }
}

#[test]
fn move_at_threshold_counts() {
    let m = mv(1, c(0, 0, 0), c(2, 0, 0));
    match plan_frame(&vec![m], 4, 5) {
        FramePlan::Patch(v) => assert_eq!(v, vec![m]),
        FramePlan::Rebuild => panic!("one move must not rebuild"),
    }
}

#[test]
fn too_many_moves_rebuild_once() {
    let mut idx = RTreeAccess3D::new(4, 2);
    idx.add_point((c(0, 0, 0), 1));
    idx.add_point((c(10, 0, 0), 2));
    idx.add_point((c(20, 0, 0), 3));
    let moves = vec![
        mv(1, c(0, 0, 0), c(0, 9, 0)),
        mv(2, c(10, 0, 0), c(10, 9, 0)),
        mv(3, c(20, 0, 0), c(20, 9, 0)),
    ];
    let snapshot = vec![(c(0, 9, 0), 1), (c(10, 9, 0), 2), (c(20, 9, 0), 3)];
    match idx.update_frame(&moves, snapshot) {
        FramePlan::Rebuild => {}
        FramePlan::Patch(_) => panic!("three moves above a limit of two must rebuild"),
    }
    assert_eq!(idx.size(), 3);
    assert_eq!(idx.nearest_neighbour(c(0, 9, 0)).unwrap(), (c(0, 9, 0), 1));
}

#[test]
fn few_moves_patch_in_place() {
    let mut idx = RTreeAccess3D::new(4, 2);
    idx.add_point((c(0, 0, 0), 1));
    idx.add_point((c(10, 0, 0), 2));
    idx.add_point((c(20, 0, 0), 3));
    let moves = vec![mv(1, c(0, 0, 0), c(0, 9, 0)), mv(2, c(10, 0, 0), c(10, 1, 0))];
    // The snapshot is not used when patching.
    match idx.update_frame(&moves, Vec::new()) {
        FramePlan::Patch(v) => assert_eq!(v, vec![moves[0]]),
        FramePlan::Rebuild => panic!("one counted move must patch"),
    }
    assert_eq!(idx.size(), 3);
    assert_eq!(idx.nearest_neighbour(c(0, 9, 0)).unwrap(), (c(0, 9, 0), 1));
    assert_eq!(idx.nearest_neighbour(c(10, 0, 0)).unwrap(), (c(10, 0, 0), 2));
}
