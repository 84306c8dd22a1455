use flock_sim::point::Point3;
use flock_sim::point::div_floor;
use flock_sim::spatial::BrutePartition;
use flock_sim::spatial::ConfigError;
use flock_sim::spatial::IndexPartition;
use flock_sim::spatial::KdTreeSpace;
use flock_sim::spatial::RTreeStorage;
use flock_sim::spatial::SpatialPartition;
use flock_sim::spatial::SpatialRes;
use flock_sim::spatial::Space;
use flock_sim::spatial::kdtree_resource;
use flock_sim::spatial::perception_system;
use flock_sim::spatial::spatial_hash_system;

fn p(x: i64, y: i64, z: i64) -> Point3 {
    Point3 { x, y, z }
}

fn sorted(mut v: Vec<u64>) -> Vec<u64> {
    v.sort();
    v
}

fn grid(cell: i64) -> IndexPartition {
    IndexPartition::new(cell).unwrap()
}

fn abc() -> Vec<(u64, Point3)> {
    vec![(1, p(0, 0, 0)), (2, p(10, 0, 0)), (3, p(50, 0, 0))]
}

#[test]
fn concrete_scenario_grid() {
    let mut s = grid(32);
    s.clear();
    s.bulk_insert(abc());
    assert_eq!(sorted(s.get_nearby_ent(&p(0, 0, 0), 20)), vec![1, 2]);
}

#[test]
fn concrete_scenario_kdtree() {
    let mut s = KdTreeSpace::new();
    s.clear();
    s.bulk_insert(abc());
    assert_eq!(sorted(s.get_nearby_ent(&p(0, 0, 0), 20)), vec![1, 2]);
}

#[test]
fn concrete_scenario_rtree() {
    let mut s = RTreeStorage::new();
    s.clear();
    s.bulk_insert(abc());
    assert_eq!(sorted(s.get_nearby_ent(&p(0, 0, 0), 20)), vec![1, 2]);
}

#[test]
fn concrete_scenario_brute() {
    let mut s = BrutePartition::new();
    s.clear();
    s.bulk_insert(abc());
    assert_eq!(sorted(s.get_nearby_ent(&p(0, 0, 0), 20)), vec![1, 2]);
}

#[test]
fn empty_bulk_insert_returns_nothing() {
    let origin = p(7, -3, 11);
    let mut g = grid(128);
    g.clear();
    g.bulk_insert(Vec::new());
    assert!(g.get_nearby_ent(&origin, 100).is_empty());
    let mut k = KdTreeSpace::new();
    k.clear();
    k.bulk_insert(Vec::new());
    assert!(k.get_nearby_ent(&origin, 100).is_empty());
    let mut r = RTreeStorage::new();
    r.clear();
    r.bulk_insert(Vec::new());
    assert!(r.get_nearby_ent(&origin, 100).is_empty());
    let mut b = BrutePartition::new();
    b.clear();
    b.bulk_insert(Vec::new());
    assert!(b.get_nearby_ent(&origin, 100).is_empty());
}

#[test]
fn cleared_index_is_empty() {
    let mut g = grid(32);
    g.bulk_insert(abc());
    g.clear();
    assert!(g.get_nearby_ent(&p(0, 0, 0), 30).is_empty());
    let mut k = KdTreeSpace::new();
    k.bulk_insert(abc());
    k.clear();
    assert!(k.get_nearby_ent(&p(0, 0, 0), 30).is_empty());
    let mut r = RTreeStorage::new();
    r.bulk_insert(abc());
    r.clear();
    assert!(r.get_nearby_ent(&p(0, 0, 0), 30).is_empty());
    let mut b = BrutePartition::new();
    b.bulk_insert(abc());
    b.clear();
    assert!(b.get_nearby_ent(&p(0, 0, 0), 30).is_empty());
}

#[test]
fn agent_at_query_origin_is_included() {
    let mut g = grid(64);
    g.bulk_insert(vec![(9, p(-5, 8, 3))]);
    assert_eq!(g.get_nearby_ent(&p(-5, 8, 3), 10), vec![9]);
    let mut b = BrutePartition::new();
    b.bulk_insert(vec![(9, p(-5, 8, 3))]);
    assert_eq!(b.get_nearby_ent(&p(-5, 8, 3), 10), vec![9]);
}

#[test]
fn boundary_distance_is_included() {
    // (3, 4, 0) is at distance exactly 5 from the origin.
    let batch = vec![(4, p(3, 4, 0))];
    let mut g = grid(32);
    g.bulk_insert(batch.clone());
    assert_eq!(g.get_nearby_ent(&p(0, 0, 0), 5), vec![4]);
    let mut k = KdTreeSpace::new();
    k.bulk_insert(batch.clone());
    assert_eq!(k.get_nearby_ent(&p(0, 0, 0), 5), vec![4]);
    let mut r = RTreeStorage::new();
    r.bulk_insert(batch.clone());
    assert_eq!(r.get_nearby_ent(&p(0, 0, 0), 5), vec![4]);
    let mut b = BrutePartition::new();
    b.bulk_insert(batch);
    assert_eq!(b.get_nearby_ent(&p(0, 0, 0), 5), vec![4]);
}

#[test]
fn just_beyond_boundary_is_excluded() {
    let batch = vec![(4, p(3, 4, 0))];
    let mut g = grid(32);
    g.bulk_insert(batch.clone());
    assert!(g.get_nearby_ent(&p(0, 0, 0), 4).is_empty());
    let mut k = KdTreeSpace::new();
    k.bulk_insert(batch.clone());
    assert!(k.get_nearby_ent(&p(0, 0, 0), 4).is_empty());
    let mut r = RTreeStorage::new();
    r.bulk_insert(batch.clone());
    assert!(r.get_nearby_ent(&p(0, 0, 0), 4).is_empty());
    let mut b = BrutePartition::new();
    b.bulk_insert(batch);
    assert!(b.get_nearby_ent(&p(0, 0, 0), 4).is_empty());
}

#[test]
fn negative_radius_selects_nothing() {
    let mut g = grid(32);
    g.bulk_insert(abc());
    assert!(g.get_nearby_ent(&p(0, 0, 0), -1).is_empty());
    let mut k = KdTreeSpace::new();
    k.bulk_insert(abc());
    assert!(k.get_nearby_ent(&p(0, 0, 0), -1).is_empty());
    let mut r = RTreeStorage::new();
    r.bulk_insert(abc());
    assert!(r.get_nearby_ent(&p(0, 0, 0), -1).is_empty());
    let mut b = BrutePartition::new();
    b.bulk_insert(abc());
    assert!(b.get_nearby_ent(&p(0, 0, 0), -1).is_empty());
}

#[test]
fn zero_radius_selects_only_colocated() {
    let mut b = BrutePartition::new();
    b.bulk_insert(vec![(1, p(2, 2, 2)), (2, p(2, 2, 3))]);
    assert_eq!(b.get_nearby_ent(&p(2, 2, 2), 0), vec![1]);
}

#[test]
fn grid_rejects_nonpositive_cell_size() {
    assert_eq!(IndexPartition::new(0).err(), Some(ConfigError::CellSizeNotPositive));
    assert_eq!(IndexPartition::new(-3).err(), Some(ConfigError::CellSizeNotPositive));
    assert!(IndexPartition::new(1).is_ok());
}

#[test]
fn kdtree_single_insert_is_unsupported() {
    let mut k = KdTreeSpace::new();
    k.insert(5, &p(0, 0, 0));
    assert!(k.get_nearby_ent(&p(0, 0, 0), 10).is_empty());
}

#[test]
fn rtree_single_insert() {
    let mut r = RTreeStorage::new();
    r.insert(5, &p(1, 1, 1));
    r.insert(6, &p(40, 0, 0));
    assert_eq!(sorted(r.get_nearby_ent(&p(0, 0, 0), 10)), vec![5]);
    assert_eq!(sorted(r.get_nearby_ent(&p(0, 0, 0), 50)), vec![5, 6]);
}

#[test]
fn grid_single_insert() {
    let mut g = grid(16);
    g.insert(5, &p(1, 1, 1));
    g.insert(6, &p(40, 0, 0));
    assert_eq!(sorted(g.get_nearby_ent(&p(0, 0, 0), 10)), vec![5]);
}

#[test]
fn brute_single_insert() {
    let mut b = BrutePartition::new();
    b.insert(5, &p(1, 1, 1));
    b.insert(6, &p(40, 0, 0));
    assert_eq!(sorted(b.get_nearby_ent(&p(0, 0, 0), 10)), vec![5]);
}

fn scattered() -> Vec<(u64, Point3)> {
    vec![
        (1, p(0, 0, 0)),
        (2, p(13, -7, 2)),
        (3, p(-40, 22, -1)),
        (4, p(8, 8, 8)),
        (5, p(-3, -4, 0)),
        (6, p(100, 100, 100)),
        (7, p(-100, 0, 14)),
        (8, p(31, 0, 0)),
        (9, p(0, 32, 0)),
        (10, p(0, 0, -33)),
        (11, p(20, 20, -20)),
        (12, p(-16, 15, 14)),
        (13, p(1, 2, 3)),
        (14, p(-1, -2, -3)),
        (15, p(64, -64, 64)),
    ]
}

#[test]
fn schemes_agree_on_scattered_points() {
    let origins = [p(0, 0, 0), p(10, 10, 10), p(-20, 5, 0), p(64, -64, 64)];
    let radii = [0, 5, 17, 32];
    for origin in origins.iter() {
        for &radius in radii.iter() {
            let mut g = grid(32);
            g.clear();
            g.bulk_insert(scattered());
            let mut k = KdTreeSpace::new();
            k.clear();
            k.bulk_insert(scattered());
            let mut r = RTreeStorage::new();
            r.clear();
            r.bulk_insert(scattered());
            let mut b = BrutePartition::new();
            b.clear();
            b.bulk_insert(scattered());
            let expect = sorted(b.get_nearby_ent(origin, radius));
            assert_eq!(sorted(g.get_nearby_ent(origin, radius)), expect);
            assert_eq!(sorted(k.get_nearby_ent(origin, radius)), expect);
            assert_eq!(sorted(r.get_nearby_ent(origin, radius)), expect);
        }
    }
}

#[test]
fn rebuild_twice_gives_identical_results() {
    let mut k = KdTreeSpace::new();
    k.clear();
    k.bulk_insert(scattered());
    let first = sorted(k.get_nearby_ent(&p(0, 0, 0), 25));
    k.clear();
    k.bulk_insert(scattered());
    let second = sorted(k.get_nearby_ent(&p(0, 0, 0), 25));
    assert_eq!(first, second);
    let mut g = grid(32);
    g.clear();
    g.bulk_insert(scattered());
    let g1 = sorted(g.get_nearby_ent(&p(0, 0, 0), 25));
    g.clear();
    g.bulk_insert(scattered());
    let g2 = sorted(g.get_nearby_ent(&p(0, 0, 0), 25));
    assert_eq!(g1, g2);
    assert_eq!(first, g1);
}

#[test]
fn duplicate_handles_and_positions_are_kept() {
    let mut b = BrutePartition::new();
    b.bulk_insert(vec![(1, p(0, 0, 0)), (1, p(0, 0, 0)), (2, p(0, 0, 1))]);
    let out = b.get_nearby_ent(&p(0, 0, 0), 2);
    assert_eq!(out.iter().filter(|&&h| h == 1).count(), 2);
    assert!(out.contains(&2));
}

#[test]
fn two_handles_at_one_position_both_returned() {
    let mut r = RTreeStorage::new();
    r.bulk_insert(vec![(1, p(4, 4, 4)), (2, p(4, 4, 4))]);
    assert_eq!(sorted(r.get_nearby_ent(&p(4, 4, 4), 0)), vec![1, 2]);
}

#[test]
fn refresh_then_query_steps() {
    let mut res = kdtree_resource();
    spatial_hash_system(abc(), &mut res);
    let agents = vec![(1, p(0, 0, 0), 20), (3, p(50, 0, 0), 15)];
    let out = perception_system(&agents, &res);
    assert_eq!(out.len(), 2);
    assert_eq!(out[0].0, 1);
    assert_eq!(sorted(out[0].1.clone()), vec![1, 2]);
    assert_eq!(out[1].0, 3);
    assert_eq!(sorted(out[1].1.clone()), vec![3]);
}

#[test]
fn refresh_replaces_previous_tick() {
    let mut res = SpatialRes { space: Space::Grid(grid(32)) };
    spatial_hash_system(abc(), &mut res);
    spatial_hash_system(vec![(8, p(1, 1, 0))], &mut res);
    assert_eq!(res.space.get_nearby_ent(&p(0, 0, 0), 20), vec![8]);
}

#[test]
fn spatial_res_dispatches_each_scheme() {
    let spaces = vec![
        Space::Grid(grid(32)),
        Space::KdTree(KdTreeSpace::new()),
        Space::RTree(RTreeStorage::new()),
        Space::Brute(BrutePartition::new()),
    ];
    for space in spaces {
        let mut res = SpatialRes { space };
        spatial_hash_system(abc(), &mut res);
        assert_eq!(sorted(res.space.get_nearby_ent(&p(0, 0, 0), 20)), vec![1, 2]);
    }
}

#[test]
fn cell_keys_floor_toward_negative_infinity() {
    assert_eq!(div_floor(-1, 32), -1);
    assert_eq!(div_floor(-32, 32), -1);
    assert_eq!(div_floor(-33, 32), -2);
    assert_eq!(div_floor(0, 32), 0);
    assert_eq!(div_floor(31, 32), 0);
    assert_eq!(div_floor(32, 32), 1);
    let g = grid(32);
    let k = g.global_to_map_loc(&p(-1, -33, 65));
    assert_eq!((k.x, k.y, k.z), (-1, -2, 2));
}

#[test]
fn grid_finds_neighbours_across_cell_borders() {
    // Two agents a whisker apart but in different cells.
    let mut g = grid(32);
    g.bulk_insert(vec![(1, p(31, 0, 0)), (2, p(33, 0, 0))]);
    assert_eq!(sorted(g.get_nearby_ent(&p(31, 0, 0), 4)), vec![1, 2]);
    // And across the negative-coordinate border.
    let mut h = grid(32);
    h.bulk_insert(vec![(1, p(-1, 0, 0)), (2, p(1, 0, 0))]);
    assert_eq!(sorted(h.get_nearby_ent(&p(-1, 0, 0), 4)), vec![1, 2]);
}

#[test]
fn nearest_on_empty_tree_is_none() {
    let r = RTreeStorage::new();
    assert_eq!(r.nearest_handle(&p(0, 0, 0)), None);
}

#[test]
fn nearest_picks_the_closest_entry() {
    let mut r = RTreeStorage::new();
    r.bulk_insert(abc());
    assert_eq!(r.nearest_handle(&p(12, 0, 0)), Some(2));
    assert_eq!(r.nearest_handle(&p(49, 1, 0)), Some(3));
    assert_eq!(r.nearest_handle(&p(-2, 0, 0)), Some(1));
}

#[test]
fn nearest_on_a_tie_returns_one_of_the_tied() {
    let mut r = RTreeStorage::new();
    r.bulk_insert(vec![(1, p(-4, 0, 0)), (2, p(4, 0, 0))]);
    let h = r.nearest_handle(&p(0, 0, 0)).unwrap();
    assert!(h == 1 || h == 2);
}

#[test]
fn narrow_phase_filters_by_exact_distance() {
    let cands = vec![(1, p(0, 0, 0)), (2, p(3, 4, 0)), (3, p(9, 9, 9))];
    let kept = flock_sim::spatial::narrow_phase(&cands, &p(0, 0, 0), 5);
    assert_eq!(sorted(kept), vec![1, 2]);
}

#[test]
fn within_dist_is_inclusive_and_rejects_negative_radius() {
    let a = p(3, 4, 0);
    let o = p(0, 0, 0);
    assert!(a.within_dist(&o, 5));
    assert!(!a.within_dist(&o, 4));
    assert!(!a.within_dist(&o, -1));
    assert!(o.within_dist(&o, 0));
}
