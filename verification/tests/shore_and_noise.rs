use fallen_leaves_world::simplex_noise::funny_hash_mix;
use fallen_leaves_world::wind_column_gradient_map::{borders_land, gen_dist_ocean_map, shore_adjacent_water_coords};

fn mask(rows: &[&str]) -> Vec<Vec<bool>> {
    rows.iter().map(|r| r.chars().map(|c| c == 'L').collect()).collect()
}

#[test]
fn gradient_offsets() {
    assert_eq!(funny_hash_mix(0, 0), 0);
    assert_eq!(funny_hash_mix(1, 0), 0);
    assert_eq!(funny_hash_mix(123456, 987654321987), 21);
    assert_eq!(funny_hash_mix(-5, (1u64 << 63) + 17), 21);
    assert_eq!(funny_hash_mix(i32::MAX, 1), 0);
    for lat in -50..50 {
        let r = funny_hash_mix(lat * 7919, 42);
        assert!(r % 3 == 0 && r <= 33);
    }
}

#[test]
fn shore_cells_in_row_order() {
    let land = mask(&["LLLWW", "LLWWW", "WWWWL"]);
    assert!(borders_land(&land, 5, 3, 3, 0));
    assert!(!borders_land(&land, 5, 3, 4, 0));
    assert_eq!(shore_adjacent_water_coords(&land), vec![(3, 0), (2, 1), (4, 1), (0, 2), (1, 2), (3, 2)]);
}

#[test]
fn distances_to_nearest_shore() {
    let land = mask(&["LLLWW", "LLWWW", "WWWWL"]);
    let dist = gen_dist_ocean_map(&land, 5, 3);
    let expect = vec![vec![2, 2, 1, 0, 1], vec![1, 1, 0, 1, 0], vec![0, 0, 1, 0, 1]];
    for y in 0..3 {
        for x in 0..5 {
            assert_eq!(dist[y][x], Some(expect[y][x]));
        }
    }
}

#[test]
fn no_shore_no_distance() {
    let all_water = mask(&["WWW", "WWW"]);
    let dist = gen_dist_ocean_map(&all_water, 3, 2);
    assert!(dist.iter().all(|row| row.iter().all(|d| d.is_none())));
    let all_land = mask(&["LL", "LL"]);
    assert!(gen_dist_ocean_map(&all_land, 2, 2).iter().all(|row| row.iter().all(|d| d.is_none())));
}

#[test]
fn single_lake_distances_are_manhattan() {
    let mut rows = vec![String::from("LLLLLLL"); 7];
    rows[3] = String::from("LLLWLLL");
    let refs: Vec<&str> = rows.iter().map(|s| s.as_str()).collect();
    let land = mask(&refs);
    let dist = gen_dist_ocean_map(&land, 7, 7);
    for y in 0..7usize {
        for x in 0..7usize {
            let d = (x as i64 - 3).abs() + (y as i64 - 3).abs();
            assert_eq!(dist[y][x], Some(d as usize));
        }
    }
}
