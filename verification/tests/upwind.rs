use fallen_leaves_world::wind_column_gradient_map::{gen_upwind_map, pick_upwind_land};

fn sample_ranks() -> (Vec<Vec<u64>>, Vec<Vec<bool>>) {
    let rank = vec![vec![5, 4, 3], vec![6, 0, 2], vec![7, 8, 1]];
    let land = vec![vec![true, true, true], vec![true, false, true], vec![true, true, true]];
    (rank, land)
}

#[test]
fn upwind_map_of_small_grid() {
    let (rank, land) = sample_ranks();
    let up = gen_upwind_map(3, 3, &rank, &land);
    assert_eq!(
        up,
        vec![
            vec![Some((1, 0)), Some((2, 0)), Some((2, 1))],
            vec![Some((0, 0)), None, Some((2, 2))],
            vec![Some((0, 1)), Some((2, 2)), None],
        ]
    );
}

#[test]
fn no_lower_neighbour_gives_none() {
    let rank = vec![vec![3, 3], vec![3, 1]];
    let land = vec![vec![true, true], vec![true, true]];
    assert_eq!(pick_upwind_land(0, 0, 2, 2, &rank, &land), None);
    assert_eq!(pick_upwind_land(1, 0, 2, 2, &rank, &land), Some((1, 1)));
    assert_eq!(pick_upwind_land(1, 1, 2, 2, &rank, &land), None);
}

#[test]
fn tie_goes_to_the_first_direction() {
    let rank = vec![vec![9, 2, 9], vec![2, 9, 2], vec![9, 2, 9]];
    let land = vec![vec![true; 3]; 3];
    assert_eq!(pick_upwind_land(1, 1, 3, 3, &rank, &land), Some((2, 1)));
}

#[test]
fn water_neighbours_are_skipped() {
    let rank = vec![vec![9, 0, 9], vec![5, 9, 1], vec![9, 2, 9]];
    let land = vec![vec![true, false, true], vec![true, true, false], vec![true, true, true]];
    assert_eq!(pick_upwind_land(1, 1, 3, 3, &rank, &land), Some((1, 2)));
}

#[test]
fn following_upwind_never_cycles() {
    let w = 6usize;
    let h = 5usize;
    let mut rank = vec![vec![0u64; w]; h];
    let mut land = vec![vec![true; w]; h];
    for y in 0..h {
        for x in 0..w {
            rank[y][x] = ((x * 7 + y * 13) % 17) as u64 * 100 + (x + w * y) as u64;
        }
    }
    land[2][3] = false;
    let up = gen_upwind_map(w, h, &rank, &land);
    for y in 0..h {
        for x in 0..w {
            let mut c = (x, y);
            let mut steps = 0;
            while let Some(n) = up[c.1][c.0] {
                assert!(rank[n.1][n.0] < rank[c.1][c.0]);
                assert!(land[n.1][n.0]);
                c = n;
                steps += 1;
                assert!(steps <= w * h);
            }
        }
    }
    assert_eq!(up[2][3], None);
}
