use fallen_leaves_world::worldgen_pipeline::{hex_data_layout, HexDataLayout};
use fallen_leaves_world::helpers::{
    build_idx_component, clamp_ij_to_worldsize, decode_dir, decode_idx, get_neighbor_idx, pack_idx, Direction,
    IdxComponent,
};

const DIRS: [Direction; 6] = [Direction::N, Direction::NE, Direction::SE, Direction::S, Direction::SW, Direction::NW];

#[test]
fn pack_and_decode_example() {
    assert_eq!(pack_idx(2, 1, 2, 3), 25);
    assert_eq!(decode_idx(25, 3), IdxComponent { tile: 2, i: 1, j: 2 });
    assert_eq!(build_idx_component(4, 5, 6), IdxComponent { tile: 4, i: 5, j: 6 });
}

#[test]
fn decode_truncates_toward_zero() {
    assert_eq!(decode_idx(-7, 2), IdxComponent { tile: -1, i: -1, j: -1 });
    assert_eq!(pack_idx(-1, -1, -1, 2), -7);
}

#[test]
fn pack_decode_round_trip() {
    for ws in 1..6 {
        for idx in 0..(10 * ws * ws) {
            let c = decode_idx(idx, ws);
            assert_eq!(pack_idx(c.tile, c.i, c.j, ws), idx);
            assert!(0 <= c.i && c.i < ws && 0 <= c.j && c.j < ws && c.tile < 10);
        }
    }
}

#[test]
fn direction_steps() {
    assert_eq!(decode_dir(Direction::N), IdxComponent { tile: 0, i: 0, j: -1 });
    assert_eq!(decode_dir(Direction::NE), IdxComponent { tile: 0, i: 1, j: -1 });
    assert_eq!(decode_dir(Direction::SE), IdxComponent { tile: 0, i: 1, j: 0 });
    assert_eq!(decode_dir(Direction::S), IdxComponent { tile: 0, i: 0, j: 1 });
    assert_eq!(decode_dir(Direction::SW), IdxComponent { tile: 0, i: -1, j: 1 });
    assert_eq!(decode_dir(Direction::NW), IdxComponent { tile: 0, i: -1, j: 0 });
}

fn neighbours(idx: i32, ws: i32) -> Vec<i32> {
    DIRS.iter().map(|&d| get_neighbor_idx(idx, ws, d)).collect()
}

#[test]
fn interior_neighbours() {
    assert_eq!(neighbours(4, 3), vec![1, 2, 5, 7, 6, 3]);
    assert_eq!(neighbours(70, 3), vec![67, 68, 71, 75, 72, 69]);
}

#[test]
fn seam_neighbours() {
    assert_eq!(neighbours(0, 3), vec![90, 41, 1, 3, 41, 38]);
    assert_eq!(neighbours(8, 3), vec![5, 12, 15, 47, 46, 7]);
    assert_eq!(neighbours(44, 3), vec![41, 3, 6, 83, 82, 43]);
    assert_eq!(neighbours(45, 3), vec![6, 7, 46, 48, 86, 83]);
    assert_eq!(neighbours(89, 3), vec![86, 48, 51, 91, 48, 88]);
}

#[test]
fn pole_neighbours() {
    assert_eq!(neighbours(90, 3), vec![0, 9, 18, 27, 36, 0]);
    assert_eq!(neighbours(91, 3), vec![53, 62, 71, 80, 89, 53]);
}

#[test]
fn neighbours_are_other_valid_cells() {
    for ws in 1..6 {
        let cells = 10 * ws * ws + 2;
        for idx in 0..cells {
            for &d in &DIRS {
                let n = get_neighbor_idx(idx, ws, d);
                assert!(0 <= n && n < cells);
                assert_ne!(n, idx);
            }
        }
    }
}

#[test]
fn every_step_but_one_way_seams_can_be_undone() {
    for ws in 1..6 {
        let cells = 10 * ws * ws + 2;
        for idx in 0..cells {
            for &d in &DIRS {
                let n = get_neighbor_idx(idx, ws, d);
                let back = DIRS.iter().any(|&e| get_neighbor_idx(n, ws, e) == idx);
                let one_way = if idx < 10 * ws * ws {
                    let c = decode_idx(idx, ws);
                    (c.tile < 5 && c.j == 0 && c.i >= 1 && matches!(d, Direction::N | Direction::NE))
                        || (c.tile >= 5 && c.j == ws - 1 && c.i <= ws - 2 && matches!(d, Direction::S | Direction::SW))
                } else {
                    false
                };
                assert_eq!(back, !one_way);
            }
        }
    }
}

#[test]
fn one_way_seam_example() {
    let n = get_neighbor_idx(1, 3, Direction::N);
    assert_eq!(n, 41);
    assert_eq!(neighbours(41, 3), vec![38, 0, 3, 44, 43, 40]);
    assert!(!neighbours(41, 3).contains(&1));
}

#[test]
fn clamp_to_tile() {
    assert_eq!(clamp_ij_to_worldsize(-5, 7, 4), (0, 3));
    assert_eq!(clamp_ij_to_worldsize(2, 1, 4), (2, 1));
    assert_eq!(clamp_ij_to_worldsize(i32::MAX, i32::MIN, 1), (0, 0));
}

#[test]
fn hex_buffer_layout_for_world_size_two() {
    assert_eq!(
        hex_data_layout(2),
        HexDataLayout {
            hex_tile_count: 42,
            start_idx_pure_noise: 0,
            end_idx_pure_noise: 41,
            start_idx_height_adj_noise: 42,
            end_idx_height_adj_noise: 83,
            data_len: 84,
        }
    );
    assert_eq!(hex_data_layout(0).data_len, 4);
}
