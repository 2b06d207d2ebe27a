//! Layout of the hex globe's data buffer: a block of plain noise with one
//! entry per cell (`10 * ws * ws + 2` cells) followed by a block of
//! height-adjusted noise of the same size.
use vstd::prelude::*;

verus! {

/// Where each block of the hex globe's data buffer lies (inclusive bounds).
#[derive(Clone, Copy, Debug, PartialEq, Eq, Structural)]
pub struct HexDataLayout {
    pub hex_tile_count: i32,
    pub start_idx_pure_noise: i32,
    pub end_idx_pure_noise: i32,
    pub start_idx_height_adj_noise: i32,
    pub end_idx_height_adj_noise: i32,
    pub data_len: usize,
}

/// Number of cells of a globe of world size `ws`.
pub open spec fn hex_tile_count(ws: int) -> int {
    10 * ws * ws + 2
}

/// The buffer layout for world size `ws`: plain noise at
/// `0 ..= n - 1`, height-adjusted noise at `n ..= 2n - 1`, `2n` entries in
/// all, where `n = 10 * ws * ws + 2`.
pub fn hex_data_layout(ws: i32) -> (r: HexDataLayout)
    requires
        2 * hex_tile_count(ws as int) <= i32::MAX,
    ensures
        r.hex_tile_count == hex_tile_count(ws as int),
        r.start_idx_pure_noise == 0,
        r.end_idx_pure_noise == r.hex_tile_count - 1,
        r.start_idx_height_adj_noise == r.hex_tile_count,
        r.end_idx_height_adj_noise == 2 * r.hex_tile_count - 1,
        r.data_len == 2 * r.hex_tile_count,
{
    assert(0 <= ws * ws && hex_tile_count(ws as int) == 10 * (ws * ws) + 2) by (nonlinear_arith);
    let sq: i32 = ws * ws;
    assert(20 * sq + 4 <= i32::MAX);
    let hex_tile_count: i32 = 10 * sq + 2;
    HexDataLayout {
        hex_tile_count,
        start_idx_pure_noise: 0,
        end_idx_pure_noise: hex_tile_count - 1,
        start_idx_height_adj_noise: hex_tile_count,
        end_idx_height_adj_noise: 2 * hex_tile_count - 1,
        data_len: (2 * hex_tile_count) as usize,
    }
}

} // verus!
