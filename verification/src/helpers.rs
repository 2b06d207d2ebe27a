//! Cell index scheme of the icosahedral world: ten rhombic tiles of
//! `ws * ws` cells each, followed by the north pole (`10 * ws * ws`) and the
//! south pole (`10 * ws * ws + 1`), and the six-direction neighbour walk.
use vstd::prelude::*;
use vstd::arithmetic::div_mod::{lemma_fundamental_div_mod, lemma_fundamental_div_mod_converse, lemma_mod_bound};

verus! {

/// Quotient rounded toward zero (the semantics of `/` on signed integers).
pub open spec fn div_toward_zero(a: int, b: int) -> int {
    if a >= 0 {
        a / b
    } else {
        -((-a) / b)
    }
}

/// Remainder whose sign follows the dividend (the semantics of `%` on signed integers).
pub open spec fn rem_toward_zero(a: int, b: int) -> int {
    if a >= 0 {
        a % b
    } else {
        -((-a) % b)
    }
}

/// Flat index of cell `(i, j)` on tile `tile`.
pub open spec fn spec_pack(tile: int, i: int, j: int, ws: int) -> int {
    tile * ws * ws + j * ws + i
}

/// `(tile, i, j)` of a flat index.
pub open spec fn spec_decode(idx: int, ws: int) -> (int, int, int) {
    let rest = rem_toward_zero(idx, ws * ws);
    (div_toward_zero(idx, ws * ws), rem_toward_zero(rest, ws), div_toward_zero(rest, ws))
}

/// Index of the north pole.
pub open spec fn north_pole(ws: int) -> int {
    10 * ws * ws
}

/// Index of the south pole.
pub open spec fn south_pole(ws: int) -> int {
    10 * ws * ws + 1
}

/// A world size whose index range fits in `i32`.
pub open spec fn valid_world_size(ws: int) -> bool {
    1 <= ws && 10 * ws * ws + 1 <= i32::MAX
}

/// An index of one of the `10 * ws * ws + 2` cells.
pub open spec fn valid_cell(idx: int, ws: int) -> bool {
    0 <= idx <= south_pole(ws)
}

/// Tile, column and row of a cell; the fields are not constrained.
#[derive(Clone, Copy, Debug, PartialEq, Eq, Structural)]
pub struct IdxComponent {
    pub tile: i32,
    pub i: i32,
    pub j: i32,
}

/// Builds the component triple `(tile, i, j)`.
pub fn build_idx_component(tile: i32, i: i32, j: i32) -> (r: IdxComponent)
    ensures
        r == (IdxComponent { tile, i, j }),
{
    IdxComponent { tile, i, j }
}

/// Splits a flat index into tile, row `j` and column `i` (truncating division).
pub fn decode_idx(idx: i32, ws: i32) -> (r: IdxComponent)
    requires
        1 <= ws,
        ws * ws <= i32::MAX,
    ensures
        (r.tile as int, r.i as int, r.j as int) == spec_decode(idx as int, ws as int),
{
    let ws2 = ws * ws;
    assert(ws2 >= 1) by (nonlinear_arith)
        requires
            ws2 == ws * ws,
            ws >= 1,
    ;
    let tile = idx / ws2;
    let rest = idx % ws2;
    let j = rest / ws;
    let i = rest % ws;
    IdxComponent { tile, i, j }
}

/// Flat index `tile * ws * ws + j * ws + i`.
pub fn pack_idx(tile: i32, i: i32, j: i32, ws: i32) -> (r: i32)
    requires
        i32::MIN <= tile * ws <= i32::MAX,
        i32::MIN <= tile * ws * ws <= i32::MAX,
        i32::MIN <= j * ws <= i32::MAX,
        i32::MIN <= tile * ws * ws + j * ws <= i32::MAX,
        i32::MIN <= spec_pack(tile as int, i as int, j as int, ws as int) <= i32::MAX,
    ensures
        r as int == spec_pack(tile as int, i as int, j as int, ws as int),
{
    tile * ws * ws + j * ws + i
}

/// Packing the decoded components of any index gives the index back.
pub proof fn lemma_pack_decode(idx: int, ws: int)
    requires
        1 <= ws,
    ensures
        ({
            let (t, i, j) = spec_decode(idx, ws);
            spec_pack(t, i, j, ws) == idx
        }),
{
    let ws2 = ws * ws;
    assert(ws2 >= 1) by (nonlinear_arith)
        requires
            ws2 == ws * ws,
            ws >= 1,
    ;
    let a = if idx >= 0 { idx } else { -idx };
    lemma_fundamental_div_mod(a, ws2);
    let r = a % ws2;
    lemma_fundamental_div_mod(r, ws);
    let (t, i, j) = spec_decode(idx, ws);
    let q1 = a / ws2;
    let q2 = r / ws;
    let r2 = r % ws;
    if idx >= 0 {
        assert(t == q1 && i == r2 && j == q2);
        assert(t * ws * ws + j * ws + i == idx) by (nonlinear_arith)
            requires
                ws2 == ws * ws,
                idx == ws2 * q1 + r,
                r == ws * q2 + r2,
                t == q1,
                i == r2,
                j == q2,
        ;
    } else {
        assert(rem_toward_zero(idx, ws2) == -r);
        assert(t == -q1);
        lemma_mod_bound(a, ws2);
        if r == 0 {
            assert(i == 0 && j == 0);
            assert(t * ws * ws + j * ws + i == idx) by (nonlinear_arith)
                requires
                    ws2 == ws * ws,
                    -idx == ws2 * q1 + r,
                    r == 0,
                    t == -q1,
                    i == 0,
                    j == 0,
            ;
        } else {
            assert(i == -r2 && j == -q2);
            assert(t * ws * ws + j * ws + i == idx) by (nonlinear_arith)
                requires
                    ws2 == ws * ws,
                    -idx == ws2 * q1 + r,
                    r == ws * q2 + r2,
                    t == -q1,
                    i == -r2,
                    j == -q2,
            ;
        }
    }
}

/// Decoding the index of in-range components gives the components back.
pub proof fn lemma_decode_pack(t: int, i: int, j: int, ws: int)
    requires
        1 <= ws,
        0 <= t,
        0 <= i < ws,
        0 <= j < ws,
    ensures
        spec_decode(spec_pack(t, i, j, ws), ws) == (t, i, j),
        0 <= spec_pack(t, i, j, ws) < (t + 1) * ws * ws,
{
    let ws2 = ws * ws;
    let rest = j * ws + i;
    assert(0 <= rest < ws2 && spec_pack(t, i, j, ws) == t * ws2 + rest && t * ws2 >= 0
        && (t + 1) * ws * ws == t * ws2 + ws2) by (nonlinear_arith)
        requires
            ws2 == ws * ws,
            rest == j * ws + i,
            1 <= ws,
            0 <= t,
            0 <= i < ws,
            0 <= j < ws,
    ;
    lemma_fundamental_div_mod_converse(spec_pack(t, i, j, ws), ws2, t, rest);
    lemma_fundamental_div_mod_converse(rest, ws, j, i);
}

/// Packing in-range components of a tile below ten stays inside the tile range,
/// with every partial product of the packing formula in `i32` range.
proof fn lemma_pack_bounds(t: int, i: int, j: int, ws: int)
    requires
        valid_world_size(ws),
        valid_comps(t, i, j, ws),
    ensures
        0 <= t * ws <= 9 * ws,
        0 <= t * ws * ws <= 9 * (ws * ws),
        0 <= j * ws < ws * ws,
        0 <= spec_pack(t, i, j, ws) < north_pole(ws),
        spec_decode(spec_pack(t, i, j, ws), ws) == (t, i, j),
{
    lemma_decode_pack(t, i, j, ws);
    assert(0 <= t * ws <= 9 * ws && 0 <= t * ws * ws <= 9 * (ws * ws) && 0 <= j * ws < ws * ws
        && (t + 1) * ws * ws <= 10 * ws * ws) by (nonlinear_arith)
        requires
            1 <= ws,
            0 <= t < 10,
            0 <= i < ws,
            0 <= j < ws,
    ;
}

/// A tile cell index (below the north pole) decodes to in-range components
/// that pack back to it.
proof fn lemma_decode_tile_cell(idx: int, ws: int)
    requires
        valid_world_size(ws),
        0 <= idx < north_pole(ws),
    ensures
        valid_comps(spec_decode(idx, ws).0, spec_decode(idx, ws).1, spec_decode(idx, ws).2, ws),
        spec_pack(spec_decode(idx, ws).0, spec_decode(idx, ws).1, spec_decode(idx, ws).2, ws) == idx,
{
    let ws2 = ws * ws;
    assert(ws2 >= 1 && 10 * ws2 == 10 * ws * ws && ws * (ws - 1) + (ws - 1) == ws2 - 1) by (nonlinear_arith)
        requires
            ws2 == ws * ws,
            ws >= 1,
    ;
    lemma_pack_decode(idx, ws);
    vstd::arithmetic::div_mod::lemma_div_is_ordered(idx, 10 * ws2 - 1, ws2);
    lemma_fundamental_div_mod_converse(10 * ws2 - 1, ws2, 9, ws2 - 1);
    lemma_mod_bound(idx, ws2);
    lemma_mod_bound(rem_toward_zero(idx, ws2), ws);
    vstd::arithmetic::div_mod::lemma_div_is_ordered(rem_toward_zero(idx, ws2), ws2 - 1, ws);
    lemma_fundamental_div_mod_converse(ws2 - 1, ws, ws - 1, ws - 1);
}

/// The six hexagonal directions, as steps of `(i, j)` within a tile.
#[derive(Clone, Copy, Debug, PartialEq, Eq, Structural)]
pub enum Direction {
    N,
    NE,
    SE,
    S,
    SW,
    NW,
}

/// `(di, dj)` of a direction.
pub open spec fn dir_step(dir: Direction) -> (int, int) {
    match dir {
        Direction::N => (0, -1),
        Direction::NE => (1, -1),
        Direction::SE => (1, 0),
        Direction::S => (0, 1),
        Direction::SW => (-1, 1),
        Direction::NW => (-1, 0),
    }
}

/// The step of a direction as a component triple with tile offset 0.
pub fn decode_dir(dir: Direction) -> (r: IdxComponent)
    ensures
        r.tile == 0,
        (r.i as int, r.j as int) == dir_step(dir),
{
    match dir {
        Direction::N => build_idx_component(0, 0, -1),
        Direction::NE => build_idx_component(0, 1, -1),
        Direction::SE => build_idx_component(0, 1, 0),
        Direction::S => build_idx_component(0, 0, 1),
        Direction::SW => build_idx_component(0, -1, 1),
        Direction::NW => build_idx_component(0, -1, 0),
    }
}

/// The tile of the pentagonal ring (`0..5` north, `5..10` south) east of `t`.
pub open spec fn east_tile(t: int) -> int {
    if t == 4 {
        0
    } else if t == 9 {
        5
    } else {
        t + 1
    }
}

/// The tile of the pentagonal ring west of `t`.
pub open spec fn west_tile(t: int) -> int {
    if t == 0 {
        4
    } else if t == 5 {
        9
    } else {
        t - 1
    }
}

/// Tile whose corner cell `(0, 0)` is the north pole's neighbour in `dir`.
pub open spec fn north_pole_tile(dir: Direction) -> int {
    match dir {
        Direction::N => 0,
        Direction::NE => 1,
        Direction::SE => 2,
        Direction::S => 3,
        Direction::SW => 4,
        Direction::NW => 0,
    }
}

/// Tile whose corner cell `(ws - 1, ws - 1)` is the south pole's neighbour in `dir`.
pub open spec fn south_pole_tile(dir: Direction) -> int {
    match dir {
        Direction::N => 5,
        Direction::NE => 6,
        Direction::SE => 7,
        Direction::S => 8,
        Direction::SW => 9,
        Direction::NW => 5,
    }
}

/// Where a step from a tile cell lands.
pub enum Landing {
    NorthPole,
    SouthPole,
    Cell(int, int, int),
}

/// `0 <= c < ws`.
pub open spec fn in_range(c: int, ws: int) -> bool {
    0 <= c < ws
}

/// Neighbour of tile cell `(t, i0, j0)` in `dir`: a plain step inside the tile,
/// otherwise the wrap onto the adjacent rhombus or pole.
pub open spec fn step_from_cell(t: int, i0: int, j0: int, ws: int, dir: Direction) -> Landing {
    let i = i0 + dir_step(dir).0;
    let j = j0 + dir_step(dir).1;
    if in_range(i, ws) && in_range(j, ws) {
        Landing::Cell(t, i, j)
    } else if t < 5 {
        if i == ws && in_range(j, ws) {
            Landing::Cell(east_tile(t), 0, j)
        } else if i == -1 && in_range(j, ws) {
            Landing::Cell(west_tile(t), ws - 1, j)
        } else if in_range(i, ws) && j == ws {
            Landing::Cell(t + 5, i, 0)
        } else if i == 0 && j == -1 {
            Landing::NorthPole
        } else if in_range(i, ws) && j == -1 {
            Landing::Cell(west_tile(t), ws - 1, i)
        } else if i == ws && j == ws {
            Landing::Cell(east_tile(t) + 5, 0, 0)
        } else if i == ws && j == -1 {
            Landing::NorthPole
        } else if i == -1 && j == ws {
            Landing::Cell(west_tile(t) + 5, ws - 1, 0)
        } else {
            Landing::Cell(west_tile(west_tile(t)), ws - 1, ws - 1)
        }
    } else {
        if i == ws && in_range(j, ws) {
            Landing::Cell(east_tile(t), 0, j)
        } else if i == -1 && in_range(j, ws) {
            Landing::Cell(west_tile(t), ws - 1, j)
        } else if i == ws - 1 && j == ws {
            Landing::SouthPole
        } else if in_range(i, ws) && j == ws {
            Landing::Cell(east_tile(t), 0, i)
        } else if in_range(i, ws) && j == -1 {
            Landing::Cell(t - 5, i, ws - 1)
        } else if i == ws && j == ws {
            Landing::Cell(east_tile(east_tile(t)), 0, 0)
        } else if i == ws && j == -1 {
            Landing::Cell(east_tile(t) - 5, 0, ws - 1)
        } else if i == -1 && j == ws {
            Landing::SouthPole
        } else {
            Landing::Cell(west_tile(t) - 5, ws - 1, ws - 1)
        }
    }
}

/// Flat index of a landing place.
pub open spec fn landing_index(l: Landing, ws: int) -> int {
    match l {
        Landing::NorthPole => north_pole(ws),
        Landing::SouthPole => south_pole(ws),
        Landing::Cell(t, i, j) => spec_pack(t, i, j, ws),
    }
}

/// Index of the neighbour of cell `idx` in direction `dir`.
pub open spec fn spec_neighbor(idx: int, ws: int, dir: Direction) -> int {
    if idx == north_pole(ws) {
        spec_pack(north_pole_tile(dir), 0, 0, ws)
    } else if idx == south_pole(ws) {
        spec_pack(south_pole_tile(dir), ws - 1, ws - 1, ws)
    } else {
        let (t, i, j) = spec_decode(idx, ws);
        landing_index(step_from_cell(t, i, j, ws, dir), ws)
    }
}

/// A tile cell with in-range components.
pub open spec fn valid_comps(t: int, i: int, j: int, ws: int) -> bool {
    0 <= t < 10 && in_range(i, ws) && in_range(j, ws)
}

/// Every step from a valid tile cell lands on a pole or on a valid tile cell
/// different from the start.
pub proof fn lemma_step_lands_on_cell(t: int, i: int, j: int, ws: int, dir: Direction)
    requires
        1 <= ws,
        valid_comps(t, i, j, ws),
    ensures
        match step_from_cell(t, i, j, ws, dir) {
            Landing::Cell(t2, i2, j2) => valid_comps(t2, i2, j2, ws) && (t2, i2, j2) != (t, i, j),
            _ => true,
        },
{
}

fn east_of(t: i32) -> (r: i32)
    requires
        0 <= t < 10,
    ensures
        r == east_tile(t as int),
{
    let r = 5 * (t / 5) + (t % 5 + 1) % 5;
    assert(r == east_tile(t as int)) by {
        assert(0 <= t < 5 ==> t / 5 == 0 && t % 5 == t);
        assert(5 <= t < 10 ==> t / 5 == 1 && t % 5 == t - 5);
    }
    r
}

fn west_of(t: i32) -> (r: i32)
    requires
        0 <= t < 10,
    ensures
        r == west_tile(t as int),
{
    let r = 5 * (t / 5) + (t % 5 + 4) % 5;
    assert(r == west_tile(t as int)) by {
        assert(0 <= t < 5 ==> t / 5 == 0 && t % 5 == t);
        assert(5 <= t < 10 ==> t / 5 == 1 && t % 5 == t - 5);
    }
    r
}

/// Index of the neighbour of `curr_idx` in direction `dir`.  A pole's six
/// neighbours are the pole corners of its five tiles (`N` and `NW` both
/// reach the first one); a step off a rhombus wraps onto the adjacent one.
pub fn get_neighbor_idx(curr_idx: i32, ws: i32, dir: Direction) -> (r: i32)
    requires
        valid_world_size(ws as int),
        valid_cell(curr_idx as int, ws as int),
    ensures
        r as int == spec_neighbor(curr_idx as int, ws as int, dir),
        valid_cell(r as int, ws as int),
        r != curr_idx,
{
    proof {
        assert(ws * ws <= i32::MAX && (ws - 1) * ws >= 0 && ws * ws >= 1 && 10 * (ws * ws) == 10 * ws * ws
            && ws * (ws - 1) + (ws - 1) == ws * ws - 1)
            by (nonlinear_arith)
            requires
                10 * ws * ws + 1 <= i32::MAX,
                ws >= 1,
        ;
    }
    let ws2 = ws * ws;
    let north = 10 * ws2;
    let south = 10 * ws2 + 1;
    assert(north == north_pole(ws as int) && south == south_pole(ws as int));
    if curr_idx == north {
        let tile = match dir {
            Direction::N => 0,
            Direction::NE => 1,
            Direction::SE => 2,
            Direction::S => 3,
            Direction::SW => 4,
            Direction::NW => 0,
        };
        proof {
            lemma_pack_bounds(tile as int, 0, 0, ws as int);
        }
        return pack_idx(tile, 0, 0, ws);
    }
    if curr_idx == south {
        let tile = match dir {
            Direction::N => 5,
            Direction::NE => 6,
            Direction::SE => 7,
            Direction::S => 8,
            Direction::SW => 9,
            Direction::NW => 5,
        };
        proof {
            lemma_pack_bounds(tile as int, ws - 1, ws - 1, ws as int);
        }
        return pack_idx(tile, ws - 1, ws - 1, ws);
    }
    let idx_comp = decode_idx(curr_idx, ws);
    proof {
        lemma_decode_tile_cell(curr_idx as int, ws as int);
    }
    let step = decode_dir(dir);
    let tile = idx_comp.tile + step.tile;
    let i = idx_comp.i + step.i;
    let j = idx_comp.j + step.j;
    let ghost landing = step_from_cell(
        idx_comp.tile as int,
        idx_comp.i as int,
        idx_comp.j as int,
        ws as int,
        dir,
    );
    proof {
        lemma_step_lands_on_cell(
            idx_comp.tile as int,
            idx_comp.i as int,
            idx_comp.j as int,
            ws as int,
            dir,
        );
        match landing {
            Landing::Cell(t2, i2, j2) => {
                lemma_pack_bounds(t2, i2, j2, ws as int);
                lemma_pack_bounds(idx_comp.tile as int, idx_comp.i as int, idx_comp.j as int, ws as int);
            },
            _ => {},
        }
    }

    let ir = 0 <= i && i < ws;
    let jr = 0 <= j && j < ws;
    if ir && jr {
        return pack_idx(tile, i, j, ws);
    }
    if tile < 5 {
        if i == ws && jr {
            pack_idx(east_of(tile), 0, j, ws)
        } else if i == -1 && jr {
            pack_idx(west_of(tile), ws - 1, j, ws)
        } else if ir && j == ws {
            pack_idx(tile + 5, i, 0, ws)
        } else if i == 0 && j == -1 {
            north
        } else if ir && j == -1 {
            pack_idx(west_of(tile), ws - 1, i, ws)
        } else if i == ws && j == ws {
            pack_idx(east_of(tile) + 5, 0, 0, ws)
        } else if i == ws && j == -1 {
            north
        } else if i == -1 && j == ws {
            pack_idx(west_of(tile) + 5, ws - 1, 0, ws)
        } else {
            assert(i == -1 && j == -1);
            pack_idx(west_of(west_of(tile)), ws - 1, ws - 1, ws)
        }
    } else {
        if i == ws && jr {
            pack_idx(east_of(tile), 0, j, ws)
        } else if i == -1 && jr {
            pack_idx(west_of(tile), ws - 1, j, ws)
        } else if i == ws - 1 && j == ws {
            south
        } else if ir && j == ws {
            pack_idx(east_of(tile), 0, i, ws)
        } else if ir && j == -1 {
            pack_idx(tile - 5, i, ws - 1, ws)
        } else if i == ws && j == ws {
            pack_idx(east_of(east_of(tile)), 0, 0, ws)
        } else if i == ws && j == -1 {
            pack_idx(east_of(tile) - 5, 0, ws - 1, ws)
        } else if i == -1 && j == ws {
            south
        } else {
            assert(i == -1 && j == -1);
            pack_idx(west_of(tile) - 5, ws - 1, ws - 1, ws)
        }
    }
}

/// `c` limited to `lo..=hi`.
pub open spec fn clamp_int(c: int, lo: int, hi: int) -> int {
    if c < lo {
        lo
    } else if c > hi {
        hi
    } else {
        c
    }
}

/// Limits a cell position to the `ws * ws` grid of a tile.
pub fn clamp_ij_to_worldsize(i: i32, j: i32, ws: i32) -> (r: (i32, i32))
    requires
        1 <= ws,
    ensures
        r.0 == clamp_int(i as int, 0, ws - 1),
        r.1 == clamp_int(j as int, 0, ws - 1),
{
    (clamp_i32(i, 0, ws - 1), clamp_i32(j, 0, ws - 1))
}

fn clamp_i32(c: i32, lo: i32, hi: i32) -> (r: i32)
    requires
        lo <= hi,
    ensures
        r == clamp_int(c as int, lo as int, hi as int),
{
    if c < lo {
        lo
    } else if c > hi {
        hi
    } else {
        c
    }
}

/// The direction opposite to `dir`.
pub open spec fn opposite(dir: Direction) -> Direction {
    match dir {
        Direction::N => Direction::S,
        Direction::NE => Direction::SW,
        Direction::SE => Direction::NW,
        Direction::S => Direction::N,
        Direction::SW => Direction::NE,
        Direction::NW => Direction::SE,
    }
}

/// The direction from the north pole to the corner of tile `t` (`0 <= t < 5`).
pub open spec fn north_pole_dir(t: int) -> Direction {
    if t == 0 {
        Direction::N
    } else if t == 1 {
        Direction::NE
    } else if t == 2 {
        Direction::SE
    } else if t == 3 {
        Direction::S
    } else {
        Direction::SW
    }
}

/// The direction from the south pole to the corner of tile `t` (`5 <= t < 10`).
pub open spec fn south_pole_dir(t: int) -> Direction {
    if t == 5 {
        Direction::N
    } else if t == 6 {
        Direction::NE
    } else if t == 7 {
        Direction::SE
    } else if t == 8 {
        Direction::S
    } else {
        Direction::SW
    }
}

/// The steps whose target has no step back: `N` and `NE` from the top row
/// (`j == 0`, `i >= 1`) of a northern tile, and `S` and `SW` from the bottom
/// row (`j == ws - 1`, `i <= ws - 2`) of a southern tile.
pub open spec fn one_way_step(idx: int, ws: int, dir: Direction) -> bool {
    let (t, i, j) = spec_decode(idx, ws);
    idx < north_pole(ws) && one_way_comps(t, i, j, ws, dir)
}

/// The direction that leads from `spec_neighbor(idx, ws, dir)` back to `idx`.
pub open spec fn way_back(idx: int, ws: int, dir: Direction) -> Direction {
    if idx == north_pole(ws) {
        Direction::N
    } else if idx == south_pole(ws) {
        Direction::S
    } else {
        let (t, i, j) = spec_decode(idx, ws);
        match step_from_cell(t, i, j, ws, dir) {
            Landing::NorthPole => north_pole_dir(t),
            Landing::SouthPole => south_pole_dir(t),
            Landing::Cell(_, _, _) => cell_way_back(t, i, j, ws, dir),
        }
    }
}

/// The direction leading back from the tile cell reached by a step.
pub open spec fn cell_way_back(t: int, i: int, j: int, ws: int, dir: Direction) -> Direction {
    if (t < 5 && i == 0 && j == 0 && dir == Direction::NE) || (t >= 5 && i == ws - 1 && j == ws - 1
        && dir == Direction::SW) {
        dir
    } else {
        opposite(dir)
    }
}

/// Component form of a one-way step.
pub open spec fn one_way_comps(t: int, i: int, j: int, ws: int, dir: Direction) -> bool {
    (t < 5 && j == 0 && i >= 1 && (dir == Direction::N || dir == Direction::NE)) || (t >= 5 && j
        == ws - 1 && i <= ws - 2 && (dir == Direction::S || dir == Direction::SW))
}

/// On components: a step that lands on a tile cell is undone by `cell_way_back`,
/// and a step that lands on a pole starts from that pole's corner of the tile.
proof fn lemma_cell_step_back(t: int, i: int, j: int, ws: int, dir: Direction)
    requires
        1 <= ws,
        valid_comps(t, i, j, ws),
        !one_way_comps(t, i, j, ws, dir),
    ensures
        match step_from_cell(t, i, j, ws, dir) {
            Landing::Cell(t2, i2, j2) => step_from_cell(t2, i2, j2, ws, cell_way_back(t, i, j, ws, dir))
                == Landing::Cell(t, i, j),
            Landing::NorthPole => t < 5 && i == 0 && j == 0,
            Landing::SouthPole => t >= 5 && i == ws - 1 && j == ws - 1,
        },
{
    lemma_step_lands_on_cell(t, i, j, ws, dir);
}

/// Stepping from a cell and then stepping in `way_back` returns to the cell,
/// for every step but the one-way seam steps.
proof fn lemma_way_back_returns(idx: int, ws: int, dir: Direction)
    requires
        valid_world_size(ws),
        valid_cell(idx, ws),
        !one_way_step(idx, ws, dir),
    ensures
        spec_neighbor(spec_neighbor(idx, ws, dir), ws, way_back(idx, ws, dir)) == idx,
{
    if idx == north_pole(ws) {
        lemma_pack_bounds(north_pole_tile(dir), 0, 0, ws);
    } else if idx == south_pole(ws) {
        lemma_pack_bounds(south_pole_tile(dir), ws - 1, ws - 1, ws);
    } else {
        lemma_decode_tile_cell(idx, ws);
        let (t, i, j) = spec_decode(idx, ws);
        lemma_step_lands_on_cell(t, i, j, ws, dir);
        lemma_cell_step_back(t, i, j, ws, dir);
        match step_from_cell(t, i, j, ws, dir) {
            Landing::NorthPole => {
                lemma_pack_bounds(north_pole_tile(way_back(idx, ws, dir)), 0, 0, ws);
            },
            Landing::SouthPole => {
                lemma_pack_bounds(south_pole_tile(way_back(idx, ws, dir)), ws - 1, ws - 1, ws);
            },
            Landing::Cell(t2, i2, j2) => {
                lemma_pack_bounds(t2, i2, j2, ws);
                assert(way_back(idx, ws, dir) == cell_way_back(t, i, j, ws, dir));
            },
        }
    }
}

/// Every step can be undone by one more step, except the one-way seam steps:
/// from the neighbour of a cell some direction leads back to the cell.
pub proof fn lemma_neighbor_way_back(idx: int, ws: int, dir: Direction)
    requires
        valid_world_size(ws),
        valid_cell(idx, ws),
        !one_way_step(idx, ws, dir),
    ensures
        exists|back: Direction| spec_neighbor(spec_neighbor(idx, ws, dir), ws, back) == idx,
{
    lemma_way_back_returns(idx, ws, dir);
}

} // verus!
