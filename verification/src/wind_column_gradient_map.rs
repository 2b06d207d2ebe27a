//! Distance to the nearest shore: the water cells next to land are the
//! sources, and every cell gets its Manhattan distance to the nearest one.
use vstd::prelude::*;
use vstd::arithmetic::div_mod::lemma_fundamental_div_mod_converse;
use vstd::set_lib::{lemma_int_range, lemma_len_subset, set_int_range};

verus! {

/// A `width` x `height` land mask, indexed `land[y][x]` (`true` for land).
pub open spec fn mask_shape(land: Seq<Vec<bool>>, width: int, height: int) -> bool {
    &&& land.len() == height
    &&& forall|y: int| 0 <= y < height ==> (#[trigger] land[y]).len() == width
}

/// `(x, y)` lies on the grid.
pub open spec fn on_grid(width: int, height: int, x: int, y: int) -> bool {
    0 <= x < width && 0 <= y < height
}

/// `(x, y)` lies on the grid and is land.
pub open spec fn land_at(land: Seq<Vec<bool>>, width: int, height: int, x: int, y: int) -> bool {
    on_grid(width, height, x, y) && land[y][x]
}

/// One of the four cardinal neighbours of `(x, y)` is land.
pub open spec fn next_to_land(land: Seq<Vec<bool>>, width: int, height: int, x: int, y: int) -> bool {
    ||| land_at(land, width, height, x + 1, y)
    ||| land_at(land, width, height, x - 1, y)
    ||| land_at(land, width, height, x, y + 1)
    ||| land_at(land, width, height, x, y - 1)
}

/// A water cell next to land.
pub open spec fn shore_water(land: Seq<Vec<bool>>, width: int, height: int, x: int, y: int) -> bool {
    on_grid(width, height, x, y) && !land[y][x] && next_to_land(land, width, height, x, y)
}

/// Whether one of the four cardinal neighbours of `(x, y)` is land.
pub fn borders_land(land: &Vec<Vec<bool>>, width: usize, height: usize, x: usize, y: usize) -> (r: bool)
    requires
        mask_shape(land@, width as int, height as int),
    ensures
        r == next_to_land(land@, width as int, height as int, x as int, y as int),
{
    if x < width && x + 1 < width && y < height && land[y][x + 1] {
        return true;
    }
    if x >= 1 && x - 1 < width && y < height && land[y][x - 1] {
        return true;
    }
    if x < width && y < height && y + 1 < height && land[y + 1][x] {
        return true;
    }
    if y >= 1 && x < width && y - 1 < height && land[y - 1][x] {
        return true;
    }
    false
}

/// Cell id of `(x, y)` in row-major order.
pub open spec fn cell_id(width: int, x: int, y: int) -> int {
    y * width + x
}

/// The water cells next to land, row by row.
pub fn shore_adjacent_water_coords(land: &Vec<Vec<bool>>) -> (r: Vec<(usize, usize)>)
    requires
        land.len() >= 1,
        mask_shape(land@, land[0].len() as int, land.len() as int),
    ensures
        forall|k: int|
            0 <= k < r.len() ==> shore_water(
                land@,
                land[0].len() as int,
                land.len() as int,
                (#[trigger] r[k]).0 as int,
                r[k].1 as int,
            ),
        forall|x: int, y: int|
            shore_water(land@, land[0].len() as int, land.len() as int, x, y) ==> exists|k: int|
                0 <= k < r.len() && #[trigger] r[k] == (x as usize, y as usize),
        forall|k1: int, k2: int|
            0 <= k1 < k2 < r.len() ==> (r[k1].1 < r[k2].1 || (r[k1].1 == r[k2].1 && r[k1].0 < r[k2].0)),
{
    let height = land.len();
    let width = land[0].len();
    let mut out: Vec<(usize, usize)> = Vec::new();
    let mut y: usize = 0;
    while y < height
        invariant
            height == land.len(),
            width == land[0].len(),
            mask_shape(land@, width as int, height as int),
            y <= height,
            forall|k: int|
                0 <= k < out.len() ==> (#[trigger] out[k]).1 < y && shore_water(
                    land@,
                    width as int,
                    height as int,
                    out[k].0 as int,
                    out[k].1 as int,
                ),
            forall|a: int, b: int|
                shore_water(land@, width as int, height as int, a, b) && b < y ==> exists|k: int|
                    0 <= k < out.len() && #[trigger] out[k] == (a as usize, b as usize),
            forall|k1: int, k2: int|
                0 <= k1 < k2 < out.len() ==> (out[k1].1 < out[k2].1 || (out[k1].1 == out[k2].1 && out[k1].0
                    < out[k2].0)),
        decreases height - y,
    {
        let mut x: usize = 0;
        while x < width
            invariant
                height == land.len(),
                width == land[0].len(),
                mask_shape(land@, width as int, height as int),
                y < height,
                x <= width,
                forall|k: int|
                    0 <= k < out.len() ==> ((#[trigger] out[k]).1 < y || (out[k].1 == y && out[k].0 < x))
                        && shore_water(land@, width as int, height as int, out[k].0 as int, out[k].1 as int),
                forall|a: int, b: int|
                    shore_water(land@, width as int, height as int, a, b) && (b < y || (b == y && a < x))
                        ==> exists|k: int| 0 <= k < out.len() && #[trigger] out[k] == (a as usize, b as usize),
                forall|k1: int, k2: int|
                    0 <= k1 < k2 < out.len() ==> (out[k1].1 < out[k2].1 || (out[k1].1 == out[k2].1
                        && out[k1].0 < out[k2].0)),
            decreases width - x,
        {
            assert(land[y as int].len() == width);
            if !land[y][x] && borders_land(land, width, height, x, y) {
                let ghost before = out@;
                out.push((x, y));
                proof {
                    assert forall|a: int, b: int|
                        shore_water(land@, width as int, height as int, a, b) && (b < y || (b == y && a < x
                            + 1)) implies exists|k: int|
                        0 <= k < out.len() && #[trigger] out[k] == (a as usize, b as usize) by {
                        if b == y && a == x {
                            assert(out[before.len() as int] == (a as usize, b as usize));
                        } else {
                            let k = choose|k: int| 0 <= k < before.len() && #[trigger] before[k] == (a as usize, b as usize);
                            assert(out[k] == before[k]);
                        }
                    }
                }
            }
            x = x + 1;
        }
        y = y + 1;
    }
    out
}

/// `|v|`.
pub open spec fn abs(v: int) -> int {
    if v < 0 {
        -v
    } else {
        v
    }
}

/// Manhattan distance between two cells.
pub open spec fn manhattan(x1: int, y1: int, x2: int, y2: int) -> int {
    abs(x1 - x2) + abs(y1 - y2)
}

/// `d` is the Manhattan distance from `(x, y)` to the nearest shore water cell.
pub open spec fn nearest_shore(land: Seq<Vec<bool>>, width: int, height: int, x: int, y: int, d: int) -> bool {
    &&& exists|sx: int, sy: int|
        shore_water(land, width, height, sx, sy) && #[trigger] manhattan(x, y, sx, sy) == d
    &&& forall|sx: int, sy: int|
        shore_water(land, width, height, sx, sy) ==> #[trigger] manhattan(x, y, sx, sy) >= d
}

/// The map has no shore water cell.
pub open spec fn no_shore(land: Seq<Vec<bool>>, width: int, height: int) -> bool {
    forall|sx: int, sy: int| !#[trigger] shore_water(land, width, height, sx, sy)
}

/// The cardinal neighbour of `(x, y)` in direction `d`: east, west, south, north.
pub open spec fn step_to(x: int, y: int, d: int) -> (int, int) {
    if d == 0 {
        (x + 1, y)
    } else if d == 1 {
        (x - 1, y)
    } else if d == 2 {
        (x, y + 1)
    } else {
        (x, y - 1)
    }
}

/// Cell ids of distinct cells of the grid are distinct.
proof fn lemma_cell_id_injective(width: int, x1: int, y1: int, x2: int, y2: int)
    requires
        width >= 1,
        0 <= x1 < width,
        0 <= x2 < width,
        0 <= y1,
        0 <= y2,
        cell_id(width, x1, y1) == cell_id(width, x2, y2),
    ensures
        x1 == x2 && y1 == y2,
{
    lemma_fundamental_div_mod_converse(cell_id(width, x1, y1), width, y1, x1);
    lemma_fundamental_div_mod_converse(cell_id(width, x2, y2), width, y2, x2);
}

/// A cell of the grid has an id below `width * height`.
proof fn lemma_cell_id_range(width: int, height: int, x: int, y: int)
    requires
        on_grid(width, height, x, y),
    ensures
        0 <= cell_id(width, x, y) < width * height,
{
    assert(0 <= y * width + x < width * height) by (nonlinear_arith)
        requires
            0 <= x < width,
            0 <= y < height,
    ;
}

/// Distinct cells of the grid are at most `width * height`.
proof fn lemma_cells_bound(q: Seq<(usize, usize)>, width: int, height: int)
    requires
        width >= 1,
        height >= 1,
        forall|i: int| 0 <= i < q.len() ==> on_grid(width, height, (#[trigger] q[i]).0 as int, q[i].1 as int),
        forall|i: int, j: int| 0 <= i < j < q.len() ==> q[i] != q[j],
    ensures
        q.len() <= width * height,
{
    let ids = q.map_values(|c: (usize, usize)| cell_id(width, c.0 as int, c.1 as int));
    assert forall|i: int, j: int| 0 <= i < ids.len() && 0 <= j < ids.len() && i != j implies ids[i] != ids[j] by {
        if ids[i] == ids[j] {
            let a = if i < j { i } else { j };
            let b = if i < j { j } else { i };
            assert(on_grid(width, height, q[i].0 as int, q[i].1 as int));
            assert(on_grid(width, height, q[j].0 as int, q[j].1 as int));
            lemma_cell_id_injective(width, q[i].0 as int, q[i].1 as int, q[j].0 as int, q[j].1 as int);
            assert(q[a] == q[b]);
        }
    }
    ids.unique_seq_to_set();
    assert forall|v: int| ids.to_set().contains(v) implies set_int_range(0, width * height).contains(v) by {
        let i = choose|i: int| 0 <= i < ids.len() && ids[i] == v;
        assert(on_grid(width, height, q[i].0 as int, q[i].1 as int));
        lemma_cell_id_range(width, height, q[i].0 as int, q[i].1 as int);
    }
    assert(0 <= width * height) by (nonlinear_arith)
        requires
            width >= 1,
            height >= 1,
    ;
    lemma_int_range(0, width * height);
    lemma_len_subset(ids.to_set(), set_int_range(0, width * height));
}

/// The neighbour of `(x, y)` in direction `d` when it lies on the grid.
fn neighbor_of(x: usize, y: usize, d: usize, width: usize, height: usize) -> (r: Option<(usize, usize)>)
    requires
        x < width,
        y < height,
    ensures
        match r {
            Some(n) => step_to(x as int, y as int, d as int) == (n.0 as int, n.1 as int) && n.0 < width && n.1
                < height,
            None => !on_grid(width as int, height as int, step_to(x as int, y as int, d as int).0, step_to(x as int, y as int, d as int).1),
        },
{
    if d == 0 {
        if x + 1 < width { Some((x + 1, y)) } else { None }
    } else if d == 1 {
        if x >= 1 { Some((x - 1, y)) } else { None }
    } else if d == 2 {
        if y + 1 < height { Some((x, y + 1)) } else { None }
    } else {
        if y >= 1 { Some((x, y - 1)) } else { None }
    }
}

/// The entry of cell `(x, y)` in a row-major grid of width `width`.
pub open spec fn at(flat: Seq<Option<usize>>, width: int, x: int, y: int) -> Option<usize> {
    flat[cell_id(width, x, y)]
}

/// The distance held by an entry (`-1` for none).
pub open spec fn held(o: Option<usize>) -> int {
    match o {
        Some(d) => d as int,
        None => -1,
    }
}

/// The neighbour of cell `c` in direction `d`, when on the grid, is reached
/// no further than one step beyond `c`.
pub open spec fn step_closed(flat: Seq<Option<usize>>, width: int, height: int, c: (usize, usize), d: int) -> bool {
    let n = step_to(c.0 as int, c.1 as int, d);
    on_grid(width, height, n.0, n.1) ==> 0 <= held(at(flat, width, n.0, n.1)) <= held(
        at(flat, width, c.0 as int, c.1 as int),
    ) + 1
}

/// The queue invariant of the breadth-first search: the queue lists every
/// reached cell once, in order of distance; the distances of the cells still
/// waiting differ by at most one; the neighbours of every processed cell are
/// reached no further than one step beyond it; every distance is backed by a
/// shore cell at most that far; shore cells hold distance `0`.
pub open spec fn bfs_state(
    land: Seq<Vec<bool>>,
    width: int,
    height: int,
    flat: Seq<Option<usize>>,
    q: Seq<(usize, usize)>,
    head: int,
) -> bool {
    &&& 1 <= width <= usize::MAX && 1 <= height <= usize::MAX
    &&& mask_shape(land, width, height)
    &&& flat.len() == width * height
    &&& 0 <= head <= q.len() <= width * height
    &&& forall|i: int| 0 <= i < q.len() ==> on_grid(width, height, (#[trigger] q[i]).0 as int, q[i].1 as int)
    &&& forall|i: int|
        0 <= i < q.len() ==> 0 <= held(at(flat, width, (#[trigger] q[i]).0 as int, q[i].1 as int)) <= i
    &&& forall|i: int, j: int|
        0 <= i <= j < q.len() ==> held(at(flat, width, q[i].0 as int, q[i].1 as int)) <= held(
            at(flat, width, q[j].0 as int, q[j].1 as int),
        )
    &&& forall|i: int, j: int|
        head <= i <= j < q.len() ==> held(at(flat, width, q[j].0 as int, q[j].1 as int)) <= held(
            at(flat, width, q[i].0 as int, q[i].1 as int),
        ) + 1
    &&& forall|x: int, y: int|
        on_grid(width, height, x, y) && (#[trigger] at(flat, width, x, y)) is Some ==> exists|i: int|
            0 <= i < q.len() && q[i] == (x as usize, y as usize)
    &&& forall|i: int, j: int| 0 <= i < j < q.len() ==> q[i] != q[j]
    &&& forall|i: int, d: int| 0 <= i < head && 0 <= d < 4 ==> #[trigger] step_closed(flat, width, height, q[i], d)
    &&& forall|x: int, y: int|
        on_grid(width, height, x, y) && (#[trigger] at(flat, width, x, y)) is Some ==> exists|sx: int, sy: int|
            shore_water(land, width, height, sx, sy) && manhattan(x, y, sx, sy) <= held(at(flat, width, x, y))
    &&& forall|x: int, y: int|
        shore_water(land, width, height, x, y) ==> #[trigger] at(flat, width, x, y) == Some(0usize)
}

/// Starts the search: every shore water cell at distance `0`, queued in row
/// order; every other cell unreached.
fn seed_distances(land: &Vec<Vec<bool>>, width: usize, height: usize) -> (r: (Vec<Option<usize>>, Vec<(usize, usize)>))
    requires
        width >= 1,
        height >= 1,
        width * height <= usize::MAX,
        mask_shape(land@, width as int, height as int),
    ensures
        bfs_state(land@, width as int, height as int, r.0@, r.1@, 0),
{
    let wh = width * height;
    let mut flat: Vec<Option<usize>> = Vec::new();
    let mut k: usize = 0;
    while k < wh
        invariant
            k <= wh,
            flat.len() == k,
            forall|i: int| 0 <= i < k ==> flat@[i] is None,
        decreases wh - k,
    {
        flat.push(None);
        k = k + 1;
    }
    assert(land.len() >= 1 && land@[0].len() == width);
    assert forall|x: int, y: int| on_grid(width as int, height as int, x, y) implies !(#[trigger] at(
        flat@,
        width as int,
        x,
        y,
    ) is Some) by {
        lemma_cell_id_range(width as int, height as int, x, y);
    }
    let sources = shore_adjacent_water_coords(land);
    let mut queue: Vec<(usize, usize)> = Vec::new();
    k = 0;
    while k < sources.len()
        invariant
            width >= 1,
            height >= 1,
            wh == width * height,
            mask_shape(land@, width as int, height as int),
            flat.len() == wh,
            k <= sources.len(),
            queue@ == sources@.take(k as int),
            forall|j: int|
                0 <= j < sources.len() ==> shore_water(
                    land@,
                    width as int,
                    height as int,
                    (#[trigger] sources[j]).0 as int,
                    sources[j].1 as int,
                ),
            forall|j1: int, j2: int|
                0 <= j1 < j2 < sources.len() ==> (sources[j1].1 < sources[j2].1 || (sources[j1].1 == sources[j2].1
                    && sources[j1].0 < sources[j2].0)),
            forall|x: int, y: int|
                on_grid(width as int, height as int, x, y) && (#[trigger] at(flat@, width as int, x, y)) is Some
                    ==> at(flat@, width as int, x, y) == Some(0usize) && exists|j: int|
                    0 <= j < k && sources[j] == (x as usize, y as usize),
            forall|j: int|
                0 <= j < k ==> #[trigger] at(flat@, width as int, sources[j].0 as int, sources[j].1 as int) == Some(
                    0usize,
                ),
        decreases sources.len() - k,
    {
        let (x, y) = sources[k];
        assert(shore_water(land@, width as int, height as int, x as int, y as int));
        proof {
            lemma_cell_id_range(width as int, height as int, x as int, y as int);
        }
        let ghost before = flat@;
        flat.set(y * width + x, Some(0));
        queue.push((x, y));
        proof {
            assert(queue@ =~= sources@.take(k + 1));
            assert forall|a: int, b: int|
                on_grid(width as int, height as int, a, b) && (#[trigger] at(flat@, width as int, a, b)) is Some
                    implies at(flat@, width as int, a, b) == Some(0usize) && exists|j: int|
                    0 <= j < k + 1 && sources[j] == (a as usize, b as usize) by {
                lemma_cell_id_range(width as int, height as int, a, b);
                if cell_id(width as int, a, b) == cell_id(width as int, x as int, y as int) {
                    lemma_cell_id_injective(width as int, a, b, x as int, y as int);
                    assert(sources[k as int] == (a as usize, b as usize));
                } else {
                    assert(at(before, width as int, a, b) is Some);
                }
            }
            assert forall|j: int| 0 <= j < k + 1 implies #[trigger] at(
                flat@,
                width as int,
                sources[j].0 as int,
                sources[j].1 as int,
            ) == Some(0usize) by {
                assert(shore_water(land@, width as int, height as int, sources[j].0 as int, sources[j].1 as int));
                lemma_cell_id_range(width as int, height as int, sources[j].0 as int, sources[j].1 as int);
                if j < k {
                    assert(at(before, width as int, sources[j].0 as int, sources[j].1 as int) == Some(0usize));
                }
            }
        }
        k = k + 1;
    }
    proof {
        let w = width as int;
        let h = height as int;
        assert(queue@ =~= sources@);
        assert forall|i: int, j: int| 0 <= i < j < queue@.len() implies queue@[i] != queue@[j] by {}
        lemma_cells_bound(queue@, w, h);
        assert forall|x: int, y: int|
            shore_water(land@, w, h, x, y) implies #[trigger] at(flat@, w, x, y) == Some(0usize) by {
            let j = choose|j: int| 0 <= j < sources.len() && #[trigger] sources[j] == (x as usize, y as usize);
            assert(at(flat@, w, sources[j].0 as int, sources[j].1 as int) == Some(0usize));
        }
        assert forall|x: int, y: int|
            on_grid(w, h, x, y) && (#[trigger] at(flat@, w, x, y)) is Some implies exists|sx: int, sy: int|
                shore_water(land@, w, h, sx, sy) && manhattan(x, y, sx, sy) <= held(at(flat@, w, x, y)) by {
            let j = choose|j: int| 0 <= j < k && sources[j] == (x as usize, y as usize);
            assert(shore_water(land@, w, h, sources[j].0 as int, sources[j].1 as int));
            assert(manhattan(x, y, x, y) == 0);
        }
        assert forall|i: int| 0 <= i < queue@.len() implies 0 <= held(
            at(flat@, w, (#[trigger] queue@[i]).0 as int, queue@[i].1 as int),
        ) <= i by {
            assert(at(flat@, w, sources[i].0 as int, sources[i].1 as int) == Some(0usize));
        }
    }
    (flat, queue)
}

/// A neighbour is at most one step further from a shore cell.
proof fn lemma_manhattan_step(x: int, y: int, d: int, sx: int, sy: int)
    requires
        0 <= d < 4,
    ensures
        manhattan(step_to(x, y, d).0, step_to(x, y, d).1, sx, sy) <= manhattan(x, y, sx, sy) + 1,
{
}

/// Reaching the unreached neighbour `n` (direction `d`) of the front cell one
/// step beyond it keeps the search invariant.
proof fn lemma_reach_cell(
    land: Seq<Vec<bool>>,
    width: int,
    height: int,
    flat: Seq<Option<usize>>,
    q: Seq<(usize, usize)>,
    head: int,
    d: int,
    n: (usize, usize),
)
    requires
        bfs_state(land, width, height, flat, q, head),
        head < q.len(),
        0 <= d < 4,
        step_to(q[head].0 as int, q[head].1 as int, d) == (n.0 as int, n.1 as int),
        on_grid(width, height, n.0 as int, n.1 as int),
        at(flat, width, n.0 as int, n.1 as int) is None,
        held(at(flat, width, q[head].0 as int, q[head].1 as int)) + 1 <= usize::MAX,
        forall|e: int| 0 <= e < d ==> #[trigger] step_closed(flat, width, height, q[head], e),
    ensures
        ({
            let dd = held(at(flat, width, q[head].0 as int, q[head].1 as int));
            let flat2 = flat.update(cell_id(width, n.0 as int, n.1 as int), Some((dd + 1) as usize));
            let q2 = q.push(n);
            &&& bfs_state(land, width, height, flat2, q2, head)
            &&& forall|e: int| 0 <= e <= d ==> #[trigger] step_closed(flat2, width, height, q2[head], e)
            &&& at(flat2, width, q[head].0 as int, q[head].1 as int) == at(
                flat,
                width,
                q[head].0 as int,
                q[head].1 as int,
            )
        }),
{
    let c = q[head];
    let dd = held(at(flat, width, c.0 as int, c.1 as int));
    let id = cell_id(width, n.0 as int, n.1 as int);
    let flat2 = flat.update(id, Some((dd + 1) as usize));
    let q2 = q.push(n);
    lemma_cell_id_range(width, height, n.0 as int, n.1 as int);
    // entries that held a distance keep it
    assert forall|x: int, y: int|
        on_grid(width, height, x, y) && at(flat, width, x, y) is Some implies #[trigger] at(flat2, width, x, y)
            == at(flat, width, x, y) by {
        lemma_cell_id_range(width, height, x, y);
        if cell_id(width, x, y) == id {
            lemma_cell_id_injective(width, x, y, n.0 as int, n.1 as int);
        }
    }
    assert(at(flat2, width, n.0 as int, n.1 as int) == Some((dd + 1) as usize));
    // the queued cells are reached, so `n` is not among them
    assert forall|i: int| 0 <= i < q.len() implies #[trigger] q[i] != n by {
        assert(on_grid(width, height, q[i].0 as int, q[i].1 as int));
        assert(0 <= held(at(flat, width, q[i].0 as int, q[i].1 as int)));
    }
    assert forall|i: int| 0 <= i < q.len() implies #[trigger] at(flat2, width, q[i].0 as int, q[i].1 as int)
        == at(flat, width, q[i].0 as int, q[i].1 as int) by {
        assert(on_grid(width, height, q[i].0 as int, q[i].1 as int));
        assert(0 <= held(at(flat, width, q[i].0 as int, q[i].1 as int)));
    }
    assert forall|i: int, j: int| 0 <= i < j < q2.len() implies q2[i] != q2[j] by {
        if j == q.len() {
            assert(q2[i] == q[i]);
        }
    }
    assert forall|i: int| 0 <= i < q2.len() implies on_grid(width, height, (#[trigger] q2[i]).0 as int, q2[i].1 as int) by {
        if i < q.len() {
            assert(q2[i] == q[i]);
        }
    }
    lemma_cells_bound(q2, width, height);
    assert(0 <= dd <= head);
    assert forall|i: int| 0 <= i < q2.len() implies 0 <= held(
        at(flat2, width, (#[trigger] q2[i]).0 as int, q2[i].1 as int),
    ) <= i by {
        if i < q.len() {
            assert(q2[i] == q[i]);
        }
    }
    assert forall|i: int, j: int|
        0 <= i <= j < q2.len() implies held(at(flat2, width, q2[i].0 as int, q2[i].1 as int)) <= held(
        at(flat2, width, q2[j].0 as int, q2[j].1 as int),
    ) by {
        if j < q.len() {
            assert(q2[i] == q[i] && q2[j] == q[j]);
        } else if i < q.len() {
            assert(q2[i] == q[i]);
            if i >= head {
                assert(held(at(flat, width, q[i].0 as int, q[i].1 as int)) <= dd + 1);
            } else {
                assert(held(at(flat, width, q[i].0 as int, q[i].1 as int)) <= dd);
            }
        }
    }
    assert forall|i: int, j: int|
        head <= i <= j < q2.len() implies held(at(flat2, width, q2[j].0 as int, q2[j].1 as int)) <= held(
        at(flat2, width, q2[i].0 as int, q2[i].1 as int),
    ) + 1 by {
        if j < q.len() {
            assert(q2[i] == q[i] && q2[j] == q[j]);
        } else if i < q.len() {
            assert(q2[i] == q[i]);
            assert(held(at(flat, width, q[head].0 as int, q[head].1 as int)) <= held(
                at(flat, width, q[i].0 as int, q[i].1 as int),
            ));
        }
    }
    assert forall|x: int, y: int|
        on_grid(width, height, x, y) && (#[trigger] at(flat2, width, x, y)) is Some implies exists|i: int|
            0 <= i < q2.len() && q2[i] == (x as usize, y as usize) by {
        lemma_cell_id_range(width, height, x, y);
        if cell_id(width, x, y) == id {
            lemma_cell_id_injective(width, x, y, n.0 as int, n.1 as int);
            assert(q2[q.len() as int] == (x as usize, y as usize));
        } else {
            assert(at(flat, width, x, y) is Some);
            let i = choose|i: int| 0 <= i < q.len() && q[i] == (x as usize, y as usize);
            assert(q2[i] == q[i]);
        }
    }
    assert forall|i: int, e: int| 0 <= i < head && 0 <= e < 4 implies #[trigger] step_closed(
        flat2,
        width,
        height,
        q2[i],
        e,
    ) by {
        assert(q2[i] == q[i]);
        assert(step_closed(flat, width, height, q[i], e));
        let m = step_to(q[i].0 as int, q[i].1 as int, e);
        if on_grid(width, height, m.0, m.1) {
            assert(at(flat2, width, m.0, m.1) == at(flat, width, m.0, m.1));
        }
    }
    assert forall|e: int| 0 <= e <= d implies #[trigger] step_closed(flat2, width, height, q2[head], e) by {
        assert(q2[head] == c);
        let m = step_to(c.0 as int, c.1 as int, e);
        if e < d {
            assert(step_closed(flat, width, height, c, e));
            if on_grid(width, height, m.0, m.1) {
                assert(at(flat2, width, m.0, m.1) == at(flat, width, m.0, m.1));
            }
        }
    }
    assert forall|x: int, y: int|
        on_grid(width, height, x, y) && (#[trigger] at(flat2, width, x, y)) is Some implies exists|sx: int, sy: int|
            shore_water(land, width, height, sx, sy) && manhattan(x, y, sx, sy) <= held(at(flat2, width, x, y)) by {
        lemma_cell_id_range(width, height, x, y);
        if cell_id(width, x, y) == id {
            lemma_cell_id_injective(width, x, y, n.0 as int, n.1 as int);
            assert(at(flat, width, c.0 as int, c.1 as int) is Some);
            let (sx, sy) = choose|sx: int, sy: int|
                shore_water(land, width, height, sx, sy) && manhattan(c.0 as int, c.1 as int, sx, sy) <= held(
                    at(flat, width, c.0 as int, c.1 as int),
                );
            lemma_manhattan_step(c.0 as int, c.1 as int, d, sx, sy);
        } else {
            assert(at(flat, width, x, y) is Some);
        }
    }
    assert forall|x: int, y: int| shore_water(land, width, height, x, y) implies #[trigger] at(flat2, width, x, y)
        == Some(0usize) by {
        assert(at(flat, width, x, y) == Some(0usize));
    }
}

/// A reached cell is never more than one step beyond the front cell.
proof fn lemma_reached_near_front(
    land: Seq<Vec<bool>>,
    width: int,
    height: int,
    flat: Seq<Option<usize>>,
    q: Seq<(usize, usize)>,
    head: int,
    x: int,
    y: int,
)
    requires
        bfs_state(land, width, height, flat, q, head),
        head < q.len(),
        on_grid(width, height, x, y),
        at(flat, width, x, y) is Some,
    ensures
        0 <= held(at(flat, width, x, y)) <= held(at(flat, width, q[head].0 as int, q[head].1 as int)) + 1,
{
    let i = choose|i: int| 0 <= i < q.len() && q[i] == (x as usize, y as usize);
    assert(q[i].0 as int == x && q[i].1 as int == y);
    assert(0 <= held(at(flat, width, q[i].0 as int, q[i].1 as int)));
    if i >= head {
        assert(held(at(flat, width, q[i].0 as int, q[i].1 as int)) <= held(
            at(flat, width, q[head].0 as int, q[head].1 as int),
        ) + 1);
    } else {
        assert(held(at(flat, width, q[i].0 as int, q[i].1 as int)) <= held(
            at(flat, width, q[head].0 as int, q[head].1 as int),
        ));
    }
}

/// Runs the breadth-first search to the end: the front cell's unreached
/// neighbours get its distance plus one and join the queue.
fn spread_distances(
    land: &Vec<Vec<bool>>,
    width: usize,
    height: usize,
    flat: &mut Vec<Option<usize>>,
    queue: &mut Vec<(usize, usize)>,
)
    requires
        bfs_state(land@, width as int, height as int, old(flat)@, old(queue)@, 0),
        width * height <= usize::MAX,
    ensures
        bfs_state(land@, width as int, height as int, final(flat)@, final(queue)@, final(queue)@.len() as int),
{
    let mut head: usize = 0;
    while head < queue.len()
        invariant
            bfs_state(land@, width as int, height as int, flat@, queue@, head as int),
            width * height <= usize::MAX,
        decreases 2 * (width * height) - queue.len() - head,
    {
        let (x, y) = queue[head];
        assert(on_grid(width as int, height as int, x as int, y as int));
        proof {
            lemma_cell_id_range(width as int, height as int, x as int, y as int);
        }
        let cur = flat[y * width + x];
        let dist = match cur {
            Some(v) => v,
            None => 0,
        };
        assert(dist as int == held(at(flat@, width as int, x as int, y as int)));
        assert(dist <= head);
        let next = dist + 1;
        let ghost len0 = queue.len();
        let mut d: usize = 0;
        while d < 4
            invariant
                queue.len() >= len0,
                len0 > head,
                bfs_state(land@, width as int, height as int, flat@, queue@, head as int),
                width * height <= usize::MAX,
                head < queue.len(),
                queue@[head as int] == (x, y),
                dist as int == held(at(flat@, width as int, x as int, y as int)),
                next == dist + 1,
                d <= 4,
                forall|e: int| 0 <= e < d ==> #[trigger] step_closed(flat@, width as int, height as int, queue@[head as int], e),
            decreases 4 - d,
        {
            match neighbor_of(x, y, d, width, height) {
                Some((nx, ny)) => {
                    proof {
                        lemma_cell_id_range(width as int, height as int, nx as int, ny as int);
                    }
                    let id = ny * width + nx;
                    let better = match flat[id] {
                        None => true,
                        Some(e) => next < e,
                    };
                    if better {
                        proof {
                            if at(flat@, width as int, nx as int, ny as int) is Some {
                                lemma_reached_near_front(
                                    land@,
                                    width as int,
                                    height as int,
                                    flat@,
                                    queue@,
                                    head as int,
                                    nx as int,
                                    ny as int,
                                );
                            }
                            lemma_reach_cell(
                                land@,
                                width as int,
                                height as int,
                                flat@,
                                queue@,
                                head as int,
                                d as int,
                                (nx, ny),
                            );
                        }
                        flat.set(id, Some(next));
                        queue.push((nx, ny));
                    } else {
                        proof {
                            lemma_reached_near_front(
                                land@,
                                width as int,
                                height as int,
                                flat@,
                                queue@,
                                head as int,
                                nx as int,
                                ny as int,
                            );
                        }
                    }
                },
                None => {},
            }
            d = d + 1;
        }
        head = head + 1;
    }
}

/// When the search is done, every cell is reached, at most as far as any
/// shore cell is.
proof fn lemma_within_shore_distance(
    land: Seq<Vec<bool>>,
    width: int,
    height: int,
    flat: Seq<Option<usize>>,
    q: Seq<(usize, usize)>,
    sx: int,
    sy: int,
    x: int,
    y: int,
)
    requires
        bfs_state(land, width, height, flat, q, q.len() as int),
        shore_water(land, width, height, sx, sy),
        on_grid(width, height, x, y),
    ensures
        at(flat, width, x, y) is Some,
        held(at(flat, width, x, y)) <= manhattan(x, y, sx, sy),
    decreases manhattan(x, y, sx, sy),
{
    if x == sx && y == sy {
        assert(at(flat, width, x, y) == Some(0usize));
    } else {
        let (px, py, back) = if x > sx {
            (x - 1, y, 0int)
        } else if x < sx {
            (x + 1, y, 1int)
        } else if y > sy {
            (x, y - 1, 2int)
        } else {
            (x, y + 1, 3int)
        };
        assert(manhattan(px, py, sx, sy) == manhattan(x, y, sx, sy) - 1);
        lemma_within_shore_distance(land, width, height, flat, q, sx, sy, px, py);
        let i = choose|i: int| 0 <= i < q.len() && q[i] == (px as usize, py as usize);
        assert(q[i].0 as int == px && q[i].1 as int == py);
        assert(step_closed(flat, width, height, q[i], back));
        assert(step_to(px, py, back) == (x, y));
    }
}

/// What the distance map holds at a cell: the distance to the nearest shore
/// water cell, or nothing when the map has no shore water at all.
pub open spec fn shore_distance_entry(land: Seq<Vec<bool>>, width: int, height: int, x: int, y: int, v: Option<usize>) -> bool {
    match v {
        Some(d) => nearest_shore(land, width, height, x, y, d as int),
        None => no_shore(land, width, height),
    }
}

proof fn lemma_final_entry(
    land: Seq<Vec<bool>>,
    width: int,
    height: int,
    flat: Seq<Option<usize>>,
    q: Seq<(usize, usize)>,
    x: int,
    y: int,
)
    requires
        bfs_state(land, width, height, flat, q, q.len() as int),
        on_grid(width, height, x, y),
    ensures
        shore_distance_entry(land, width, height, x, y, at(flat, width, x, y)),
{
    match at(flat, width, x, y) {
        Some(d) => {
            let (sx, sy) = choose|sx: int, sy: int|
                shore_water(land, width, height, sx, sy) && manhattan(x, y, sx, sy) <= held(at(flat, width, x, y));
            lemma_within_shore_distance(land, width, height, flat, q, sx, sy, x, y);
            assert(manhattan(x, y, sx, sy) == d);
            assert forall|tx: int, ty: int| shore_water(land, width, height, tx, ty) implies #[trigger] manhattan(
                x,
                y,
                tx,
                ty,
            ) >= d by {
                lemma_within_shore_distance(land, width, height, flat, q, tx, ty, x, y);
            }
        },
        None => {
            assert forall|sx: int, sy: int| !#[trigger] shore_water(land, width, height, sx, sy) by {
                if shore_water(land, width, height, sx, sy) {
                    lemma_within_shore_distance(land, width, height, flat, q, sx, sy, x, y);
                }
            }
        },
    }
}

/// The distance of every cell of a `width` x `height` map to the nearest
/// water cell next to land (`None` everywhere when there is none), found by a
/// breadth-first search from all those cells at once.
pub fn gen_dist_ocean_map(land: &Vec<Vec<bool>>, width: usize, height: usize) -> (r: Vec<Vec<Option<usize>>>)
    requires
        width >= 1,
        height >= 1,
        width * height <= usize::MAX,
        mask_shape(land@, width as int, height as int),
    ensures
        r.len() == height,
        forall|y: int| 0 <= y < height ==> (#[trigger] r[y]).len() == width,
        forall|x: int, y: int|
            on_grid(width as int, height as int, x, y) ==> shore_distance_entry(
                land@,
                width as int,
                height as int,
                x,
                y,
                #[trigger] r[y][x],
            ),
{
    let (mut flat, mut queue) = seed_distances(land, width, height);
    spread_distances(land, width, height, &mut flat, &mut queue);
    let ghost q = queue@;
    let mut rows: Vec<Vec<Option<usize>>> = Vec::new();
    let mut y: usize = 0;
    while y < height
        invariant
            bfs_state(land@, width as int, height as int, flat@, q, q.len() as int),
            width * height <= usize::MAX,
            y <= height,
            rows.len() == y,
            forall|j: int| 0 <= j < y ==> (#[trigger] rows[j]).len() == width,
            forall|a: int, b: int|
                0 <= a < width && 0 <= b < y ==> #[trigger] rows[b][a] == at(flat@, width as int, a, b),
        decreases height - y,
    {
        let mut row: Vec<Option<usize>> = Vec::new();
        let mut x: usize = 0;
        while x < width
            invariant
                bfs_state(land@, width as int, height as int, flat@, q, q.len() as int),
                width * height <= usize::MAX,
                y < height,
                x <= width,
                row.len() == x,
                forall|a: int| 0 <= a < x ==> #[trigger] row[a] == at(flat@, width as int, a, y as int),
            decreases width - x,
        {
            proof {
                lemma_cell_id_range(width as int, height as int, x as int, y as int);
            }
            row.push(flat[y * width + x]);
            x = x + 1;
        }
        rows.push(row);
        y = y + 1;
    }
    proof {
        assert forall|x: int, y: int| on_grid(width as int, height as int, x, y) implies shore_distance_entry(
            land@,
            width as int,
            height as int,
            x,
            y,
            #[trigger] rows[y][x],
        ) by {
            lemma_final_entry(land@, width as int, height as int, flat@, q, x, y);
        }
    }
    rows
}

/// A `width` x `height` grid of flow ranks, indexed `rank[y][x]`: lower
/// ranks lie further downwind along the potential.
pub open spec fn rank_shape(rank: Seq<Vec<u64>>, width: int, height: int) -> bool {
    &&& rank.len() == height
    &&& forall|y: int| 0 <= y < height ==> (#[trigger] rank[y]).len() == width
}

/// The rank of cell `c`.
pub open spec fn rank_of(rank: Seq<Vec<u64>>, c: (int, int)) -> int {
    rank[c.1][c.0] as int
}

/// The neighbour of `(x, y)` in direction `d` can feed it: it lies on the
/// grid, is land, and ranks strictly below `(x, y)`.
pub open spec fn upwind_candidate(
    rank: Seq<Vec<u64>>,
    land: Seq<Vec<bool>>,
    width: int,
    height: int,
    x: int,
    y: int,
    d: int,
) -> bool {
    let n = step_to(x, y, d);
    &&& 0 <= d < 4
    &&& land_at(land, width, height, n.0, n.1)
    &&& rank_of(rank, n) < rank_of(rank, (x, y))
}

/// Direction `d` holds the candidate of lowest rank, the first such in the
/// order east, west, south, north.
pub open spec fn best_upwind_dir(
    rank: Seq<Vec<u64>>,
    land: Seq<Vec<bool>>,
    width: int,
    height: int,
    x: int,
    y: int,
    d: int,
) -> bool {
    &&& upwind_candidate(rank, land, width, height, x, y, d)
    &&& forall|e: int|
        #[trigger] upwind_candidate(rank, land, width, height, x, y, e) ==> rank_of(rank, step_to(x, y, d)) < rank_of(
            rank,
            step_to(x, y, e),
        ) || (rank_of(rank, step_to(x, y, d)) == rank_of(rank, step_to(x, y, e)) && d <= e)
}

/// `r` is the upwind neighbour of `(x, y)`: none when no neighbour can feed
/// it, else the best candidate.
pub open spec fn upwind_pick(
    rank: Seq<Vec<u64>>,
    land: Seq<Vec<bool>>,
    width: int,
    height: int,
    x: int,
    y: int,
    r: Option<(usize, usize)>,
) -> bool {
    match r {
        None => forall|d: int| !#[trigger] upwind_candidate(rank, land, width, height, x, y, d),
        Some(n) => exists|d: int|
            #[trigger] best_upwind_dir(rank, land, width, height, x, y, d) && step_to(x, y, d) == (n.0 as int, n.1 as int),
    }
}

/// The upwind land neighbour of land cell `(x, y)`: among its four
/// neighbours that are land and rank strictly lower, the lowest-ranked one
/// (the first in the order east, west, south, north on a tie).
pub fn pick_upwind_land(
    x: usize,
    y: usize,
    width: usize,
    height: usize,
    rank: &Vec<Vec<u64>>,
    land: &Vec<Vec<bool>>,
) -> (r: Option<(usize, usize)>)
    requires
        x < width,
        y < height,
        rank_shape(rank@, width as int, height as int),
        mask_shape(land@, width as int, height as int),
    ensures
        upwind_pick(rank@, land@, width as int, height as int, x as int, y as int, r),
{
    let ghost (gx, gy, w, h) = (x as int, y as int, width as int, height as int);
    let own: u64 = rank[y][x];
    let mut best: Option<(u64, (usize, usize))> = None;
    let ghost mut best_d: int = 0;
    let mut d: usize = 0;
    while d < 4
        invariant
            x < width,
            y < height,
            gx == x,
            gy == y,
            w == width,
            h == height,
            rank_shape(rank@, w, h),
            mask_shape(land@, w, h),
            own == rank@[gy][gx],
            d <= 4,
            match best {
                None => forall|e: int| 0 <= e < d ==> !#[trigger] upwind_candidate(rank@, land@, w, h, gx, gy, e),
                Some(b) => {
                    &&& upwind_candidate(rank@, land@, w, h, gx, gy, best_d)
                    &&& 0 <= best_d < d
                    &&& step_to(gx, gy, best_d) == (b.1.0 as int, b.1.1 as int)
                    &&& b.0 == rank_of(rank@, step_to(gx, gy, best_d))
                    &&& forall|e: int|
                        0 <= e < d && #[trigger] upwind_candidate(rank@, land@, w, h, gx, gy, e) ==> b.0 < rank_of(
                            rank@,
                            step_to(gx, gy, e),
                        ) || (b.0 == rank_of(rank@, step_to(gx, gy, e)) && best_d <= e)
                },
            },
        decreases 4 - d,
    {
        match neighbor_of(x, y, d, width, height) {
            Some(n) => {
                if land[n.1][n.0] {
                    let nr: u64 = rank[n.1][n.0];
                    let better = match best {
                        None => true,
                        Some(b) => nr < b.0,
                    };
                    if nr < own && better {
                        best = Some((nr, n));
                        proof {
                            best_d = d as int;
                        }
                    }
                }
            },
            None => {},
        }
        d = d + 1;
    }
    match best {
        None => None,
        Some(b) => {
            assert(best_upwind_dir(rank@, land@, w, h, gx, gy, best_d));
            Some(b.1)
        },
    }
}

/// `up` is the upwind map of a `width` x `height` grid: no neighbour for
/// water cells, the upwind pick for land cells.
pub open spec fn is_upwind_map(
    up: Seq<Vec<Option<(usize, usize)>>>,
    rank: Seq<Vec<u64>>,
    land: Seq<Vec<bool>>,
    width: int,
    height: int,
) -> bool {
    &&& up.len() == height
    &&& forall|y: int| 0 <= y < height ==> (#[trigger] up[y]).len() == width
    &&& forall|x: int, y: int|
        on_grid(width, height, x, y) ==> if land[y][x] {
            upwind_pick(rank, land, width, height, x, y, #[trigger] up[y][x])
        } else {
            up[y][x] is None
        }
}

/// The upwind neighbour of every cell of a `width` x `height` map: none for
/// water, and for land the lowest-ranked land neighbour ranking below it.
pub fn gen_upwind_map(
    map_width: usize,
    map_height: usize,
    rank: &Vec<Vec<u64>>,
    land: &Vec<Vec<bool>>,
) -> (r: Vec<Vec<Option<(usize, usize)>>>)
    requires
        rank_shape(rank@, map_width as int, map_height as int),
        mask_shape(land@, map_width as int, map_height as int),
    ensures
        is_upwind_map(r@, rank@, land@, map_width as int, map_height as int),
{
    let mut rows: Vec<Vec<Option<(usize, usize)>>> = Vec::new();
    let mut y: usize = 0;
    while y < map_height
        invariant
            rank_shape(rank@, map_width as int, map_height as int),
            mask_shape(land@, map_width as int, map_height as int),
            y <= map_height,
            rows.len() == y,
            forall|j: int| 0 <= j < y ==> (#[trigger] rows[j]).len() == map_width,
            forall|a: int, b: int|
                0 <= a < map_width && 0 <= b < y ==> if land@[b][a] {
                    upwind_pick(rank@, land@, map_width as int, map_height as int, a, b, #[trigger] rows[b][a])
                } else {
                    rows[b][a] is None
                },
        decreases map_height - y,
    {
        let mut row: Vec<Option<(usize, usize)>> = Vec::new();
        let mut x: usize = 0;
        while x < map_width
            invariant
                rank_shape(rank@, map_width as int, map_height as int),
                mask_shape(land@, map_width as int, map_height as int),
                y < map_height,
                x <= map_width,
                row.len() == x,
                forall|a: int|
                    0 <= a < x ==> if land@[y as int][a] {
                        upwind_pick(rank@, land@, map_width as int, map_height as int, a, y as int, #[trigger] row[a])
                    } else {
                        row[a] is None
                    },
            decreases map_width - x,
        {
            if land[y][x] {
                row.push(pick_upwind_land(x, y, map_width, map_height, rank, land));
            } else {
                row.push(None);
            }
            x = x + 1;
        }
        rows.push(row);
        y = y + 1;
    }
    rows
}

/// The cell reached from `(x, y)` by following upwind neighbours `k` times
/// (none once the walk leaves the grid or meets a cell without one).
pub open spec fn follow_upwind(
    up: Seq<Vec<Option<(usize, usize)>>>,
    width: int,
    height: int,
    x: int,
    y: int,
    k: nat,
) -> Option<(int, int)>
    decreases k,
{
    if k == 0 {
        Some((x, y))
    } else {
        match follow_upwind(up, width, height, x, y, (k - 1) as nat) {
            Some(c) => if on_grid(width, height, c.0, c.1) {
                match up[c.1][c.0] {
                    Some(n) => Some((n.0 as int, n.1 as int)),
                    None => None,
                }
            } else {
                None
            },
            None => None,
        }
    }
}

/// Following upwind neighbours one or more times from a cell reaches only
/// cells of strictly lower rank, so it never comes back: the upwind map has
/// no cycle.
pub proof fn lemma_upwind_acyclic(
    up: Seq<Vec<Option<(usize, usize)>>>,
    rank: Seq<Vec<u64>>,
    land: Seq<Vec<bool>>,
    width: int,
    height: int,
    x: int,
    y: int,
    k: nat,
)
    requires
        rank_shape(rank, width, height),
        mask_shape(land, width, height),
        is_upwind_map(up, rank, land, width, height),
        on_grid(width, height, x, y),
        k >= 1,
    ensures
        follow_upwind(up, width, height, x, y, k) is Some ==> {
            let c = follow_upwind(up, width, height, x, y, k)->0;
            &&& land_at(land, width, height, c.0, c.1)
            &&& rank_of(rank, c) < rank_of(rank, (x, y))
        },
        follow_upwind(up, width, height, x, y, k) != Some((x, y)),
    decreases k,
{
    let prev = follow_upwind(up, width, height, x, y, (k - 1) as nat);
    if k > 1 {
        lemma_upwind_acyclic(up, rank, land, width, height, x, y, (k - 1) as nat);
    }
    if follow_upwind(up, width, height, x, y, k) is Some {
        let c = prev->0;
        assert(on_grid(width, height, c.0, c.1));
        let n = up[c.1][c.0]->0;
        assert(land[c.1][c.0]) by {
            if !land[c.1][c.0] {
                assert(up[c.1][c.0] is None);
            }
        }
        assert(upwind_pick(rank, land, width, height, c.0, c.1, up[c.1][c.0]));
        let d = choose|d: int|
            #[trigger] best_upwind_dir(rank, land, width, height, c.0, c.1, d) && step_to(c.0, c.1, d) == (
                n.0 as int,
                n.1 as int,
            );
        assert(upwind_candidate(rank, land, width, height, c.0, c.1, d));
    }
}

} // verus!
