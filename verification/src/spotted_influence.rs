//! Placement of the blobs and peaks of a spotted influence map.
use vstd::prelude::*;
use crate::clcg_seed_gen::{Clcg, steps, step_state, state_output};

verus! {

/// Strength presets of a spotted influence map.
#[derive(Clone, Copy, Debug, PartialEq, Eq, Structural)]
pub enum SpottedInfluencePresetVals {
    Low,
    Middle,
    High,
    VeryHigh,
}

/// The `i`-th of the centres drawn from a generator in state `s`: the next
/// draw modulo `width`, then the one after modulo `height`.
pub open spec fn drawn_center(s: (int, int), i: int, width: u32, height: u32) -> (u32, u32) {
    (
        (state_output(steps(s, (2 * i + 1) as nat)) % (width as int)) as u32,
        (state_output(steps(s, (2 * i + 2) as nat)) % (height as int)) as u32,
    )
}

/// Draws `count` centres inside a `width` x `height` map, two draws each
/// (column, then row).
pub fn spot_centers(rng: &mut Clcg, count: usize, width: u32, height: u32) -> (r: Vec<(u32, u32)>)
    requires
        width > 0,
        height > 0,
    ensures
        r.len() == count,
        final(rng)@ == steps(old(rng)@, (2 * count) as nat),
        forall|i: int| 0 <= i < count ==> #[trigger] r[i] == drawn_center(old(rng)@, i, width, height),
        forall|i: int| 0 <= i < count ==> r[i].0 < width && r[i].1 < height,
{
    let ghost s0 = rng@;
    let mut centers: Vec<(u32, u32)> = Vec::new();
    let mut k: usize = 0;
    while k < count
        invariant
            k <= count,
            width > 0,
            height > 0,
            rng@ == steps(s0, (2 * k) as nat),
            centers.len() == k,
            forall|i: int| 0 <= i < k ==> #[trigger] centers[i] == drawn_center(s0, i, width, height),
            forall|i: int| 0 <= i < k ==> centers[i].0 < width && centers[i].1 < height,
        decreases count - k,
    {
        let cx = rng.next_u32() % width;
        let cy = rng.next_u32() % height;
        assert(steps(s0, (2 * k + 1) as nat) == step_state(steps(s0, (2 * k) as nat)));
        assert(steps(s0, (2 * k + 2) as nat) == step_state(steps(s0, (2 * k + 1) as nat)));
        centers.push((cx, cy));
        k = k + 1;
    }
    centers
}

} // verus!
