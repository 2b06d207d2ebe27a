//! Reach of the moisture that a water body spreads onto the land around it.
use vstd::prelude::*;

verus! {

/// The influence radius of a water body of `size` cells on a `width` x
/// `height` map: larger bodies (relative to the map) reach further.
pub open spec fn influence_radius(width: int, height: int, size: int) -> int {
    let map_size = width * height;
    if size >= map_size / 8 {
        width
    } else if size >= map_size / 60 {
        width / 2
    } else if size >= map_size / 120 {
        width / 3
    } else if size >= map_size / 300 {
        width / 4
    } else if size >= map_size / 700 {
        width / 16
    } else {
        width / 32
    }
}

/// Influence radius of a water body of `water_body_size` cells.
pub fn get_influence_radius(width: usize, height: usize, water_body_size: usize) -> (r: usize)
    requires
        width * height <= usize::MAX,
    ensures
        r == influence_radius(width as int, height as int, water_body_size as int),
        r <= width,
{
    let map_size = width * height;
    if water_body_size >= map_size / 8 {
        width
    } else if water_body_size >= map_size / 60 {
        width / 2
    } else if water_body_size >= map_size / 120 {
        width / 3
    } else if water_body_size >= map_size / 300 {
        width / 4
    } else if water_body_size >= map_size / 700 {
        width / 16
    } else {
        width / 32
    }
}

/// A larger water body never has a smaller influence radius.
pub proof fn lemma_influence_radius_monotonic(width: int, height: int, s1: int, s2: int)
    requires
        0 <= width,
        0 <= height,
        s1 <= s2,
    ensures
        influence_radius(width, height, s1) <= influence_radius(width, height, s2),
{
    let m = width * height;
    assert(m >= 0) by (nonlinear_arith)
        requires
            0 <= width,
            0 <= height,
            m == width * height,
    ;
    assert(m / 700 <= m / 300 && m / 300 <= m / 120 && m / 120 <= m / 60 && m / 60 <= m / 8);
    assert(width / 32 <= width / 16 && width / 16 <= width / 4 && width / 4 <= width / 3 && width / 3
        <= width / 2 && width / 2 <= width);
}

} // verus!
