//! View mode of the globe renderer.
use vstd::prelude::*;

verus! {

/// What the globe renderer shows.
#[derive(Clone, Copy, Debug, PartialEq, Eq, Structural)]
pub enum RenderMode {
    PureSimplex,
    HexGlobe,
}

impl Default for RenderMode {
    fn default() -> (r: Self)
        ensures
            r == RenderMode::PureSimplex,
    {
        RenderMode::PureSimplex
    }
}

/// The mode after the switch key: the hex globe from the pure-noise view,
/// the pure-noise view otherwise.
pub fn switch_render_mode(curr_mode: RenderMode) -> (r: RenderMode)
    ensures
        r != curr_mode,
        curr_mode == RenderMode::PureSimplex ==> r == RenderMode::HexGlobe,
        curr_mode == RenderMode::HexGlobe ==> r == RenderMode::PureSimplex,
{
    if curr_mode == RenderMode::PureSimplex {
        RenderMode::HexGlobe
    } else {
        RenderMode::PureSimplex
    }
}

} // verus!
