//! Geometry mode of the heightmap viewer.
use vstd::prelude::*;

verus! {

/// Geometry shown by the heightmap viewer.
#[derive(Clone, Copy, Debug, PartialEq, Eq, Structural)]
pub enum TerrainRenderMode {
    Smooth,
    TrueGrid,
}

impl Default for TerrainRenderMode {
    fn default() -> (r: Self)
        ensures
            r == TerrainRenderMode::Smooth,
    {
        TerrainRenderMode::Smooth
    }
}

impl TerrainRenderMode {
    /// Switches to the other geometry.
    pub fn toggle(self) -> (r: Self)
        ensures
            r != self,
    {
        match self {
            TerrainRenderMode::Smooth => TerrainRenderMode::TrueGrid,
            TerrainRenderMode::TrueGrid => TerrainRenderMode::Smooth,
        }
    }

    /// Display name of this geometry.
    pub fn label(self) -> (r: &'static str)
        ensures
            self == TerrainRenderMode::Smooth ==> r@ == "smooth"@,
            self == TerrainRenderMode::TrueGrid ==> r@ == "true grid"@,
    {
        match self {
            TerrainRenderMode::Smooth => "smooth",
            TerrainRenderMode::TrueGrid => "true grid",
        }
    }
}

} // verus!
