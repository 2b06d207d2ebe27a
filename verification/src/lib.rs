//! Integer core of a procedural world generator: the seeded combined
//! linear congruential generator, the icosahedral cell index scheme with
//! its neighbour walk, shore distances and the upwind flow field, raster
//! drawing of flow arrows, and the biome rule table with its selection
//! logic and consistency checks.
use vstd::prelude::*;

pub mod assign_biome;
pub mod clcg_seed_gen;
pub mod globe_renderer;
pub mod heightmap_view;
pub mod helpers;
pub mod img_gen;
pub mod moisture_map;
pub mod simplex_noise;
pub mod spotted_influence;
pub mod terrain_renderer;
pub mod verify_biome_params;
pub mod wind_column_gradient_map;
pub mod worldgen_pipeline;

verus! {

} // verus!
