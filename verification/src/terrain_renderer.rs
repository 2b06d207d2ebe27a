//! Decisions of the terrain viewer: geometry and colour modes, the biome
//! palette and legend, the downsampled biome texture, and the reaction to
//! key presses.  Drawing and window handling live with the caller.
use vstd::prelude::*;
use image::ImageEncoder;
use crate::assign_biome::{Biomes, BiomeFamily, BiomeVariant, family_of, biome_of, family_at};

verus! {

/// Geometry shown by the terrain viewer.
#[derive(Clone, Copy, Debug, PartialEq, Eq, Structural)]
pub enum TerrainRenderMode {
    Smooth,
    TrueGrid,
}

impl Default for TerrainRenderMode {
    fn default() -> (r: Self)
        ensures
            r == TerrainRenderMode::Smooth,
    {
        TerrainRenderMode::Smooth
    }
}

/// The other geometry.
pub open spec fn toggled(mode: TerrainRenderMode) -> TerrainRenderMode {
    match mode {
        TerrainRenderMode::Smooth => TerrainRenderMode::TrueGrid,
        TerrainRenderMode::TrueGrid => TerrainRenderMode::Smooth,
    }
}

/// Display name of a geometry.
pub open spec fn render_mode_label(mode: TerrainRenderMode) -> Seq<char> {
    match mode {
        TerrainRenderMode::Smooth => "smooth"@,
        TerrainRenderMode::TrueGrid => "true grid"@,
    }
}

impl TerrainRenderMode {
    /// Switches to the other geometry.
    pub fn toggle(self) -> (r: Self)
        ensures
            r == toggled(self),
    {
        match self {
            TerrainRenderMode::Smooth => TerrainRenderMode::TrueGrid,
            TerrainRenderMode::TrueGrid => TerrainRenderMode::Smooth,
        }
    }

    /// Display name of this geometry.
    pub fn label(self) -> (r: &'static str)
        ensures
            r@ == render_mode_label(self),
    {
        match self {
            TerrainRenderMode::Smooth => "smooth",
            TerrainRenderMode::TrueGrid => "true grid",
        }
    }
}

/// Toggling twice gives the geometry back.
pub proof fn lemma_toggle_twice(mode: TerrainRenderMode)
    ensures
        toggled(toggled(mode)) == mode,
        toggled(mode) != mode,
{
}

/// Colouring of the terrain surface.
#[derive(Clone, Copy, Debug, PartialEq, Eq, Structural)]
pub enum TerrainColorMode {
    Height,
    Biome,
    WarpedInfluence,
    ChaoticInfluence,
}

impl Default for TerrainColorMode {
    fn default() -> (r: Self)
        ensures
            r == TerrainColorMode::Height,
    {
        TerrainColorMode::Height
    }
}

/// Display name of a colouring.
pub open spec fn color_mode_label(mode: TerrainColorMode) -> Seq<char> {
    match mode {
        TerrainColorMode::Height => "height"@,
        TerrainColorMode::Biome => "biome"@,
        TerrainColorMode::WarpedInfluence => "warped"@,
        TerrainColorMode::ChaoticInfluence => "chaotic"@,
    }
}

/// Name under which the texture of a colouring is registered.
pub open spec fn color_mode_texture(mode: TerrainColorMode) -> Seq<char> {
    match mode {
        TerrainColorMode::Height => "terrain_height"@,
        TerrainColorMode::Biome => "terrain_biome"@,
        TerrainColorMode::WarpedInfluence => "terrain_warped"@,
        TerrainColorMode::ChaoticInfluence => "terrain_chaotic"@,
    }
}

impl TerrainColorMode {
    /// Display name of this colouring.
    pub fn label(self) -> (r: &'static str)
        ensures
            r@ == color_mode_label(self),
    {
        match self {
            TerrainColorMode::Height => "height",
            TerrainColorMode::Biome => "biome",
            TerrainColorMode::WarpedInfluence => "warped",
            TerrainColorMode::ChaoticInfluence => "chaotic",
        }
    }

    /// Name under which the texture of this colouring is registered.
    pub fn texture_name(self) -> (r: &'static str)
        ensures
            r@ == color_mode_texture(self),
    {
        match self {
            TerrainColorMode::Height => "terrain_height",
            TerrainColorMode::Biome => "terrain_biome",
            TerrainColorMode::WarpedInfluence => "terrain_warped",
            TerrainColorMode::ChaoticInfluence => "terrain_chaotic",
        }
    }
}

/// The water plane is drawn only over the smooth geometry in height colouring.
pub fn water_plane_visible(render_mode: TerrainRenderMode, color_mode: TerrainColorMode) -> (r: bool)
    ensures
        r == (render_mode == TerrainRenderMode::Smooth && color_mode == TerrainColorMode::Height),
{
    render_mode == TerrainRenderMode::Smooth && color_mode == TerrainColorMode::Height
}

/// Colour of a base biome.
pub open spec fn family_rgb(f: BiomeFamily) -> (u8, u8, u8) {
    match f {
        BiomeFamily::Grasslands => (70, 200, 55),
        BiomeFamily::Desert => (235, 200, 70),
        BiomeFamily::Ashlands => (120, 55, 40),
        BiomeFamily::Savannah => (210, 185, 45),
        BiomeFamily::SteepMountain => (130, 95, 70),
        BiomeFamily::MountainPeak => (245, 250, 255),
        BiomeFamily::Ocean => (25, 100, 200),
        BiomeFamily::DeepOcean => (10, 30, 110),
        BiomeFamily::ShallowOcean => (60, 185, 225),
        BiomeFamily::Pond => (45, 180, 140),
        BiomeFamily::WetSinkhole => (30, 110, 95),
        BiomeFamily::Lagoon => (35, 200, 190),
        BiomeFamily::GreatLagoon => (25, 160, 180),
        BiomeFamily::Lake => (45, 130, 220),
        BiomeFamily::DeepLake => (20, 70, 160),
        BiomeFamily::FrozenLake => (200, 235, 250),
        BiomeFamily::FrozenDeepLake => (140, 200, 235),
        BiomeFamily::GreatLake => (30, 115, 205),
        BiomeFamily::DeepGreatLake => (15, 55, 140),
        BiomeFamily::FrozenGreatLake => (185, 230, 245),
        BiomeFamily::FrozenDeepGreatLake => (120, 185, 225),
        BiomeFamily::Badlands => (220, 95, 45),
        BiomeFamily::Forrest => (35, 140, 50),
        BiomeFamily::SparceForrest => (120, 185, 75),
        BiomeFamily::DeepForrest => (15, 80, 30),
        BiomeFamily::Rainforrest => (10, 160, 70),
        BiomeFamily::SwampyRainforrest => (55, 135, 60),
        BiomeFamily::SwampyForrest => (75, 125, 45),
        BiomeFamily::Bog => (110, 105, 35),
        BiomeFamily::Marsh => (140, 175, 70),
        BiomeFamily::Swamp => (90, 115, 40),
        BiomeFamily::IceTaiga => (115, 185, 180),
        BiomeFamily::SnowyTundra => (225, 240, 250),
        BiomeFamily::BorealForrest => (30, 100, 80),
        BiomeFamily::RockyFields => (185, 135, 80),
        BiomeFamily::SandyCoast => (245, 225, 140),
        BiomeFamily::RockyCoast => (160, 110, 70),
        BiomeFamily::MacrotidalShingleBeach => (180, 150, 100),
        BiomeFamily::ScorchedBeach => (235, 115, 45),
    }
}

/// Colour of a biome: the colour of its base biome.
pub open spec fn biome_rgb(b: Biomes) -> (u8, u8, u8) {
    family_rgb(family_of(b))
}

/// Thematic colour of a biome; the warped and chaotic variants share the
/// colour of their base biome.
pub fn biome_color(biome: Biomes) -> (r: [u8; 3])
    ensures
        (r[0], r[1], r[2]) == biome_rgb(biome),
{
    match biome {
        Biomes::GRASSLANDS | Biomes::WARPED_GRASSLANDS | Biomes::CHAOTIC_GRASSLANDS => [70, 200, 55],
        Biomes::DESERT | Biomes::WARPED_DESERT | Biomes::CHAOTIC_DESERT => [235, 200, 70],
        Biomes::ASHLANDS | Biomes::WARPED_ASHLANDS | Biomes::CHAOTIC_ASHLANDS => [120, 55, 40],
        Biomes::SAVANNAH | Biomes::WARPED_SAVANNAH | Biomes::CHAOTIC_SAVANNAH => [210, 185, 45],
        Biomes::STEEP_MOUNTAIN | Biomes::WARPED_STEEP_MOUNTAIN | Biomes::CHAOTIC_STEEP_MOUNTAIN => [130, 95, 70],
        Biomes::MOUNTAIN_PEAK | Biomes::WARPED_MOUNTAIN_PEAK | Biomes::CHAOTIC_MOUNTAIN_PEAK => [245, 250, 255],
        Biomes::OCEAN | Biomes::WARPED_OCEAN | Biomes::CHAOTIC_OCEAN => [25, 100, 200],
        Biomes::DEEP_OCEAN | Biomes::WARPED_DEEP_OCEAN | Biomes::CHAOTIC_DEEP_OCEAN => [10, 30, 110],
        Biomes::SHALLOW_OCEAN | Biomes::WARPED_SHALLOW_OCEAN | Biomes::CHAOTIC_SHALLOW_OCEAN => [60, 185, 225],
        Biomes::POND | Biomes::WARPED_POND | Biomes::CHAOTIC_POND => [45, 180, 140],
        Biomes::WET_SINKHOLE | Biomes::WARPED_WET_SINKHOLE | Biomes::CHAOTIC_WET_SINKHOLE => [30, 110, 95],
        Biomes::LAGOON | Biomes::WARPED_LAGOON | Biomes::CHAOTIC_LAGOON => [35, 200, 190],
        Biomes::GREAT_LAGOON | Biomes::WARPED_GREAT_LAGOON | Biomes::CHAOTIC_GREAT_LAGOON => [25, 160, 180],
        Biomes::LAKE | Biomes::WARPED_LAKE | Biomes::CHAOTIC_LAKE => [45, 130, 220],
        Biomes::DEEP_LAKE | Biomes::WARPED_DEEP_LAKE | Biomes::CHAOTIC_DEEP_LAKE => [20, 70, 160],
        Biomes::FROZEN_LAKE | Biomes::WARPED_FROZEN_LAKE | Biomes::CHAOTIC_FROZEN_LAKE => [200, 235, 250],
        Biomes::FROZEN_DEEP_LAKE | Biomes::WARPED_FROZEN_DEEP_LAKE | Biomes::CHAOTIC_FROZEN_DEEP_LAKE => [140, 200, 235],
        Biomes::GREAT_LAKE | Biomes::WARPED_GREAT_LAKE | Biomes::CHAOTIC_GREAT_LAKE => [30, 115, 205],
        Biomes::DEEP_GREAT_LAKE | Biomes::WARPED_DEEP_GREAT_LAKE | Biomes::CHAOTIC_DEEP_GREAT_LAKE => [15, 55, 140],
        Biomes::FROZEN_GREAT_LAKE | Biomes::WARPED_FROZEN_GREAT_LAKE | Biomes::CHAOTIC_FROZEN_GREAT_LAKE => [185, 230, 245],
        Biomes::FROZEN_DEEP_GREAT_LAKE | Biomes::WARPED_FROZEN_DEEP_GREAT_LAKE | Biomes::CHAOTIC_FROZEN_DEEP_GREAT_LAKE => [120, 185, 225],
        Biomes::BADLANDS | Biomes::WARPED_BADLANDS | Biomes::CHAOTIC_BADLANDS => [220, 95, 45],
        Biomes::FORREST | Biomes::WARPED_FORREST | Biomes::CHAOTIC_FORREST => [35, 140, 50],
        Biomes::SPARCE_FORREST | Biomes::WARPED_SPARCE_FORREST | Biomes::CHAOTIC_SPARCE_FORREST => [120, 185, 75],
        Biomes::DEEP_FORREST | Biomes::WARPED_DEEP_FORREST | Biomes::CHAOTIC_DEEP_FORREST => [15, 80, 30],
        Biomes::RAINFORREST | Biomes::WARPED_RAINFORREST | Biomes::CHAOTIC_RAINFORREST => [10, 160, 70],
        Biomes::SWAMPY_RAINFORREST | Biomes::WARPED_SWAMPY_RAINFORREST | Biomes::CHAOTIC_SWAMPY_RAINFORREST => [55, 135, 60],
        Biomes::SWAMPY_FORREST | Biomes::WARPED_SWAMPY_FORREST | Biomes::CHAOTIC_SWAMPY_FORREST => [75, 125, 45],
        Biomes::BOG | Biomes::WARPED_BOG | Biomes::CHAOTIC_BOG => [110, 105, 35],
        Biomes::MARSH | Biomes::WARPED_MARSH | Biomes::CHAOTIC_MARSH => [140, 175, 70],
        Biomes::SWAMP | Biomes::WARPED_SWAMP | Biomes::CHAOTIC_SWAMP => [90, 115, 40],
        Biomes::ICE_TAIGA | Biomes::WARPED_ICE_TAIGA | Biomes::CHAOTIC_ICE_TAIGA => [115, 185, 180],
        Biomes::SNOWY_TUNDRA | Biomes::WARPED_SNOWY_TUNDRA | Biomes::CHAOTIC_SNOWY_TUNDRA => [225, 240, 250],
        Biomes::BOREAL_FORREST | Biomes::WARPED_BOREAL_FORREST | Biomes::CHAOTIC_BOREAL_FORREST => [30, 100, 80],
        Biomes::ROCKY_FIELDS | Biomes::WARPED_ROCKY_FIELDS | Biomes::CHAOTIC_ROCKY_FIELDS => [185, 135, 80],
        Biomes::SANDY_COAST | Biomes::WARPED_SANDY_COAST | Biomes::CHAOTIC_SANDY_COAST => [245, 225, 140],
        Biomes::ROCKY_COAST | Biomes::WARPED_ROCKY_COAST | Biomes::CHAOTIC_ROCKY_COAST => [160, 110, 70],
        Biomes::MACROTIDAL_SHINGLE_BEACH | Biomes::WARPED_MACROTIDAL_SHINGLE_BEACH | Biomes::CHAOTIC_MACROTIDAL_SHINGLE_BEACH => [180, 150, 100],
        Biomes::SCORCHED_BEACH | Biomes::WARPED_SCORCHED_BEACH | Biomes::CHAOTIC_SCORCHED_BEACH => [235, 115, 45],
    }
}

/// The variants of one base biome share its colour.
pub proof fn lemma_variants_share_color(a: Biomes, b: Biomes)
    requires
        family_of(a) == family_of(b),
    ensures
        biome_rgb(a) == biome_rgb(b),
{
}

/// `dark` is shown as the darker of the pair: deeper water than `light`,
/// open water beside frozen water of the same kind, or denser forest.
pub open spec fn darker_pair(dark: BiomeFamily, light: BiomeFamily) -> bool {
    ||| crate::assign_biome::deeper_water(dark, light)
    ||| dark == BiomeFamily::Lake && light == BiomeFamily::FrozenLake
    ||| dark == BiomeFamily::DeepLake && light == BiomeFamily::FrozenDeepLake
    ||| dark == BiomeFamily::GreatLake && light == BiomeFamily::FrozenGreatLake
    ||| dark == BiomeFamily::DeepGreatLake && light == BiomeFamily::FrozenDeepGreatLake
    ||| dark == BiomeFamily::DeepForrest && light == BiomeFamily::Forrest
    ||| dark == BiomeFamily::Forrest && light == BiomeFamily::SparceForrest
}

/// The palette shades by depth and density: deeper water is darker than
/// shallower water of the same kind, open water darker than frozen water,
/// denser forest darker than sparser forest, in every colour channel and for
/// every variant.
pub proof fn lemma_deeper_is_darker(dark: Biomes, light: Biomes)
    requires
        darker_pair(family_of(dark), family_of(light)),
    ensures
        biome_rgb(dark).0 < biome_rgb(light).0,
        biome_rgb(dark).1 < biome_rgb(light).1,
        biome_rgb(dark).2 < biome_rgb(light).2,
{
}

/// Legend name of a base biome.
pub open spec fn legend_name(f: BiomeFamily) -> Seq<char> {
    match f {
        BiomeFamily::Grasslands => "Grasslands"@,
        BiomeFamily::Desert => "Desert"@,
        BiomeFamily::Ashlands => "Ashlands"@,
        BiomeFamily::Savannah => "Savannah"@,
        BiomeFamily::SteepMountain => "Steep Mountain"@,
        BiomeFamily::MountainPeak => "Mountain Peak"@,
        BiomeFamily::Ocean => "Ocean"@,
        BiomeFamily::DeepOcean => "Deep Ocean"@,
        BiomeFamily::ShallowOcean => "Shallow Ocean"@,
        BiomeFamily::Pond => "Pond"@,
        BiomeFamily::WetSinkhole => "Wet Sinkhole"@,
        BiomeFamily::Lagoon => "Lagoon"@,
        BiomeFamily::GreatLagoon => "Great Lagoon"@,
        BiomeFamily::Lake => "Lake"@,
        BiomeFamily::DeepLake => "Deep Lake"@,
        BiomeFamily::FrozenLake => "Frozen Lake"@,
        BiomeFamily::FrozenDeepLake => "Frozen Deep Lake"@,
        BiomeFamily::GreatLake => "Great Lake"@,
        BiomeFamily::DeepGreatLake => "Deep Great Lake"@,
        BiomeFamily::FrozenGreatLake => "Frozen Great Lake"@,
        BiomeFamily::FrozenDeepGreatLake => "Frozen Deep Great Lake"@,
        BiomeFamily::Badlands => "Badlands"@,
        BiomeFamily::Forrest => "Forest"@,
        BiomeFamily::SparceForrest => "Sparse Forest"@,
        BiomeFamily::DeepForrest => "Deep Forest"@,
        BiomeFamily::Rainforrest => "Rainforest"@,
        BiomeFamily::SwampyRainforrest => "Swampy Rainforest"@,
        BiomeFamily::SwampyForrest => "Swampy Forest"@,
        BiomeFamily::Bog => "Bog"@,
        BiomeFamily::Marsh => "Marsh"@,
        BiomeFamily::Swamp => "Swamp"@,
        BiomeFamily::IceTaiga => "Ice Taiga"@,
        BiomeFamily::SnowyTundra => "Snowy Tundra"@,
        BiomeFamily::BorealForrest => "Boreal Forest"@,
        BiomeFamily::RockyFields => "Rocky Fields"@,
        BiomeFamily::SandyCoast => "Sandy Coast"@,
        BiomeFamily::RockyCoast => "Rocky Coast"@,
        BiomeFamily::MacrotidalShingleBeach => "Macrotidal Shingle"@,
        BiomeFamily::ScorchedBeach => "Scorched Beach"@,
    }
}

/// The legend: every base biome, in declaration order, with its display name.
pub fn biome_legend() -> (r: Vec<(&'static str, Biomes)>)
    ensures
        r.len() == crate::assign_biome::FAMILY_COUNT,
        forall|i: int|
            0 <= i < r.len() ==> (#[trigger] r[i]).1 == biome_of(family_at(i), BiomeVariant::Normal)
                && r[i].0@ == legend_name(family_at(i)),
{
    let r = vec![
        ("Grasslands", Biomes::GRASSLANDS),
        ("Desert", Biomes::DESERT),
        ("Ashlands", Biomes::ASHLANDS),
        ("Savannah", Biomes::SAVANNAH),
        ("Steep Mountain", Biomes::STEEP_MOUNTAIN),
        ("Mountain Peak", Biomes::MOUNTAIN_PEAK),
        ("Ocean", Biomes::OCEAN),
        ("Deep Ocean", Biomes::DEEP_OCEAN),
        ("Shallow Ocean", Biomes::SHALLOW_OCEAN),
        ("Pond", Biomes::POND),
        ("Wet Sinkhole", Biomes::WET_SINKHOLE),
        ("Lagoon", Biomes::LAGOON),
        ("Great Lagoon", Biomes::GREAT_LAGOON),
        ("Lake", Biomes::LAKE),
        ("Deep Lake", Biomes::DEEP_LAKE),
        ("Frozen Lake", Biomes::FROZEN_LAKE),
        ("Frozen Deep Lake", Biomes::FROZEN_DEEP_LAKE),
        ("Great Lake", Biomes::GREAT_LAKE),
        ("Deep Great Lake", Biomes::DEEP_GREAT_LAKE),
        ("Frozen Great Lake", Biomes::FROZEN_GREAT_LAKE),
        ("Frozen Deep Great Lake", Biomes::FROZEN_DEEP_GREAT_LAKE),
        ("Badlands", Biomes::BADLANDS),
        ("Forest", Biomes::FORREST),
        ("Sparse Forest", Biomes::SPARCE_FORREST),
        ("Deep Forest", Biomes::DEEP_FORREST),
        ("Rainforest", Biomes::RAINFORREST),
        ("Swampy Rainforest", Biomes::SWAMPY_RAINFORREST),
        ("Swampy Forest", Biomes::SWAMPY_FORREST),
        ("Bog", Biomes::BOG),
        ("Marsh", Biomes::MARSH),
        ("Swamp", Biomes::SWAMP),
        ("Ice Taiga", Biomes::ICE_TAIGA),
        ("Snowy Tundra", Biomes::SNOWY_TUNDRA),
        ("Boreal Forest", Biomes::BOREAL_FORREST),
        ("Rocky Fields", Biomes::ROCKY_FIELDS),
        ("Sandy Coast", Biomes::SANDY_COAST),
        ("Rocky Coast", Biomes::ROCKY_COAST),
        ("Macrotidal Shingle", Biomes::MACROTIDAL_SHINGLE_BEACH),
        ("Scorched Beach", Biomes::SCORCHED_BEACH),
    ];
    r
}

/// Number of columns of the on-screen legend.
pub const LEGEND_COLUMNS: usize = 2;

/// Rows of a legend of `count` entries laid out in two columns.
pub open spec fn legend_rows(count: int) -> int {
    (count + 1) / 2
}

/// The `(column, row)` of entry `i` of a legend of `count` entries: the
/// entries fill the first column top to bottom, then the second.
pub fn legend_slot(i: usize, count: usize) -> (r: (usize, usize))
    requires
        i < count,
    ensures
        r.0 == i as int / legend_rows(count as int),
        r.1 == i as int % legend_rows(count as int),
        r.0 < LEGEND_COLUMNS,
        r.1 < legend_rows(count as int),
{
    let rows: usize = count / 2 + count % 2;
    assert(rows == legend_rows(count as int));
    let col = i / rows;
    assert(col < 2) by {
        let q = i as int / rows as int;
        let m = i as int % rows as int;
        vstd::arithmetic::div_mod::lemma_fundamental_div_mod(i as int, rows as int);
        assert(q < 2) by (nonlinear_arith)
            requires
                i as int == rows * q + m,
                0 <= m,
                i < 2 * rows,
                rows > 0,
        ;
    }
    (col, i % rows)
}

/// Distinct legend entries get distinct slots.
pub proof fn lemma_legend_slots_distinct(i: int, j: int, count: int)
    requires
        0 <= i < count,
        0 <= j < count,
        i != j,
    ensures
        i / legend_rows(count) != j / legend_rows(count) || i % legend_rows(count) != j % legend_rows(count),
{
    let rows = legend_rows(count);
    vstd::arithmetic::div_mod::lemma_fundamental_div_mod(i, rows);
    vstd::arithmetic::div_mod::lemma_fundamental_div_mod(j, rows);
}

/// Number of samples kept when every `step`-th of `grid_len` cells is taken
/// (a `step` of 0 counts as 1).
pub open spec fn downsampled_len(grid_len: int, step: int) -> int {
    (grid_len - 1) / (if step < 1 { 1 } else { step }) + 1
}

/// Number of cells of a downsampled axis: `(grid_len - 1) / step + 1`.
pub fn downsample_dims(grid_len: usize, step: usize) -> (r: usize)
    requires
        grid_len >= 1,
    ensures
        r == downsampled_len(grid_len as int, step as int),
        1 <= r <= grid_len,
{
    let step = if step < 1 {
        1
    } else {
        step
    };
    assert((grid_len - 1) / (step as int) <= grid_len - 1) by (nonlinear_arith)
        requires
            grid_len >= 1,
            step >= 1,
    ;
    (grid_len - 1) / step + 1
}

/// The source cell of texel `t` of a downsampled axis of `len` cells.
pub open spec fn source_cell(t: int, step: int, len: int) -> int {
    let s = t * (if step < 1 { 1 } else { step });
    if s < len - 1 {
        s
    } else {
        len - 1
    }
}

/// A grid with at least one row whose rows all have at least as many cells
/// as the first one.
pub open spec fn grid_shape_ok(map: Seq<Vec<Biomes>>) -> bool {
    &&& map.len() >= 1
    &&& map[0].len() >= 1
    &&& forall|y: int| 0 <= y < map.len() ==> (#[trigger] map[y]).len() >= map[0].len()
}

/// The biome texture: `mesh_w * mesh_h` RGB texels, row by row, each the
/// colour of its downsampled source cell.
pub open spec fn biome_texels(map: Seq<Vec<Biomes>>, step: int) -> Seq<u8> {
    let h = map.len() as int;
    let w = map[0].len() as int;
    let mw = downsampled_len(w, step);
    let mh = downsampled_len(h, step);
    Seq::new(
        (mw * mh * 3) as nat,
        |k: int|
            {
                let texel = k / 3;
                let c = biome_rgb(map[source_cell(texel / mw, step, h)][source_cell(texel % mw, step, w)]);
                if k % 3 == 0 {
                    c.0
                } else if k % 3 == 1 {
                    c.1
                } else {
                    c.2
                }
            },
    )
}

/// The downsampled biome texture of `biome_map`: its width, its height and
/// its RGB bytes.
pub fn biome_colormap_texels(biome_map: &Vec<Vec<Biomes>>, step: usize) -> (r: (usize, usize, Vec<u8>))
    requires
        grid_shape_ok(biome_map@),
        downsampled_len(biome_map[0].len() as int, step as int) * downsampled_len(
            biome_map.len() as int,
            step as int,
        ) * 3 <= usize::MAX,
    ensures
        r.0 == downsampled_len(biome_map[0].len() as int, step as int),
        r.1 == downsampled_len(biome_map.len() as int, step as int),
        r.2@ == biome_texels(biome_map@, step as int),
{
    let step = if step < 1 {
        1
    } else {
        step
    };
    let h = biome_map.len();
    let w = biome_map[0].len();
    let mesh_h = downsample_dims(h, step);
    let mesh_w = downsample_dims(w, step);
    let ghost texels = biome_texels(biome_map@, step as int);
    let mut pixels: Vec<u8> = Vec::new();
    let mut yi: usize = 0;
    while yi < mesh_h
        invariant
            step >= 1,
            h == biome_map.len(),
            w == biome_map[0].len(),
            grid_shape_ok(biome_map@),
            mesh_h == downsampled_len(h as int, step as int),
            mesh_w == downsampled_len(w as int, step as int),
            mesh_w * mesh_h * 3 <= usize::MAX,
            texels == biome_texels(biome_map@, step as int),
            yi <= mesh_h,
            pixels@ == texels.take(yi * mesh_w * 3),
        decreases mesh_h - yi,
    {
        assert(yi * step <= h - 1) by (nonlinear_arith)
            requires
                yi < mesh_h,
                mesh_h == (h - 1) / (step as int) + 1,
                step >= 1,
                h >= 1,
        ;
        let sy = if yi * step < h - 1 {
            yi * step
        } else {
            h - 1
        };
        let mut xi: usize = 0;
        while xi < mesh_w
            invariant
                step >= 1,
                h == biome_map.len(),
                w == biome_map[0].len(),
                grid_shape_ok(biome_map@),
                mesh_h == downsampled_len(h as int, step as int),
                mesh_w == downsampled_len(w as int, step as int),
                mesh_w * mesh_h * 3 <= usize::MAX,
                texels == biome_texels(biome_map@, step as int),
                yi < mesh_h,
                sy == source_cell(yi as int, step as int, h as int),
                xi <= mesh_w,
                pixels@ == texels.take((yi * mesh_w + xi) * 3),
            decreases mesh_w - xi,
        {
            assert(xi * step <= w - 1) by (nonlinear_arith)
                requires
                    xi < mesh_w,
                    mesh_w == (w - 1) / (step as int) + 1,
                    step >= 1,
                    w >= 1,
            ;
            let sx = if xi * step < w - 1 {
                xi * step
            } else {
                w - 1
            };
            let c = biome_color(biome_map[sy][sx]);
            proof {
                let t = yi * mesh_w + xi;
                assert(t < mesh_w * mesh_h && (t + 1) * 3 <= mesh_w * mesh_h * 3) by (nonlinear_arith)
                    requires
                        t == yi * mesh_w + xi,
                        xi < mesh_w,
                        yi < mesh_h,
                ;
                assert(t / (mesh_w as int) == yi && t % (mesh_w as int) == xi) by (nonlinear_arith)
                    requires
                        t == yi * mesh_w + xi,
                        xi < mesh_w,
                ;
                assert((3 * t) / 3 == t && (3 * t + 1) / 3 == t && (3 * t + 2) / 3 == t);
                assert((3 * t) % 3 == 0 && (3 * t + 1) % 3 == 1 && (3 * t + 2) % 3 == 2);
            }
            pixels.push(c[0]);
            pixels.push(c[1]);
            pixels.push(c[2]);
            proof {
                let t = yi * mesh_w + xi;
                assert(pixels@ =~= texels.take((t + 1) * 3));
            }
            xi = xi + 1;
        }
        proof {
            assert((yi * mesh_w + mesh_w) * 3 == (yi + 1) * mesh_w * 3) by (nonlinear_arith);
        }
        yi = yi + 1;
    }
    proof {
        assert(mesh_h * mesh_w * 3 == mesh_w * mesh_h * 3) by (nonlinear_arith);
        assert(pixels@ =~= texels);
    }
    (mesh_w, mesh_h, pixels)
}

/// The PNG file that image's encoder writes for an 8-bit RGB image.
pub uninterp spec fn png_rgb8_encoding(width: u32, height: u32, texels: Seq<u8>) -> Seq<u8>;

/// image's `PngEncoder::write_image` with `ExtendedColorType::Rgb8` (default
/// compression and filter), writing into a byte vector.  The contract claims
/// that on success the bytes are `png_rgb8_encoding` of the arguments, and
/// that the call succeeds whenever width and height are both at least 1:
/// with the buffer length matching, the encoder (png's `Writer::init` and
/// `write_image_data`) refuses only a zero width or height, and writing into
/// a byte vector does not fail.
#[verifier::external_body]
fn encode_rgb8_png(width: u32, height: u32, texels: &Vec<u8>) -> (r: Option<Vec<u8>>)
    requires
        texels.len() == width * height * 3,
    ensures
        match r {
            Some(bytes) => bytes@ == png_rgb8_encoding(width, height, texels@),
            None => true,
        },
        width >= 1 && height >= 1 ==> r is Some,
{
    let mut png: Vec<u8> = Vec::new();
    let encoder = image::codecs::png::PngEncoder::new(&mut png);
    match encoder.write_image(texels, width, height, image::ExtendedColorType::Rgb8) {
        Ok(()) => Some(png),
        Err(_) => None,
    }
}

/// The biome texture of `biome_map` as PNG bytes (always produced: the
/// texture is never empty).
pub fn biome_colormap_png(biome_map: &Vec<Vec<Biomes>>, step: usize) -> (r: Option<Vec<u8>>)
    requires
        grid_shape_ok(biome_map@),
        downsampled_len(biome_map[0].len() as int, step as int) <= u32::MAX,
        downsampled_len(biome_map.len() as int, step as int) <= u32::MAX,
        downsampled_len(biome_map[0].len() as int, step as int) * downsampled_len(
            biome_map.len() as int,
            step as int,
        ) * 3 <= usize::MAX,
    ensures
        match r {
            Some(bytes) => bytes@ == png_rgb8_encoding(
                downsampled_len(biome_map[0].len() as int, step as int) as u32,
                downsampled_len(biome_map.len() as int, step as int) as u32,
                biome_texels(biome_map@, step as int),
            ),
            None => true,
        },
        r is Some,
{
    let (mesh_w, mesh_h, texels) = biome_colormap_texels(biome_map, step);
    encode_rgb8_png(mesh_w as u32, mesh_h as u32, &texels)
}

/// A key the terrain viewer reacts to.
#[derive(Clone, Copy, Debug, PartialEq, Eq, Structural)]
pub enum ViewerKey {
    /// Switch the geometry.
    G,
    /// Height colouring.
    C,
    /// Biome colouring.
    B,
    /// Warped-influence colouring.
    W,
    /// Chaotic-influence colouring.
    K,
    /// Show or hide the legend.
    L,
}

/// What the terrain viewer shows.
#[derive(Clone, Copy, Debug, PartialEq, Eq, Structural)]
pub struct TerrainViewState {
    pub render_mode: TerrainRenderMode,
    pub color_mode: TerrainColorMode,
    pub show_legend: bool,
}

/// The state after a press of `key`, and whether the colouring was chosen
/// (the textures are then applied again, even when it did not change).
pub open spec fn key_transition(st: TerrainViewState, key: ViewerKey) -> (TerrainViewState, bool) {
    match key {
        ViewerKey::G => (TerrainViewState { render_mode: toggled(st.render_mode), ..st }, false),
        ViewerKey::C => (TerrainViewState { color_mode: TerrainColorMode::Height, ..st }, true),
        ViewerKey::B => (TerrainViewState { color_mode: TerrainColorMode::Biome, ..st }, true),
        ViewerKey::W => (TerrainViewState { color_mode: TerrainColorMode::WarpedInfluence, ..st }, true),
        ViewerKey::K => (TerrainViewState { color_mode: TerrainColorMode::ChaoticInfluence, ..st }, true),
        ViewerKey::L => (TerrainViewState { show_legend: !st.show_legend, ..st }, false),
    }
}

impl TerrainViewState {
    /// The state the viewer opens with: the configured modes and the legend shown.
    pub fn new(render_mode: TerrainRenderMode, color_mode: TerrainColorMode) -> (r: Self)
        ensures
            r == (TerrainViewState { render_mode, color_mode, show_legend: true }),
    {
        TerrainViewState { render_mode, color_mode, show_legend: true }
    }

    /// Reacts to a press of `key`.
    pub fn on_key(self, key: ViewerKey) -> (r: (Self, bool))
        ensures
            r == key_transition(self, key),
    {
        match key {
            ViewerKey::G => (TerrainViewState { render_mode: self.render_mode.toggle(), ..self }, false),
            ViewerKey::C => (TerrainViewState { color_mode: TerrainColorMode::Height, ..self }, true),
            ViewerKey::B => (TerrainViewState { color_mode: TerrainColorMode::Biome, ..self }, true),
            ViewerKey::W => (
                TerrainViewState { color_mode: TerrainColorMode::WarpedInfluence, ..self },
                true,
            ),
            ViewerKey::K => (
                TerrainViewState { color_mode: TerrainColorMode::ChaoticInfluence, ..self },
                true,
            ),
            ViewerKey::L => (TerrainViewState { show_legend: !self.show_legend, ..self }, false),
        }
    }

    /// Whether the smooth mesh is drawn.
    pub fn smooth_visible(self) -> (r: bool)
        ensures
            r == (self.render_mode == TerrainRenderMode::Smooth),
    {
        self.render_mode == TerrainRenderMode::Smooth
    }

    /// Whether the column-grid mesh is drawn.
    pub fn grid_visible(self) -> (r: bool)
        ensures
            r == (self.render_mode == TerrainRenderMode::TrueGrid),
    {
        self.render_mode == TerrainRenderMode::TrueGrid
    }

    /// Whether the water plane is drawn.
    pub fn water_visible(self) -> (r: bool)
        ensures
            r == (self.render_mode == TerrainRenderMode::Smooth && self.color_mode
                == TerrainColorMode::Height),
    {
        water_plane_visible(self.render_mode, self.color_mode)
    }
}

/// Exactly one of the two meshes is drawn in every state.
pub proof fn lemma_one_mesh_visible(st: TerrainViewState)
    ensures
        (st.render_mode == TerrainRenderMode::Smooth) != (st.render_mode == TerrainRenderMode::TrueGrid),
{
}

/// Each key changes one thing: `G` only the geometry, the colour keys only
/// the colouring, `L` only whether the legend is shown.
pub proof fn lemma_keys_independent(st: TerrainViewState, key: ViewerKey)
    ensures
        key == ViewerKey::G ==> key_transition(st, key).0.color_mode == st.color_mode
            && key_transition(st, key).0.show_legend == st.show_legend
            && key_transition(st, key).0.render_mode != st.render_mode,
        key == ViewerKey::L ==> key_transition(st, key).0.color_mode == st.color_mode
            && key_transition(st, key).0.render_mode == st.render_mode
            && key_transition(st, key).0.show_legend != st.show_legend,
        (key != ViewerKey::G && key != ViewerKey::L) ==> key_transition(st, key).0.render_mode == st.render_mode
            && key_transition(st, key).0.show_legend == st.show_legend && key_transition(st, key).1,
{
}

/// Pressing `G` twice, or `L` twice, gives the state back; the colour keys
/// set the colouring whatever it was, so pressing one twice is pressing it once.
pub proof fn lemma_keys_undo(st: TerrainViewState, key: ViewerKey)
    ensures
        (key == ViewerKey::G || key == ViewerKey::L) ==> key_transition(key_transition(st, key).0, key).0 == st,
        (key != ViewerKey::G && key != ViewerKey::L) ==> key_transition(key_transition(st, key).0, key).0
            == key_transition(st, key).0,
{
}

} // verus!
