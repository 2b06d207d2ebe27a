use fallen_leaves_world::terrain_renderer::legend_slot;
use fallen_leaves_world::assign_biome::Biomes;
use fallen_leaves_world::globe_renderer::{switch_render_mode, RenderMode};
use fallen_leaves_world::heightmap_view;
use fallen_leaves_world::moisture_map::get_influence_radius;
use fallen_leaves_world::terrain_renderer::{
    biome_color, biome_colormap_png, biome_colormap_texels, biome_legend, downsample_dims, water_plane_visible,
    TerrainColorMode, TerrainRenderMode, TerrainViewState, ViewerKey,
};

#[test]
fn render_mode_toggle_and_labels() {
    assert_eq!(TerrainRenderMode::default(), TerrainRenderMode::Smooth);
    assert_eq!(TerrainRenderMode::Smooth.toggle(), TerrainRenderMode::TrueGrid);
    assert_eq!(TerrainRenderMode::TrueGrid.toggle(), TerrainRenderMode::Smooth);
    assert_eq!(TerrainRenderMode::Smooth.label(), "smooth");
    assert_eq!(TerrainRenderMode::TrueGrid.label(), "true grid");
}

#[test]
fn color_mode_labels_and_textures() {
    assert_eq!(TerrainColorMode::default(), TerrainColorMode::Height);
    assert_eq!(TerrainColorMode::Height.label(), "height");
    assert_eq!(TerrainColorMode::Biome.label(), "biome");
    assert_eq!(TerrainColorMode::WarpedInfluence.label(), "warped");
    assert_eq!(TerrainColorMode::ChaoticInfluence.label(), "chaotic");
    assert_eq!(TerrainColorMode::Height.texture_name(), "terrain_height");
    assert_eq!(TerrainColorMode::Biome.texture_name(), "terrain_biome");
    assert_eq!(TerrainColorMode::WarpedInfluence.texture_name(), "terrain_warped");
    assert_eq!(TerrainColorMode::ChaoticInfluence.texture_name(), "terrain_chaotic");
}

#[test]
fn heightmap_view_mode() {
    assert_eq!(heightmap_view::TerrainRenderMode::default(), heightmap_view::TerrainRenderMode::Smooth);
    assert_eq!(heightmap_view::TerrainRenderMode::Smooth.toggle(), heightmap_view::TerrainRenderMode::TrueGrid);
    assert_eq!(heightmap_view::TerrainRenderMode::TrueGrid.label(), "true grid");
}

#[test]
fn globe_mode_switch() {
    assert_eq!(RenderMode::default(), RenderMode::PureSimplex);
    assert_eq!(switch_render_mode(RenderMode::PureSimplex), RenderMode::HexGlobe);
    assert_eq!(switch_render_mode(RenderMode::HexGlobe), RenderMode::PureSimplex);
}

#[test]
fn water_plane_only_smooth_height() {
    assert!(water_plane_visible(TerrainRenderMode::Smooth, TerrainColorMode::Height));
    assert!(!water_plane_visible(TerrainRenderMode::TrueGrid, TerrainColorMode::Height));
    assert!(!water_plane_visible(TerrainRenderMode::Smooth, TerrainColorMode::Biome));
}

#[test]
fn variants_share_colour() {
    assert_eq!(biome_color(Biomes::DESERT), [235, 200, 70]);
    assert_eq!(biome_color(Biomes::WARPED_DESERT), [235, 200, 70]);
    assert_eq!(biome_color(Biomes::CHAOTIC_DESERT), [235, 200, 70]);
    assert_eq!(biome_color(Biomes::CHAOTIC_SCORCHED_BEACH), [235, 115, 45]);
    assert_eq!(biome_color(Biomes::DEEP_OCEAN), [10, 30, 110]);
}

#[test]
fn legend_lists_base_biomes() {
    let legend = biome_legend();
    assert_eq!(legend.len(), 39);
    assert_eq!(legend[0], ("Grasslands", Biomes::GRASSLANDS));
    assert_eq!(legend[22], ("Forest", Biomes::FORREST));
    assert_eq!(legend[37], ("Macrotidal Shingle", Biomes::MACROTIDAL_SHINGLE_BEACH));
    assert_eq!(legend[38], ("Scorched Beach", Biomes::SCORCHED_BEACH));
}

#[test]
fn downsampled_sizes() {
    assert_eq!(downsample_dims(10, 3), 4);
    assert_eq!(downsample_dims(10, 0), 10);
    assert_eq!(downsample_dims(1, 5), 1);
    assert_eq!(downsample_dims(9, 3), 3);
}

#[test]
fn biome_texture_downsamples() {
    let map = vec![
        vec![Biomes::DESERT, Biomes::OCEAN, Biomes::BOG],
        vec![Biomes::LAKE, Biomes::SWAMP, Biomes::MARSH],
        vec![Biomes::POND, Biomes::BADLANDS, Biomes::WARPED_DESERT],
    ];
    let (w, h, texels) = biome_colormap_texels(&map, 2);
    assert_eq!((w, h), (2, 2));
    let mut expect = Vec::new();
    for b in [Biomes::DESERT, Biomes::BOG, Biomes::POND, Biomes::WARPED_DESERT] {
        expect.extend_from_slice(&biome_color(b));
    }
    assert_eq!(texels, expect);
}

#[test]
fn biome_texture_png() {
    let map = vec![vec![Biomes::DESERT, Biomes::OCEAN], vec![Biomes::LAKE, Biomes::SWAMP]];
    let png = biome_colormap_png(&map, 1).expect("png");
    assert_eq!(&png[0..8], &[137, 80, 78, 71, 13, 10, 26, 10]);
    let other = biome_colormap_png(&vec![vec![Biomes::BOG, Biomes::OCEAN], vec![Biomes::LAKE, Biomes::SWAMP]], 1)
        .expect("png");
    assert_ne!(png, other);
}

#[test]
fn viewer_keys() {
    let st = TerrainViewState::new(TerrainRenderMode::Smooth, TerrainColorMode::Height);
    assert!(st.show_legend);
    assert!(st.smooth_visible() && !st.grid_visible() && st.water_visible());
    let (st, changed) = st.on_key(ViewerKey::G);
    assert!(!changed);
    assert_eq!(st.render_mode, TerrainRenderMode::TrueGrid);
    assert!(!st.smooth_visible() && st.grid_visible() && !st.water_visible());
    let (st, changed) = st.on_key(ViewerKey::B);
    assert!(changed);
    assert_eq!(st.color_mode, TerrainColorMode::Biome);
    let (st, changed) = st.on_key(ViewerKey::B);
    assert!(changed);
    assert_eq!(st.color_mode, TerrainColorMode::Biome);
    let (st, _) = st.on_key(ViewerKey::W);
    assert_eq!(st.color_mode, TerrainColorMode::WarpedInfluence);
    let (st, _) = st.on_key(ViewerKey::K);
    assert_eq!(st.color_mode, TerrainColorMode::ChaoticInfluence);
    let (st, _) = st.on_key(ViewerKey::L);
    assert!(!st.show_legend);
    let (st, _) = st.on_key(ViewerKey::L);
    assert!(st.show_legend);
    let (st, _) = st.on_key(ViewerKey::C);
    let (st, _) = st.on_key(ViewerKey::G);
    assert_eq!(st, TerrainViewState::new(TerrainRenderMode::Smooth, TerrainColorMode::Height));
}

#[test]
fn influence_radius_by_body_size() {
    assert_eq!(get_influence_radius(100, 100, 2000), 100);
    assert_eq!(get_influence_radius(100, 100, 200), 50);
    assert_eq!(get_influence_radius(100, 100, 90), 33);
    assert_eq!(get_influence_radius(100, 100, 40), 25);
    assert_eq!(get_influence_radius(100, 100, 15), 6);
    assert_eq!(get_influence_radius(100, 100, 14), 6);
    assert_eq!(get_influence_radius(100, 100, 13), 3);
    assert_eq!(get_influence_radius(0, 0, 0), 0);
}

#[test]
fn legend_fills_first_column_then_second() {
    assert_eq!(legend_slot(0, 39), (0, 0));
    assert_eq!(legend_slot(19, 39), (0, 19));
    assert_eq!(legend_slot(20, 39), (1, 0));
    assert_eq!(legend_slot(38, 39), (1, 18));
    assert_eq!(legend_slot(3, 4), (1, 1));
}

#[test]
fn legend_slots_are_distinct() {
    let n = biome_legend().len();
    let mut slots: Vec<(usize, usize)> = (0..n).map(|i| legend_slot(i, n)).collect();
    assert!(slots.iter().all(|&(c, _)| c < 2));
    slots.sort();
    slots.dedup();
    assert_eq!(slots.len(), n);
}

#[test]
fn each_key_changes_one_thing() {
    let st = TerrainViewState::new(TerrainRenderMode::TrueGrid, TerrainColorMode::WarpedInfluence);
    let (g, _) = st.on_key(ViewerKey::G);
    assert_eq!((g.color_mode, g.show_legend), (st.color_mode, st.show_legend));
    assert_ne!(g.render_mode, st.render_mode);
    let (l, _) = st.on_key(ViewerKey::L);
    assert_eq!((l.render_mode, l.color_mode), (st.render_mode, st.color_mode));
    assert_ne!(l.show_legend, st.show_legend);
    for key in [ViewerKey::C, ViewerKey::B, ViewerKey::W, ViewerKey::K] {
        let (c, recolor) = st.on_key(key);
        assert!(recolor);
        assert_eq!((c.render_mode, c.show_legend), (st.render_mode, st.show_legend));
    }
}
