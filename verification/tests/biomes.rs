use fallen_leaves_world::assign_biome::{
    assign_biome, basic_biome_params, biome_eval_order, biome_matches, biome_rule_applies, cell_hash, pick_biome,
    BiomeFamily, BiomeParamPresetVals, BiomeParamPresets, BiomeVariant, Biomes, CellSample, Interval, DETERMINISTIC,
    UNBOUNDED_HI,
};

fn sample(v: [i64; 9]) -> CellSample {
    CellSample {
        height_diff: v[0],
        height_pct: v[1],
        moisture_pct: v[2],
        rainfall_pct: v[3],
        temp: v[4],
        magic_pct: v[5],
        chaos_pct: v[6],
        water_body_size: v[7],
        nearest_ocean_dist: v[8],
    }
}

#[test]
fn basic_preset_has_a_rule_for_every_biome() {
    let presets = BiomeParamPresets::new(&BiomeParamPresetVals::Basic);
    let map = presets.biome_params();
    assert_eq!(map.len(), 117);
    for b in biome_eval_order() {
        assert_eq!(map.get(&b), Some(&basic_biome_params(b)));
    }
}

#[test]
fn grasslands_rule() {
    let p = basic_biome_params(Biomes::GRASSLANDS);
    assert_eq!(p.weight, 90);
    assert_eq!(p.height_diff, Interval { lo: 0, hi: 59 });
    assert_eq!(p.height_pct, Interval { lo: 0, hi: 84 });
    assert_eq!(p.moisture_pct, Interval { lo: 25, hi: 40 });
    assert_eq!(p.rainfall_pct, Interval { lo: 0, hi: 24 });
    assert_eq!(p.temp, Interval { lo: 1, hi: 30 });
    assert_eq!(p.magic_pct, Interval { lo: 0, hi: 100 });
    assert_eq!(p.chaos_pct, Interval { lo: 0, hi: 15 });
    assert_eq!(p.water_body_size, Interval { lo: 0, hi: 0 });
    assert_eq!(p.ocean_dist, Interval { lo: 6, hi: UNBOUNDED_HI });
}

#[test]
fn variants_differ_only_in_magic_and_chaos() {
    let n = basic_biome_params(Biomes::DESERT);
    let w = basic_biome_params(Biomes::WARPED_DESERT);
    let c = basic_biome_params(Biomes::CHAOTIC_DESERT);
    assert_eq!(n.weight, DETERMINISTIC);
    assert_eq!(w.magic_pct, Interval { lo: 16, hi: 100 });
    assert_eq!(w.chaos_pct, Interval { lo: 16, hi: 100 });
    assert_eq!(c.magic_pct, Interval { lo: 0, hi: 15 });
    assert_eq!(c.chaos_pct, Interval { lo: 16, hi: 100 });
    assert_eq!(n.temp, w.temp);
    assert_eq!(n.temp, c.temp);
    assert_eq!(n.ocean_dist, c.ocean_dist);
}

#[test]
fn deep_lake_rule_has_negative_height() {
    let p = basic_biome_params(Biomes::FROZEN_DEEP_LAKE);
    assert_eq!(p.height_pct, Interval { lo: -100, hi: -21 });
    assert_eq!(p.temp.hi, -1);
    assert_eq!(p.temp.lo, i64::MIN);
}

#[test]
fn eval_order_is_declaration_order() {
    let order = biome_eval_order();
    assert_eq!(order.len(), 117);
    assert_eq!(order[0], Biomes::GRASSLANDS);
    assert_eq!(order[1], Biomes::WARPED_GRASSLANDS);
    assert_eq!(order[2], Biomes::CHAOTIC_GRASSLANDS);
    assert_eq!(order[116], Biomes::CHAOTIC_SCORCHED_BEACH);
    for i in 0..order.len() {
        for j in (i + 1)..order.len() {
            assert_ne!(order[i], order[j]);
        }
    }
}

#[test]
fn family_and_variant() {
    assert_eq!(Biomes::WARPED_SWAMP.family(), BiomeFamily::Swamp);
    assert_eq!(Biomes::WARPED_SWAMP.variant(), BiomeVariant::Warped);
    assert_eq!(Biomes::CHAOTIC_BOG.variant(), BiomeVariant::Chaotic);
    assert_eq!(Biomes::LAKE.variant(), BiomeVariant::Normal);
    assert_eq!(BiomeFamily::Lagoon.biome(BiomeVariant::Chaotic), Biomes::CHAOTIC_LAGOON);
}

#[test]
fn cell_hash_values() {
    assert_eq!(cell_hash(0, 0), 0);
    assert_eq!(cell_hash(1, 2), 103314787);
    assert_eq!(cell_hash(7, 3), 497381206);
}

#[test]
fn deterministic_rules_win() {
    let presets = BiomeParamPresets::new(&BiomeParamPresetVals::Basic);
    let map = presets.biome_params();
    let desert = sample([10, 50, 10, 50, 30, 5, 5, 0, 10]);
    assert!(biome_rule_applies(map, &desert));
    assert_eq!(pick_biome(map, 0, 0, &desert, 0), Biomes::DESERT);
    assert_eq!(pick_biome(map, 0, 0, &desert, 118699392), Biomes::DESERT);
    let deep = sample([10, -50, 50, 50, 10, 5, 5, 1000, 0]);
    assert_eq!(pick_biome(map, 0, 0, &deep, 5), Biomes::DEEP_OCEAN);
    let steep = sample([70, 30, 50, 50, 10, 5, 5, 0, 10]);
    assert_eq!(pick_biome(map, 0, 0, &steep, 5), Biomes::STEEP_MOUNTAIN);
    let coast = sample([0, 10, 50, 50, 10, 5, 5, 0, 2]);
    assert_eq!(pick_biome(map, 0, 0, &coast, 5), Biomes::SANDY_COAST);
}

#[test]
fn weighted_choice_follows_the_roll() {
    let presets = BiomeParamPresets::new(&BiomeParamPresetVals::Basic);
    let map = presets.biome_params();
    // grasslands (90), sparse forest (3) and rocky fields (7) match: total 100
    let s = sample([10, 30, 30, 10, 10, 5, 5, 0, 10]);
    assert_eq!(pick_biome(map, 0, 0, &s, 0), Biomes::GRASSLANDS);
    assert_eq!(pick_biome(map, 0, 0, &s, 89), Biomes::GRASSLANDS);
    assert_eq!(pick_biome(map, 0, 0, &s, 90), Biomes::SPARCE_FORREST);
    assert_eq!(pick_biome(map, 1, 3, &s, cell_hash(1, 3)), Biomes::SPARCE_FORREST);
    assert_eq!(pick_biome(map, 1, 0, &s, cell_hash(1, 0)), Biomes::ROCKY_FIELDS);
    assert_eq!(pick_biome(map, 0, 0, &s, 199), Biomes::ROCKY_FIELDS);
    let warped = sample([10, 30, 30, 10, 10, 50, 50, 0, 10]);
    assert_eq!(pick_biome(map, 0, 0, &warped, 0), Biomes::WARPED_GRASSLANDS);
}

#[test]
fn no_rule_matches_out_of_range_sample() {
    let presets = BiomeParamPresets::new(&BiomeParamPresetVals::Basic);
    let s = sample([10, 50, 10, 50, 500, 5, 5, 0, 10]);
    assert!(!biome_rule_applies(presets.biome_params(), &s));
}

#[test]
fn matching_checks_every_axis() {
    let p = basic_biome_params(Biomes::DESERT);
    assert!(biome_matches(&p, &sample([10, 50, 10, 50, 30, 5, 5, 0, 10])));
    assert!(!biome_matches(&p, &sample([10, 50, 10, 50, 30, 5, 16, 0, 10])));
    assert!(!biome_matches(&p, &sample([10, 50, 10, 50, 30, 5, 5, 1, 10])));
}

#[test]
fn assign_biome_grid() {
    let desert = sample([10, 50, 10, 50, 30, 5, 5, 0, 10]);
    let grass = sample([10, 30, 30, 10, 10, 5, 5, 0, 10]);
    let samples = vec![vec![desert, grass, grass], vec![grass, grass, desert]];
    let grid = assign_biome(2, 2, &samples, BiomeParamPresetVals::Basic);
    assert_eq!(grid.len(), 2);
    assert_eq!(grid[0], vec![Biomes::DESERT, Biomes::ROCKY_FIELDS]);
    assert_eq!(grid[1], vec![Biomes::GRASSLANDS, Biomes::ROCKY_FIELDS]);
}
