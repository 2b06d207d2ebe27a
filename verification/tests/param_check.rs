use fallen_leaves_world::assign_biome::{
    basic_biome_params, biome_eval_order, BiomeParams, BiomeVariant, Biomes, CellSample, Interval, DETERMINISTIC,
    UNBOUNDED_HI,
};
use fallen_leaves_world::verify_biome_params::{
    axis_coverage_gaps, class_candidates, class_contexts, class_domain, coverage_gaps, expected_domain,
    find_coverage_gaps, find_overlaps, fixed_non_climate, hyperrects_overlap, interval_intersection,
    interval_valid, intervals_overlap, invalid_intervals, is_inland_water_biome, is_land_biome, is_ocean_biome,
    joint_coverage_gaps, merge_intervals, BiomeEntry, ClimateBox, ClimatePoint, CoverageClass, CoverageGap,
    GapProbe,
};

fn iv(lo: i64, hi: i64) -> Interval {
    Interval { lo, hi }
}

fn basic_entries() -> Vec<BiomeEntry> {
    biome_eval_order().into_iter().map(|b| BiomeEntry { biome: b, params: basic_biome_params(b) }).collect()
}

fn wide_rule(height_pct: Interval) -> BiomeParams {
    BiomeParams {
        weight: DETERMINISTIC,
        height_diff: iv(0, 100),
        height_pct,
        moisture_pct: iv(0, 100),
        rainfall_pct: iv(0, 100),
        temp: iv(-100, 100),
        magic_pct: iv(0, 100),
        chaos_pct: iv(0, 100),
        water_body_size: iv(0, UNBOUNDED_HI),
        ocean_dist: iv(0, UNBOUNDED_HI),
    }
}

fn small_box(hd: Interval, hp: Interval) -> ClimateBox {
    ClimateBox { height_diff: hd, height_pct: hp, moisture_pct: iv(0, 0), rainfall_pct: iv(0, 0), temp: iv(0, 0) }
}

fn zero_fixed() -> CellSample {
    CellSample {
        height_diff: 0,
        height_pct: 0,
        moisture_pct: 0,
        rainfall_pct: 0,
        temp: 0,
        magic_pct: 0,
        chaos_pct: 0,
        water_body_size: 0,
        nearest_ocean_dist: 0,
    }
}

fn point(hd: i64, hp: i64) -> ClimatePoint {
    ClimatePoint { height_diff: hd, height_pct: hp, moisture_pct: 0, rainfall_pct: 0, temp: 0 }
}

#[test]
fn interval_helpers() {
    assert!(interval_valid(iv(3, 3)));
    assert!(!interval_valid(iv(4, 3)));
    assert!(intervals_overlap(iv(0, 5), iv(5, 9)));
    assert!(!intervals_overlap(iv(0, 4), iv(5, 9)));
    assert_eq!(interval_intersection(iv(0, 5), iv(3, 9)), Some(iv(3, 5)));
    assert_eq!(interval_intersection(iv(0, 2), iv(3, 9)), None);
}

#[test]
fn merge_joins_touching_and_adjacent() {
    assert_eq!(merge_intervals(vec![iv(16, 100), iv(0, 15)]), vec![iv(0, 100)]);
    assert_eq!(merge_intervals(vec![iv(5, 8), iv(0, 3), iv(2, 4)]), vec![iv(0, 8)]);
    assert_eq!(merge_intervals(vec![iv(10, 20), iv(0, 3)]), vec![iv(0, 3), iv(10, 20)]);
    assert_eq!(merge_intervals(vec![iv(0, UNBOUNDED_HI), iv(7, 9)]), vec![iv(0, UNBOUNDED_HI)]);
    assert_eq!(merge_intervals(vec![]), vec![]);
}

#[test]
fn gaps_on_integer_and_real_axes() {
    assert_eq!(coverage_gaps(iv(0, 100), &vec![iv(0, 50), iv(52, 100)], true), vec![iv(50, 52)]);
    assert_eq!(coverage_gaps(iv(0, 100), &vec![iv(0, 50), iv(51, 100)], true), vec![]);
    assert_eq!(coverage_gaps(iv(0, 100), &vec![iv(0, 50), iv(51, 100)], false), vec![iv(50, 51)]);
    assert_eq!(coverage_gaps(iv(0, 100), &vec![iv(1, 100)], true), vec![]);
    assert_eq!(coverage_gaps(iv(0, 100), &vec![iv(1, 100)], false), vec![iv(0, 1)]);
    assert_eq!(coverage_gaps(iv(0, 100), &vec![iv(0, 99)], true), vec![]);
    assert_eq!(coverage_gaps(iv(0, 100), &vec![iv(0, 98)], true), vec![iv(98, 100)]);
    assert_eq!(coverage_gaps(iv(0, 100), &vec![], true), vec![iv(0, 100)]);
    assert_eq!(coverage_gaps(iv(-20, 60), &vec![iv(-50, -30), iv(70, 90)], true), vec![iv(-20, 60)]);
}

#[test]
fn basic_table_is_saturated_on_every_axis() {
    let entries = basic_entries();
    for axis in 0..9 {
        assert!(axis_coverage_gaps(&entries, axis).is_empty());
    }
    assert_eq!(expected_domain(1), iv(-100, 100));
    assert_eq!(expected_domain(8), iv(0, UNBOUNDED_HI));
}

#[test]
fn basic_table_has_no_invalid_intervals() {
    assert!(invalid_intervals(&basic_entries()).is_empty());
}

#[test]
fn invalid_intervals_are_listed_in_order() {
    let mut bad = wide_rule(iv(5, 1));
    bad.temp = iv(3, 2);
    let entries = vec![
        BiomeEntry { biome: Biomes::LAKE, params: wide_rule(iv(0, 1)) },
        BiomeEntry { biome: Biomes::BOG, params: bad },
    ];
    assert_eq!(invalid_intervals(&entries), vec![(1, 1), (1, 4)]);
}

#[test]
fn basic_table_overlaps_are_all_weighted() {
    let pairs = find_overlaps(&basic_entries());
    assert_eq!(pairs.len(), 9);
    assert!(pairs.iter().all(|p| !p.both_deterministic));
}

#[test]
fn overlap_of_two_deterministic_rules_is_unwanted() {
    let entries = vec![
        BiomeEntry { biome: Biomes::LAKE, params: wide_rule(iv(0, 10)) },
        BiomeEntry { biome: Biomes::WARPED_LAKE, params: wide_rule(iv(10, 20)) },
        BiomeEntry { biome: Biomes::BOG, params: wide_rule(iv(21, 30)) },
    ];
    assert!(hyperrects_overlap(&entries[0].params, &entries[1].params));
    assert!(!hyperrects_overlap(&entries[1].params, &entries[2].params));
    let pairs = find_overlaps(&entries);
    assert_eq!(pairs.len(), 1);
    assert_eq!((pairs[0].first, pairs[0].second), (0, 1));
    assert!(pairs[0].both_deterministic);
    assert!(pairs[0].same_family);
}

#[test]
fn classes_by_name() {
    let e = |b| BiomeEntry { biome: b, params: basic_biome_params(b) };
    assert!(is_ocean_biome(&e(Biomes::WARPED_SHALLOW_OCEAN)));
    assert!(is_inland_water_biome(&e(Biomes::WET_SINKHOLE)));
    assert!(is_inland_water_biome(&e(Biomes::CHAOTIC_GREAT_LAGOON)));
    assert!(is_land_biome(&e(Biomes::SANDY_COAST)));
    assert!(!is_land_biome(&e(Biomes::POND)));
    let entries = basic_entries();
    assert_eq!(class_candidates(&entries, CoverageClass::Ocean).len(), 9);
    assert_eq!(class_candidates(&entries, CoverageClass::InlandWater).len(), 36);
    assert_eq!(class_candidates(&entries, CoverageClass::Land).len(), 72);
}

#[test]
fn split_finds_uncovered_piece() {
    let cands = vec![BiomeEntry { biome: Biomes::LAKE, params: wide_rule(iv(0, 1)) }];
    let mut out = Vec::new();
    find_coverage_gaps(&small_box(iv(0, 1), iv(0, 3)), &cands, &zero_fixed(), &mut out, 0, 100);
    assert_eq!(out, vec![CoverageGap { domain: small_box(iv(0, 1), iv(2, 3)), probe: GapProbe::WholeBox }]);
}

#[test]
fn small_box_probes_every_point() {
    let cands = vec![BiomeEntry { biome: Biomes::LAKE, params: wide_rule(iv(2, 100)) }];
    let dom = small_box(iv(0, 1), iv(0, 3));
    let mut out = Vec::new();
    find_coverage_gaps(&dom, &cands, &zero_fixed(), &mut out, 0, 100);
    let expect: Vec<CoverageGap> = [point(0, 0), point(0, 1), point(1, 0), point(1, 1)]
        .iter()
        .map(|&p| CoverageGap { domain: dom, probe: GapProbe::Point(p) })
        .collect();
    assert_eq!(out, expect);
    let mut capped = Vec::new();
    find_coverage_gaps(&dom, &cands, &zero_fixed(), &mut capped, 0, 3);
    assert_eq!(capped, expect[0..3].to_vec());
}

#[test]
fn large_box_probes_its_middle() {
    let dom = small_box(iv(0, 1), iv(0, 99));
    let hit = vec![BiomeEntry { biome: Biomes::LAKE, params: wide_rule(iv(50, 100)) }];
    let mut out = Vec::new();
    find_coverage_gaps(&dom, &hit, &zero_fixed(), &mut out, 0, 100);
    assert!(out.is_empty());
    let miss = vec![BiomeEntry { biome: Biomes::LAKE, params: wide_rule(iv(60, 100)) }];
    find_coverage_gaps(&dom, &miss, &zero_fixed(), &mut out, 0, 100);
    assert_eq!(out, vec![CoverageGap { domain: dom, probe: GapProbe::Midpoint(point(1, 50)) }]);
}

#[test]
fn no_candidate_is_one_whole_gap() {
    let dom = class_domain(CoverageClass::Land);
    let mut out = Vec::new();
    find_coverage_gaps(&dom, &vec![], &zero_fixed(), &mut out, 0, 100);
    assert_eq!(out, vec![CoverageGap { domain: dom, probe: GapProbe::WholeBox }]);
}

#[test]
fn basic_table_joint_coverage_is_saturated() {
    let entries = basic_entries();
    for class in [CoverageClass::Land, CoverageClass::Ocean, CoverageClass::InlandWater] {
        let cands = class_candidates(&entries, class);
        let results = joint_coverage_gaps(&cands, class);
        assert_eq!(results.len(), 3 * class_contexts(class).len());
        assert!(results.iter().all(|g| g.is_empty()));
    }
}

#[test]
fn fixed_samples_of_slices() {
    let f = fixed_non_climate(BiomeVariant::Chaotic, 350, 25);
    assert_eq!((f.magic_pct, f.chaos_pct, f.water_body_size, f.nearest_ocean_dist), (8, 50, 350, 25));
    let f = fixed_non_climate(BiomeVariant::Warped, 0, 2);
    assert_eq!((f.magic_pct, f.chaos_pct), (50, 50));
    assert_eq!(class_contexts(CoverageClass::InlandWater).len(), 5);
}
