//! Consistency checks of a biome rule table: invalid intervals, per-axis
//! coverage gaps, overlapping deterministic rules, and holes in the joint
//! climate coverage found by recursive subdivision.
use vstd::prelude::*;
use crate::assign_biome::{
    Biomes, BiomeFamily, BiomeParams, BiomeVariant, CellSample, Interval, DETERMINISTIC, UNBOUNDED_HI,
    family_of, in_interval, rule_matches, variant_chaos, variant_magic,
};

verus! {

/// One rule of a table with its biome.
#[derive(Clone, Copy, Debug, PartialEq, Eq, Structural)]
pub struct BiomeEntry {
    pub biome: Biomes,
    pub params: BiomeParams,
}

/// The nine intervals of a rule, in axis order: height difference, height,
/// moisture, rainfall, temperature, magic, chaos, water body size, ocean distance.
pub open spec fn intervals_seq(p: BiomeParams) -> Seq<Interval> {
    seq![
        p.height_diff,
        p.height_pct,
        p.moisture_pct,
        p.rainfall_pct,
        p.temp,
        p.magic_pct,
        p.chaos_pct,
        p.water_body_size,
        p.ocean_dist,
    ]
}

/// The nine intervals of a rule, in axis order.
pub fn intervals_of(p: &BiomeParams) -> (r: Vec<Interval>)
    ensures
        r@ == intervals_seq(*p),
{
    vec![
        p.height_diff,
        p.height_pct,
        p.moisture_pct,
        p.rainfall_pct,
        p.temp,
        p.magic_pct,
        p.chaos_pct,
        p.water_body_size,
        p.ocean_dist,
    ]
}

/// Whether a rule wins outright whenever it matches.
pub fn is_deterministic(p: &BiomeParams) -> (r: bool)
    ensures
        r == (p.weight == DETERMINISTIC),
{
    p.weight == DETERMINISTIC
}

/// Open sea base biomes.
pub open spec fn is_ocean_family(f: BiomeFamily) -> bool {
    f == BiomeFamily::Ocean || f == BiomeFamily::DeepOcean || f == BiomeFamily::ShallowOcean
}

/// Lake, pond, lagoon and sinkhole base biomes.
pub open spec fn is_inland_water_family(f: BiomeFamily) -> bool {
    ||| f == BiomeFamily::Pond
    ||| f == BiomeFamily::WetSinkhole
    ||| f == BiomeFamily::Lagoon
    ||| f == BiomeFamily::GreatLagoon
    ||| f == BiomeFamily::Lake
    ||| f == BiomeFamily::DeepLake
    ||| f == BiomeFamily::FrozenLake
    ||| f == BiomeFamily::FrozenDeepLake
    ||| f == BiomeFamily::GreatLake
    ||| f == BiomeFamily::DeepGreatLake
    ||| f == BiomeFamily::FrozenGreatLake
    ||| f == BiomeFamily::FrozenDeepGreatLake
}

/// Whether the entry is an ocean biome (its name holds `OCEAN`).
pub fn is_ocean_biome(e: &BiomeEntry) -> (r: bool)
    ensures
        r == is_ocean_family(family_of(e.biome)),
{
    let f = e.biome.family();
    f == BiomeFamily::Ocean || f == BiomeFamily::DeepOcean || f == BiomeFamily::ShallowOcean
}

/// Whether the entry is an inland water biome (its name holds `LAKE`,
/// `POND`, `LAGOON` or `SINKHOLE`).
pub fn is_inland_water_biome(e: &BiomeEntry) -> (r: bool)
    ensures
        r == is_inland_water_family(family_of(e.biome)),
{
    let f = e.biome.family();
    f == BiomeFamily::Pond || f == BiomeFamily::WetSinkhole || f == BiomeFamily::Lagoon || f
        == BiomeFamily::GreatLagoon || f == BiomeFamily::Lake || f == BiomeFamily::DeepLake || f
        == BiomeFamily::FrozenLake || f == BiomeFamily::FrozenDeepLake || f == BiomeFamily::GreatLake
        || f == BiomeFamily::DeepGreatLake || f == BiomeFamily::FrozenGreatLake || f
        == BiomeFamily::FrozenDeepGreatLake
}

/// Whether the entry is a land biome: neither ocean nor inland water.
pub fn is_land_biome(e: &BiomeEntry) -> (r: bool)
    ensures
        r == (!is_ocean_family(family_of(e.biome)) && !is_inland_water_family(family_of(e.biome))),
{
    !is_ocean_biome(e) && !is_inland_water_biome(e)
}

/// An interval is valid when its bounds are in order.
pub open spec fn valid_interval(iv: Interval) -> bool {
    iv.lo <= iv.hi
}

/// Whether the bounds of an interval are in order.
pub fn interval_valid(iv: Interval) -> (r: bool)
    ensures
        r == valid_interval(iv),
{
    iv.lo <= iv.hi
}

/// Two closed intervals share a value.
pub open spec fn overlap(a: Interval, b: Interval) -> bool {
    a.lo <= b.hi && b.lo <= a.hi
}

/// Whether two closed intervals share a value.
pub fn intervals_overlap(a: Interval, b: Interval) -> (r: bool)
    ensures
        r == overlap(a, b),
{
    a.lo <= b.hi && b.lo <= a.hi
}

/// The larger of two bounds.
pub open spec fn max_i64(a: i64, b: i64) -> i64 {
    if a >= b {
        a
    } else {
        b
    }
}

/// The smaller of two bounds.
pub open spec fn min_i64(a: i64, b: i64) -> i64 {
    if a <= b {
        a
    } else {
        b
    }
}

/// The common part of two intervals, when they have one.
pub fn interval_intersection(a: Interval, b: Interval) -> (r: Option<Interval>)
    ensures
        r == (if max_i64(a.lo, b.lo) <= min_i64(a.hi, b.hi) {
            Some(Interval { lo: max_i64(a.lo, b.lo), hi: min_i64(a.hi, b.hi) })
        } else {
            None::<Interval>
        }),
{
    let lo = if a.lo >= b.lo {
        a.lo
    } else {
        b.lo
    };
    let hi = if a.hi <= b.hi {
        a.hi
    } else {
        b.hi
    };
    if lo <= hi {
        Some(Interval { lo, hi })
    } else {
        None
    }
}

/// The boxes of two rules meet on every axis.
pub open spec fn boxes_overlap(a: BiomeParams, b: BiomeParams) -> bool {
    forall|k: int| 0 <= k < 9 ==> overlap(#[trigger] intervals_seq(a)[k], intervals_seq(b)[k])
}

/// Whether the boxes of two rules meet on every axis.
pub fn hyperrects_overlap(a: &BiomeParams, b: &BiomeParams) -> (r: bool)
    ensures
        r == boxes_overlap(*a, *b),
{
    let ia = intervals_of(a);
    let ib = intervals_of(b);
    let mut k: usize = 0;
    while k < 9
        invariant
            k <= 9,
            ia@ == intervals_seq(*a),
            ib@ == intervals_seq(*b),
            forall|j: int| 0 <= j < k ==> overlap(#[trigger] intervals_seq(*a)[j], intervals_seq(*b)[j]),
        decreases 9 - k,
    {
        if !intervals_overlap(ia[k], ib[k]) {
            return false;
        }
        k = k + 1;
    }
    true
}

/// Whether `v` lies in the interval.
pub fn contains_point(iv: Interval, v: i64) -> (r: bool)
    ensures
        r == in_interval(v, iv),
{
    v >= iv.lo && v <= iv.hi
}

/// The sample of the larger lower bounds of two rules.
pub open spec fn lower_corner(a: BiomeParams, b: BiomeParams) -> CellSample {
    CellSample {
        height_diff: max_i64(a.height_diff.lo, b.height_diff.lo),
        height_pct: max_i64(a.height_pct.lo, b.height_pct.lo),
        moisture_pct: max_i64(a.moisture_pct.lo, b.moisture_pct.lo),
        rainfall_pct: max_i64(a.rainfall_pct.lo, b.rainfall_pct.lo),
        temp: max_i64(a.temp.lo, b.temp.lo),
        magic_pct: max_i64(a.magic_pct.lo, b.magic_pct.lo),
        chaos_pct: max_i64(a.chaos_pct.lo, b.chaos_pct.lo),
        water_body_size: max_i64(a.water_body_size.lo, b.water_body_size.lo),
        nearest_ocean_dist: max_i64(a.ocean_dist.lo, b.ocean_dist.lo),
    }
}

/// Every interval of a rule is valid.
pub open spec fn valid_rule(p: BiomeParams) -> bool {
    forall|k: int| 0 <= k < 9 ==> valid_interval(#[trigger] intervals_seq(p)[k])
}

/// Two rules with valid intervals overlap exactly when some cell sample
/// matches both, so an overlap of two deterministic rules leaves the
/// evaluation order to decide.
pub proof fn lemma_overlap_iff_common_sample(a: BiomeParams, b: BiomeParams)
    requires
        valid_rule(a),
        valid_rule(b),
    ensures
        boxes_overlap(a, b) <==> exists|s: CellSample| rule_matches(a, s) && #[trigger] rule_matches(b, s),
{
    let ia = intervals_seq(a);
    let ib = intervals_seq(b);
    if boxes_overlap(a, b) {
        assert(overlap(ia[0], ib[0]) && overlap(ia[1], ib[1]) && overlap(ia[2], ib[2]));
        assert(overlap(ia[3], ib[3]) && overlap(ia[4], ib[4]) && overlap(ia[5], ib[5]));
        assert(overlap(ia[6], ib[6]) && overlap(ia[7], ib[7]) && overlap(ia[8], ib[8]));
        assert(valid_interval(ia[0]) && valid_interval(ia[1]) && valid_interval(ia[2]));
        assert(valid_interval(ia[3]) && valid_interval(ia[4]) && valid_interval(ia[5]));
        assert(valid_interval(ia[6]) && valid_interval(ia[7]) && valid_interval(ia[8]));
        assert(valid_interval(ib[0]) && valid_interval(ib[1]) && valid_interval(ib[2]));
        assert(valid_interval(ib[3]) && valid_interval(ib[4]) && valid_interval(ib[5]));
        assert(valid_interval(ib[6]) && valid_interval(ib[7]) && valid_interval(ib[8]));
        let s = lower_corner(a, b);
        assert(rule_matches(a, s) && rule_matches(b, s));
    }
    if exists|s: CellSample| rule_matches(a, s) && #[trigger] rule_matches(b, s) {
        let s = choose|s: CellSample| rule_matches(a, s) && #[trigger] rule_matches(b, s);
        assert forall|k: int| 0 <= k < 9 implies overlap(#[trigger] ia[k], ib[k]) by {}
    }
}

/// A box over the five climate axes.
#[derive(Clone, Copy, Debug, PartialEq, Eq, Structural)]
pub struct ClimateBox {
    pub height_diff: Interval,
    pub height_pct: Interval,
    pub moisture_pct: Interval,
    pub rainfall_pct: Interval,
    pub temp: Interval,
}

/// A point over the five climate axes.
#[derive(Clone, Copy, Debug, PartialEq, Eq, Structural)]
pub struct ClimatePoint {
    pub height_diff: i64,
    pub height_pct: i64,
    pub moisture_pct: i64,
    pub rainfall_pct: i64,
    pub temp: i64,
}

/// Climate axis `i` of a box (height difference, height, moisture, rainfall,
/// temperature).
pub open spec fn box_axis(b: ClimateBox, i: int) -> Interval {
    if i == 0 {
        b.height_diff
    } else if i == 1 {
        b.height_pct
    } else if i == 2 {
        b.moisture_pct
    } else if i == 3 {
        b.rainfall_pct
    } else {
        b.temp
    }
}

/// The box with climate axis `i` replaced.
pub open spec fn with_box_axis(b: ClimateBox, i: int, iv: Interval) -> ClimateBox {
    if i == 0 {
        ClimateBox { height_diff: iv, ..b }
    } else if i == 1 {
        ClimateBox { height_pct: iv, ..b }
    } else if i == 2 {
        ClimateBox { moisture_pct: iv, ..b }
    } else if i == 3 {
        ClimateBox { rainfall_pct: iv, ..b }
    } else {
        ClimateBox { temp: iv, ..b }
    }
}

/// Climate axis `i` of a sample.
pub open spec fn sample_axis(s: CellSample, i: int) -> i64 {
    if i == 0 {
        s.height_diff
    } else if i == 1 {
        s.height_pct
    } else if i == 2 {
        s.moisture_pct
    } else if i == 3 {
        s.rainfall_pct
    } else {
        s.temp
    }
}

/// The sample with climate axis `i` replaced.
pub open spec fn with_sample_axis(s: CellSample, i: int, v: i64) -> CellSample {
    if i == 0 {
        CellSample { height_diff: v, ..s }
    } else if i == 1 {
        CellSample { height_pct: v, ..s }
    } else if i == 2 {
        CellSample { moisture_pct: v, ..s }
    } else if i == 3 {
        CellSample { rainfall_pct: v, ..s }
    } else {
        CellSample { temp: v, ..s }
    }
}

/// The climate part of a sample.
pub open spec fn climate_of(s: CellSample) -> ClimatePoint {
    ClimatePoint {
        height_diff: s.height_diff,
        height_pct: s.height_pct,
        moisture_pct: s.moisture_pct,
        rainfall_pct: s.rainfall_pct,
        temp: s.temp,
    }
}

/// Bound on the coordinates of a searched box; it keeps the box arithmetic
/// (lengths, midpoints, volumes) inside `i64`.
pub const BOX_LIMIT: i64 = 1_000_000_000_000;

/// All bounds of the box lie within `-BOX_LIMIT..=BOX_LIMIT`.
pub open spec fn bounded_box(b: ClimateBox) -> bool {
    forall|i: int|
        0 <= i < 5 ==> -BOX_LIMIT <= (#[trigger] box_axis(b, i)).lo <= BOX_LIMIT && -BOX_LIMIT
            <= box_axis(b, i).hi <= BOX_LIMIT
}

/// The sample lies in the box on every climate axis.
pub open spec fn in_box(b: ClimateBox, s: CellSample) -> bool {
    forall|i: int| 0 <= i < 5 ==> in_interval(sample_axis(s, i), #[trigger] box_axis(b, i))
}

/// The sample agrees with `fixed` on the four non-climate axes.
pub open spec fn agrees_off_climate(s: CellSample, fixed: CellSample) -> bool {
    &&& s.magic_pct == fixed.magic_pct
    &&& s.chaos_pct == fixed.chaos_pct
    &&& s.water_body_size == fixed.water_body_size
    &&& s.nearest_ocean_dist == fixed.nearest_ocean_dist
}

/// The non-climate values of `fixed` lie in the rule.
pub open spec fn fixed_inside(p: BiomeParams, fixed: CellSample) -> bool {
    &&& in_interval(fixed.magic_pct, p.magic_pct)
    &&& in_interval(fixed.chaos_pct, p.chaos_pct)
    &&& in_interval(fixed.water_body_size, p.water_body_size)
    &&& in_interval(fixed.nearest_ocean_dist, p.ocean_dist)
}

/// The rule contains the whole box (with the non-climate values of `fixed`).
pub open spec fn box_covered(p: BiomeParams, b: ClimateBox, fixed: CellSample) -> bool {
    &&& fixed_inside(p, fixed)
    &&& forall|i: int|
        0 <= i < 5 ==> intervals_seq(p)[i].lo <= (#[trigger] box_axis(b, i)).lo && box_axis(b, i).hi
            <= intervals_seq(p)[i].hi
}

/// The rule meets the box on every climate axis (with the non-climate values
/// of `fixed`).
pub open spec fn box_meets(p: BiomeParams, b: ClimateBox, fixed: CellSample) -> bool {
    &&& fixed_inside(p, fixed)
    &&& forall|i: int|
        0 <= i < 5 ==> max_i64(intervals_seq(p)[i].lo, (#[trigger] box_axis(b, i)).lo) <= min_i64(
            intervals_seq(p)[i].hi,
            box_axis(b, i).hi,
        )
}

impl ClimateBox {
    /// Climate axis `i`.
    pub fn axis(&self, i: usize) -> (r: Interval)
        requires
            i < 5,
        ensures
            r == box_axis(*self, i as int),
    {
        if i == 0 {
            self.height_diff
        } else if i == 1 {
            self.height_pct
        } else if i == 2 {
            self.moisture_pct
        } else if i == 3 {
            self.rainfall_pct
        } else {
            self.temp
        }
    }

    /// This box with climate axis `i` replaced by `iv`.
    pub fn with_axis(&self, i: usize, iv: Interval) -> (r: ClimateBox)
        requires
            i < 5,
        ensures
            r == with_box_axis(*self, i as int, iv),
    {
        if i == 0 {
            ClimateBox { height_diff: iv, ..*self }
        } else if i == 1 {
            ClimateBox { height_pct: iv, ..*self }
        } else if i == 2 {
            ClimateBox { moisture_pct: iv, ..*self }
        } else if i == 3 {
            ClimateBox { rainfall_pct: iv, ..*self }
        } else {
            ClimateBox { temp: iv, ..*self }
        }
    }
}

fn set_sample_axis(s: &mut CellSample, i: usize, v: i64)
    requires
        i < 5,
    ensures
        *final(s) == with_sample_axis(*old(s), i as int, v),
{
    if i == 0 {
        s.height_diff = v;
    } else if i == 1 {
        s.height_pct = v;
    } else if i == 2 {
        s.moisture_pct = v;
    } else if i == 3 {
        s.rainfall_pct = v;
    } else {
        s.temp = v;
    }
}

fn fixed_axes_inside(p: &BiomeParams, fixed: &CellSample) -> (r: bool)
    ensures
        r == fixed_inside(*p, *fixed),
{
    contains_point(p.magic_pct, fixed.magic_pct) && contains_point(p.chaos_pct, fixed.chaos_pct)
        && contains_point(p.water_body_size, fixed.water_body_size) && contains_point(
        p.ocean_dist,
        fixed.nearest_ocean_dist,
    )
}

/// Whether rule `p` contains the whole climate box `domain` (with the
/// non-climate values of `fixed`).
pub fn climate_box_covered_by_biome(p: &BiomeParams, domain: &ClimateBox, fixed: &CellSample) -> (r:
    bool)
    ensures
        r == box_covered(*p, *domain, *fixed),
{
    if !fixed_axes_inside(p, fixed) {
        return false;
    }
    let ivs = intervals_of(p);
    let mut i: usize = 0;
    while i < 5
        invariant
            i <= 5,
            ivs@ == intervals_seq(*p),
            forall|j: int|
                0 <= j < i ==> intervals_seq(*p)[j].lo <= (#[trigger] box_axis(*domain, j)).lo
                    && box_axis(*domain, j).hi <= intervals_seq(*p)[j].hi,
        decreases 5 - i,
    {
        let d = domain.axis(i);
        if ivs[i].lo > d.lo || ivs[i].hi < d.hi {
            return false;
        }
        i = i + 1;
    }
    true
}

/// Whether rule `p` meets the climate box `domain` on every axis (with the
/// non-climate values of `fixed`).
pub fn climate_box_intersects_biome(p: &BiomeParams, domain: &ClimateBox, fixed: &CellSample) -> (r:
    bool)
    ensures
        r == box_meets(*p, *domain, *fixed),
{
    if !fixed_axes_inside(p, fixed) {
        return false;
    }
    let ivs = intervals_of(p);
    let mut i: usize = 0;
    while i < 5
        invariant
            i <= 5,
            ivs@ == intervals_seq(*p),
            forall|j: int|
                0 <= j < i ==> max_i64(intervals_seq(*p)[j].lo, (#[trigger] box_axis(*domain, j)).lo)
                    <= min_i64(intervals_seq(*p)[j].hi, box_axis(*domain, j).hi),
        decreases 5 - i,
    {
        if interval_intersection(domain.axis(i), ivs[i]).is_none() {
            return false;
        }
        i = i + 1;
    }
    true
}

/// A rule that meets no part of a box matches no sample in it.
pub proof fn lemma_disjoint_rule_misses_box(p: BiomeParams, b: ClimateBox, fixed: CellSample, s: CellSample)
    requires
        !box_meets(p, b, fixed),
        in_box(b, s),
        agrees_off_climate(s, fixed),
    ensures
        !rule_matches(p, s),
{
    if rule_matches(p, s) {
        assert forall|i: int| 0 <= i < 5 implies max_i64(
            intervals_seq(p)[i].lo,
            (#[trigger] box_axis(b, i)).lo,
        ) <= min_i64(intervals_seq(p)[i].hi, box_axis(b, i).hi) by {
            assert(in_interval(sample_axis(s, i), box_axis(b, i)));
        }
    }
}

/// Some entry contains the whole box.
pub open spec fn some_covers(cands: Seq<BiomeEntry>, b: ClimateBox, fixed: CellSample) -> bool {
    exists|j: int| 0 <= j < cands.len() && box_covered(#[trigger] cands[j].params, b, fixed)
}

/// The entries before position `n` that meet the box, in order.
pub open spec fn meeting(cands: Seq<BiomeEntry>, b: ClimateBox, fixed: CellSample, n: int) -> Seq<
    BiomeEntry,
>
    decreases n,
{
    if n <= 0 {
        Seq::empty()
    } else {
        let prev = meeting(cands, b, fixed, n - 1);
        if box_meets(cands[n - 1].params, b, fixed) {
            prev.push(cands[n - 1])
        } else {
            prev
        }
    }
}

/// Some entry matches the sample.
pub open spec fn matched_by_some(cands: Seq<BiomeEntry>, s: CellSample) -> bool {
    exists|j: int| 0 <= j < cands.len() && rule_matches(#[trigger] cands[j].params, s)
}

fn any_covering(cands: &Vec<BiomeEntry>, domain: &ClimateBox, fixed: &CellSample) -> (r: bool)
    ensures
        r == some_covers(cands@, *domain, *fixed),
{
    let mut j: usize = 0;
    while j < cands.len()
        invariant
            j <= cands.len(),
            forall|k: int| 0 <= k < j ==> !box_covered(#[trigger] cands@[k].params, *domain, *fixed),
        decreases cands.len() - j,
    {
        if climate_box_covered_by_biome(&cands[j].params, domain, fixed) {
            return true;
        }
        j = j + 1;
    }
    false
}

fn meeting_entries(cands: &Vec<BiomeEntry>, domain: &ClimateBox, fixed: &CellSample) -> (r: Vec<
    BiomeEntry,
>)
    ensures
        r@ == meeting(cands@, *domain, *fixed, cands.len() as int),
{
    let mut out: Vec<BiomeEntry> = Vec::new();
    let mut j: usize = 0;
    while j < cands.len()
        invariant
            j <= cands.len(),
            out@ == meeting(cands@, *domain, *fixed, j as int),
        decreases cands.len() - j,
    {
        if climate_box_intersects_biome(&cands[j].params, domain, fixed) {
            out.push(cands[j]);
        }
        j = j + 1;
    }
    out
}

fn any_matches(cands: &Vec<BiomeEntry>, s: &CellSample) -> (r: bool)
    ensures
        r == matched_by_some(cands@, *s),
{
    let mut j: usize = 0;
    while j < cands.len()
        invariant
            j <= cands.len(),
            forall|k: int| 0 <= k < j ==> !rule_matches(#[trigger] cands@[k].params, *s),
        decreases cands.len() - j,
    {
        if crate::assign_biome::biome_matches(&cands[j].params, s) {
            return true;
        }
        j = j + 1;
    }
    false
}

/// Position of the first element of `s` from `i` on that is at least `x`
/// (the length when there is none).
pub open spec fn first_at_least(s: Seq<i64>, x: i64, i: int) -> int
    decreases s.len() - i,
{
    if i >= s.len() {
        s.len() as int
    } else if s[i] >= x {
        i
    } else {
        first_at_least(s, x, i + 1)
    }
}

/// `x` added to an ordered list of distinct values, unless already there.
pub open spec fn sorted_insert(s: Seq<i64>, x: i64) -> Seq<i64> {
    let p = first_at_least(s, x, 0);
    if p < s.len() && s[p] == x {
        s
    } else {
        s.insert(p, x)
    }
}

/// The upper bound of the entry's interval on climate axis `axis`, when it
/// cuts the box there: it lies in the box and below the box's upper bound.
pub open spec fn axis_cut(e: BiomeEntry, b: ClimateBox, axis: int) -> Option<i64> {
    let bhi = intervals_seq(e.params)[axis].hi;
    let d = box_axis(b, axis);
    if d.lo <= bhi && bhi < d.hi {
        Some(bhi)
    } else {
        None
    }
}

/// The distinct cuts on `axis` of the first `n` entries, in increasing order.
pub open spec fn axis_cuts(inter: Seq<BiomeEntry>, b: ClimateBox, axis: int, n: int) -> Seq<i64>
    decreases n,
{
    if n <= 0 {
        Seq::empty()
    } else {
        let prev = axis_cuts(inter, b, axis, n - 1);
        match axis_cut(inter[n - 1], b, axis) {
            Some(c) => sorted_insert(prev, c),
            None => prev,
        }
    }
}

/// The axis with the most cuts from `axis` on (the earliest on ties), given
/// the best one so far.
pub open spec fn best_split_from(
    inter: Seq<BiomeEntry>,
    b: ClimateBox,
    axis: int,
    best: (int, Seq<i64>),
) -> (int, Seq<i64>)
    decreases 5 - axis,
{
    if axis >= 5 {
        best
    } else {
        let cuts = axis_cuts(inter, b, axis, inter.len() as int);
        best_split_from(inter, b, axis + 1, if cuts.len() > best.1.len() { (axis, cuts) } else { best })
    }
}

/// The split axis and its cuts: the axis with the most cuts, the first one on
/// ties (axis 0 with no cuts when no axis has any).
pub open spec fn best_split(inter: Seq<BiomeEntry>, b: ClimateBox) -> (int, Seq<i64>) {
    best_split_from(inter, b, 0, (0, Seq::empty()))
}

/// Inserting into a list whose values all lie in `lo..hi` a value in that
/// range keeps all values in it.
proof fn lemma_sorted_insert_range(s: Seq<i64>, x: i64, lo: i64, hi: i64)
    requires
        forall|k: int| 0 <= k < s.len() ==> lo <= #[trigger] s[k] < hi,
        lo <= x < hi,
    ensures
        forall|k: int| 0 <= k < sorted_insert(s, x).len() ==> lo <= #[trigger] sorted_insert(s, x)[k] < hi,
{
    let p = first_at_least(s, x, 0);
    lemma_first_at_least_bound(s, x, 0);
    if !(p < s.len() && s[p] == x) {
        assert forall|k: int| 0 <= k < s.insert(p, x).len() implies lo <= #[trigger] s.insert(p, x)[k]
            < hi by {
            if k < p {
            } else if k == p {
            } else {
                assert(s.insert(p, x)[k] == s[k - 1]);
            }
        }
    }
}

proof fn lemma_first_at_least_bound(s: Seq<i64>, x: i64, i: int)
    requires
        0 <= i <= s.len(),
    ensures
        i <= first_at_least(s, x, i) <= s.len(),
    decreases s.len() - i,
{
    if i < s.len() {
        lemma_first_at_least_bound(s, x, i + 1);
    }
}

/// The cuts on an axis lie inside the box on that axis, below its upper bound.
proof fn lemma_axis_cuts_range(inter: Seq<BiomeEntry>, b: ClimateBox, axis: int, n: int)
    requires
        0 <= n <= inter.len(),
    ensures
        forall|k: int|
            0 <= k < axis_cuts(inter, b, axis, n).len() ==> box_axis(b, axis).lo <= #[trigger] axis_cuts(
                inter,
                b,
                axis,
                n,
            )[k] < box_axis(b, axis).hi,
    decreases n,
{
    if n > 0 {
        lemma_axis_cuts_range(inter, b, axis, n - 1);
        match axis_cut(inter[n - 1], b, axis) {
            Some(c) => {
                lemma_sorted_insert_range(
                    axis_cuts(inter, b, axis, n - 1),
                    c,
                    box_axis(b, axis).lo,
                    box_axis(b, axis).hi,
                );
            },
            None => {},
        }
    }
}

fn insert_cut(cuts: &mut Vec<i64>, x: i64)
    ensures
        final(cuts)@ == sorted_insert(old(cuts)@, x),
{
    let mut p: usize = 0;
    while p < cuts.len() && cuts[p] < x
        invariant
            p <= cuts.len(),
            first_at_least(cuts@, x, 0) == first_at_least(cuts@, x, p as int),
        decreases cuts.len() - p,
    {
        p = p + 1;
    }
    if p < cuts.len() && cuts[p] == x {
        return;
    }
    cuts.insert(p, x);
}

/// The split axis for `domain` among the meeting entries and its cuts, in
/// increasing order.
pub fn best_split_axis(domain: &ClimateBox, intersecting: &Vec<BiomeEntry>) -> (r: (usize, Vec<i64>))
    ensures
        (r.0 as int, r.1@) == best_split(intersecting@, *domain),
        r.0 < 5,
{
    let mut best_axis: usize = 0;
    let mut best_cuts: Vec<i64> = Vec::new();
    let mut axis: usize = 0;
    while axis < 5
        invariant
            axis <= 5,
            best_axis < 5,
            best_split_from(intersecting@, *domain, axis as int, (best_axis as int, best_cuts@))
                == best_split(intersecting@, *domain),
        decreases 5 - axis,
    {
        let d = domain.axis(axis);
        let mut cuts: Vec<i64> = Vec::new();
        let mut j: usize = 0;
        while j < intersecting.len()
            invariant
                axis < 5,
                j <= intersecting.len(),
                d == box_axis(*domain, axis as int),
                cuts@ == axis_cuts(intersecting@, *domain, axis as int, j as int),
            decreases intersecting.len() - j,
        {
            let bhi = intervals_of(&intersecting[j].params)[axis].hi;
            if bhi >= d.lo && bhi < d.hi {
                insert_cut(&mut cuts, bhi);
            }
            j = j + 1;
        }
        if cuts.len() > best_cuts.len() {
            best_axis = axis;
            best_cuts = cuts;
        }
        axis = axis + 1;
    }
    (best_axis, best_cuts)
}

/// The pieces of `start..=end` cut after each cut value from position `i`
/// on: `start..=c`, then `c + 1..` (cuts below the current start are skipped).
pub open spec fn split_segments(start: int, end: int, cuts: Seq<i64>, i: int) -> Seq<(i64, i64)>
    decreases cuts.len() - i,
{
    if i >= cuts.len() {
        if start <= end {
            seq![(start as i64, end as i64)]
        } else {
            Seq::empty()
        }
    } else if cuts[i] >= start {
        seq![(start as i64, cuts[i])] + split_segments(cuts[i] + 1, end, cuts, i + 1)
    } else {
        split_segments(start, end, cuts, i + 1)
    }
}

/// Every piece lies inside `lo..=end` when the cuts lie in `lo..end` and the
/// pieces start at `start >= lo`.
proof fn lemma_split_segments_inside(start: int, end: int, cuts: Seq<i64>, i: int, lo: int)
    requires
        lo <= start,
        0 <= i <= cuts.len(),
        forall|k: int| 0 <= k < cuts.len() ==> lo <= #[trigger] cuts[k] < end,
        i64::MIN <= start,
        end <= i64::MAX,
    ensures
        forall|k: int|
            0 <= k < split_segments(start, end, cuts, i).len() ==> lo <= (#[trigger] split_segments(
                start,
                end,
                cuts,
                i,
            )[k]).0 <= split_segments(start, end, cuts, i)[k].1 <= end,
    decreases cuts.len() - i,
{
    let whole = split_segments(start, end, cuts, i);
    if i < cuts.len() {
        if cuts[i] >= start {
            lemma_split_segments_inside(cuts[i] + 1, end, cuts, i + 1, lo);
            let rest = split_segments(cuts[i] + 1, end, cuts, i + 1);
            assert((start as i64) as int == start);
            assert(whole == seq![(start as i64, cuts[i])] + rest);
            assert forall|k: int| 0 <= k < whole.len() implies lo <= (#[trigger] whole[k]).0 <= whole[k].1
                <= end by {
                if k == 0 {
                    assert(whole[0] == (start as i64, cuts[i]));
                } else {
                    assert(whole[k] == rest[k - 1]);
                    assert(lo <= rest[k - 1].0 <= rest[k - 1].1 <= end);
                }
            }
        } else {
            lemma_split_segments_inside(start, end, cuts, i + 1, lo);
            assert(whole == split_segments(start, end, cuts, i + 1));
        }
    } else if start <= end {
        assert((start as i64) as int == start && (end as i64) as int == end);
        assert(whole =~= seq![(start as i64, end as i64)]);
        assert(whole[0] == (start as i64, end as i64));
        assert forall|k: int| 0 <= k < whole.len() implies lo <= (#[trigger] whole[k]).0 <= whole[k].1
            <= end by {
            assert(k == 0);
        }
    } else {
        assert(whole.len() == 0);
    }
}

fn segments_of(lo: i64, hi: i64, cuts: &Vec<i64>) -> (r: Vec<(i64, i64)>)
    requires
        forall|k: int| 0 <= k < cuts.len() ==> lo <= #[trigger] cuts[k] < hi,
    ensures
        r@ == split_segments(lo as int, hi as int, cuts@, 0),
{
    let mut segs: Vec<(i64, i64)> = Vec::new();
    let mut start = lo;
    let end = hi;
    let mut i: usize = 0;
    while i < cuts.len()
        invariant
            i <= cuts.len(),
            lo <= start,
            forall|k: int| 0 <= k < cuts.len() ==> lo <= #[trigger] cuts[k] < hi,
            end == hi,
            segs@ + split_segments(start as int, end as int, cuts@, i as int) == split_segments(
                lo as int,
                hi as int,
                cuts@,
                0,
            ),
        decreases cuts.len() - i,
    {
        let cut = cuts[i];
        if cut >= start {
            let ghost before = segs@;
            segs.push((start, cut));
            proof {
                assert(before + split_segments(start as int, end as int, cuts@, i as int) == before
                    + (seq![(start, cut)] + split_segments(cut + 1, end as int, cuts@, i + 1)));
                assert(before + (seq![(start, cut)] + split_segments(cut + 1, end as int, cuts@, i + 1))
                    =~= segs@ + split_segments(cut + 1, end as int, cuts@, i + 1));
            }
            start = cut + 1;
        }
        i = i + 1;
    }
    if start <= end {
        segs.push((start, end));
    }
    proof {
        assert(segs@ =~= split_segments(lo as int, hi as int, cuts@, 0));
    }
    segs
}

/// The volume of the box from axis `i` on, given the running product `v`:
/// the product of the axis lengths, `0` once an axis is empty, and capped at
/// `i64::MAX` at every step.
pub open spec fn volume_from(b: ClimateBox, i: int, v: int) -> int
    decreases 5 - i,
{
    if i >= 5 {
        v
    } else {
        let n = box_axis(b, i).hi - box_axis(b, i).lo + 1;
        if n <= 0 {
            0
        } else {
            volume_from(b, i + 1, if v * n > i64::MAX { i64::MAX as int } else { v * n })
        }
    }
}

/// Number of integer points of the box (capped at `i64::MAX`).
pub open spec fn box_volume(b: ClimateBox) -> int {
    volume_from(b, 0, 1)
}

/// Number of integer climate points in `domain`, saturating at `i64::MAX`.
pub fn climate_volume(domain: &ClimateBox) -> (r: i64)
    requires
        bounded_box(*domain),
    ensures
        r == box_volume(*domain),
{
    let mut v: i64 = 1;
    let mut i: usize = 0;
    while i < 5
        invariant
            i <= 5,
            1 <= v,
            bounded_box(*domain),
            volume_from(*domain, i as int, v as int) == box_volume(*domain),
        decreases 5 - i,
    {
        let d = domain.axis(i);
        assert(-BOX_LIMIT <= d.lo <= BOX_LIMIT && -BOX_LIMIT <= d.hi <= BOX_LIMIT);
        let n = d.hi - d.lo + 1;
        if n <= 0 {
            return 0;
        }
        v = match v.checked_mul(n) {
            Some(p) => {
                assert(v * n >= 1) by (nonlinear_arith)
                    requires
                        v >= 1,
                        n >= 1,
                ;
                p
            },
            None => i64::MAX,
        };
        i = i + 1;
    }
    v
}

/// Number of values of an axis.
pub open spec fn axis_len(iv: Interval) -> int {
    iv.hi - iv.lo + 1
}

/// Every axis of the box holds at least one value.
pub open spec fn nonempty_box(b: ClimateBox) -> bool {
    forall|i: int| 0 <= i < 5 ==> axis_len(#[trigger] box_axis(b, i)) >= 1
}

/// The sample whose climate axes `0..=i` are the digits of `rem` in the mixed
/// radix of the axis lengths (axis `i` least significant), each added to the
/// axis' lower bound; the other values are those of `s`.
pub open spec fn fill_sample(b: ClimateBox, s: CellSample, rem: int, i: int) -> CellSample
    decreases i + 1,
{
    if i < 0 {
        s
    } else {
        let l = axis_len(box_axis(b, i));
        fill_sample(b, with_sample_axis(s, i, (box_axis(b, i).lo + rem % l) as i64), rem / l, i - 1)
    }
}

/// The `idx`-th integer point of the box in lexicographic order (the last
/// climate axis varying fastest), with the non-climate values of `fixed`.
pub open spec fn sample_at(b: ClimateBox, fixed: CellSample, idx: int) -> CellSample {
    fill_sample(b, fixed, idx, 4)
}

/// The `idx`-th integer point of `domain`.
pub fn integer_sample(domain: &ClimateBox, fixed: &CellSample, idx: i64) -> (r: CellSample)
    requires
        bounded_box(*domain),
        nonempty_box(*domain),
        0 <= idx,
    ensures
        r == sample_at(*domain, *fixed, idx as int),
{
    let mut s = *fixed;
    let mut rem = idx;
    let mut k: usize = 0;
    while k < 5
        invariant
            k <= 5,
            bounded_box(*domain),
            nonempty_box(*domain),
            0 <= rem,
            fill_sample(*domain, s, rem as int, 4 - k) == sample_at(*domain, *fixed, idx as int),
        decreases 5 - k,
    {
        let i = 4 - k;
        let d = domain.axis(i);
        assert(axis_len(box_axis(*domain, i as int)) >= 1);
        assert(-BOX_LIMIT <= d.lo <= BOX_LIMIT && -BOX_LIMIT <= d.hi <= BOX_LIMIT);
        let l = d.hi - d.lo + 1;
        let j = rem % l;
        rem = rem / l;
        set_sample_axis(&mut s, i, d.lo + j);
        k = k + 1;
    }
    s
}

/// `t / 2` rounded half away from zero.
pub open spec fn round_half(t: int) -> int {
    if t >= 0 {
        (t + 1) / 2
    } else {
        -((-t + 1) / 2)
    }
}

/// The middle of an interval, rounded half away from zero.
pub open spec fn mid(iv: Interval) -> i64 {
    round_half(iv.lo + iv.hi) as i64
}

/// The sample at the middle of the box, with the non-climate values of `fixed`.
pub open spec fn midpoint_sample(b: ClimateBox, fixed: CellSample) -> CellSample {
    CellSample {
        height_diff: mid(b.height_diff),
        height_pct: mid(b.height_pct),
        moisture_pct: mid(b.moisture_pct),
        rainfall_pct: mid(b.rainfall_pct),
        temp: mid(b.temp),
        ..fixed
    }
}

fn midpoint_of(iv: Interval) -> (r: i64)
    requires
        -BOX_LIMIT <= iv.lo <= BOX_LIMIT,
        -BOX_LIMIT <= iv.hi <= BOX_LIMIT,
    ensures
        r == mid(iv),
{
    let t = iv.lo + iv.hi;
    if t >= 0 {
        (t + 1) / 2
    } else {
        -((-t + 1) / 2)
    }
}

/// The middle sample of `domain`.
pub fn box_midpoint_sample(domain: &ClimateBox, fixed: &CellSample) -> (r: CellSample)
    requires
        bounded_box(*domain),
    ensures
        r == midpoint_sample(*domain, *fixed),
{
    assert(-BOX_LIMIT <= box_axis(*domain, 0).lo);
    assert(-BOX_LIMIT <= box_axis(*domain, 1).lo);
    assert(-BOX_LIMIT <= box_axis(*domain, 2).lo);
    assert(-BOX_LIMIT <= box_axis(*domain, 3).lo);
    assert(-BOX_LIMIT <= box_axis(*domain, 4).lo);
    CellSample {
        height_diff: midpoint_of(domain.height_diff),
        height_pct: midpoint_of(domain.height_pct),
        moisture_pct: midpoint_of(domain.moisture_pct),
        rainfall_pct: midpoint_of(domain.rainfall_pct),
        temp: midpoint_of(domain.temp),
        ..*fixed
    }
}

/// How a reported hole was found.
#[derive(Clone, Copy, Debug, PartialEq, Eq, Structural)]
pub enum GapProbe {
    /// No rule meets the box at all.
    WholeBox,
    /// This integer point of a small unsplittable box matches no rule.
    Point(ClimatePoint),
    /// The middle point of a large unsplittable box matches no rule.
    Midpoint(ClimatePoint),
}

/// A reported hole in the joint climate coverage.
#[derive(Clone, Copy, Debug, PartialEq, Eq, Structural)]
pub struct CoverageGap {
    pub domain: ClimateBox,
    pub probe: GapProbe,
}

/// Deepest split level; boxes below it are probed instead of split.
pub const MAX_SPLIT_DEPTH: usize = 40;

/// Largest box whose integer points are all probed; larger unsplittable boxes
/// are probed at their middle only.
pub const PROBE_VOLUME: i64 = 64;

/// The holes found among the first `total` integer points of the box from
/// point `idx` on, appended to `acc`; the search stops once `acc` holds `max`.
pub open spec fn probe_points(
    b: ClimateBox,
    inter: Seq<BiomeEntry>,
    fixed: CellSample,
    idx: int,
    total: int,
    acc: Seq<CoverageGap>,
    max: int,
) -> Seq<CoverageGap>
    decreases total - idx,
{
    if idx >= total {
        acc
    } else {
        let s = sample_at(b, fixed, idx);
        if matched_by_some(inter, s) {
            probe_points(b, inter, fixed, idx + 1, total, acc, max)
        } else {
            let acc2 = acc.push(CoverageGap { domain: b, probe: GapProbe::Point(climate_of(s)) });
            if acc2.len() >= max {
                acc2
            } else {
                probe_points(b, inter, fixed, idx + 1, total, acc2, max)
            }
        }
    }
}

/// The holes of an unsplittable box: every integer point when the box is
/// small, else its middle point.
pub open spec fn probe_box(
    b: ClimateBox,
    inter: Seq<BiomeEntry>,
    fixed: CellSample,
    acc: Seq<CoverageGap>,
    max: int,
) -> Seq<CoverageGap> {
    let vol = box_volume(b);
    if vol <= PROBE_VOLUME {
        probe_points(b, inter, fixed, 0, vol, acc, max)
    } else {
        let s = midpoint_sample(b, fixed);
        if matched_by_some(inter, s) {
            acc
        } else {
            acc.push(CoverageGap { domain: b, probe: GapProbe::Midpoint(climate_of(s)) })
        }
    }
}

/// Remaining split levels at depth `depth`.
pub open spec fn levels_left(depth: int) -> int {
    if depth > MAX_SPLIT_DEPTH + 1 {
        0
    } else {
        MAX_SPLIT_DEPTH + 1 - depth
    }
}

/// The holes of box `b` appended to `acc`: nothing when `acc` already holds
/// `max` or a rule contains the box; the whole box when no rule meets it;
/// otherwise the holes of the pieces along the best split axis, or the probed
/// points when there is nothing to split or the depth limit is passed.
pub open spec fn gap_search(
    b: ClimateBox,
    cands: Seq<BiomeEntry>,
    fixed: CellSample,
    acc: Seq<CoverageGap>,
    depth: int,
    max: int,
) -> Seq<CoverageGap>
    decreases levels_left(depth), 1int, 0int,
{
    if acc.len() >= max {
        acc
    } else if some_covers(cands, b, fixed) {
        acc
    } else {
        let inter = meeting(cands, b, fixed, cands.len() as int);
        if inter.len() == 0 {
            acc.push(CoverageGap { domain: b, probe: GapProbe::WholeBox })
        } else {
            let (axis, cuts) = best_split(inter, b);
            if cuts.len() == 0 || depth > MAX_SPLIT_DEPTH {
                probe_box(b, inter, fixed, acc, max)
            } else {
                let d = box_axis(b, axis);
                search_pieces(
                    b,
                    axis,
                    split_segments(d.lo as int, d.hi as int, cuts, 0),
                    0,
                    cands,
                    fixed,
                    acc,
                    depth,
                    max,
                )
            }
        }
    }
}

/// The holes of the pieces `i..` of box `b` along `axis`, each searched one
/// level deeper, appended to `acc` until it holds `max`.
pub open spec fn search_pieces(
    b: ClimateBox,
    axis: int,
    segs: Seq<(i64, i64)>,
    i: int,
    cands: Seq<BiomeEntry>,
    fixed: CellSample,
    acc: Seq<CoverageGap>,
    depth: int,
    max: int,
) -> Seq<CoverageGap>
    decreases levels_left(depth), 0int, segs.len() - i,
{
    if i >= segs.len() || depth > MAX_SPLIT_DEPTH || depth < 0 {
        acc
    } else if acc.len() >= max {
        acc
    } else {
        let child = with_box_axis(b, axis, Interval { lo: segs[i].0, hi: segs[i].1 });
        search_pieces(
            b,
            axis,
            segs,
            i + 1,
            cands,
            fixed,
            gap_search(child, cands, fixed, acc, depth + 1, max),
            depth,
            max,
        )
    }
}

/// The volume is never negative.
proof fn lemma_volume_nonneg(b: ClimateBox, i: int, v: int)
    requires
        v >= 1,
    ensures
        volume_from(b, i, v) >= 0,
    decreases 5 - i,
{
    if i < 5 {
        let n = box_axis(b, i).hi - box_axis(b, i).lo + 1;
        if n > 0 {
            let v2 = if v * n > i64::MAX { i64::MAX as int } else { v * n };
            assert(v2 >= 1) by (nonlinear_arith)
                requires
                    v >= 1,
                    n >= 1,
                    v2 == (if v * n > i64::MAX { i64::MAX as int } else { v * n }),
            ;
            lemma_volume_nonneg(b, i + 1, v2);
        }
    }
}

/// A box with a positive volume has no empty axis.
proof fn lemma_volume_positive(b: ClimateBox, i: int, v: int)
    requires
        0 <= i <= 5,
        v >= 1,
        volume_from(b, i, v) >= 1,
    ensures
        forall|j: int| i <= j < 5 ==> axis_len(#[trigger] box_axis(b, j)) >= 1,
    decreases 5 - i,
{
    if i < 5 {
        let n = box_axis(b, i).hi - box_axis(b, i).lo + 1;
        let v2 = if v * n > i64::MAX { i64::MAX as int } else { v * n };
        assert(v2 >= 1) by (nonlinear_arith)
            requires
                v >= 1,
                n >= 1,
                v2 == (if v * n > i64::MAX { i64::MAX as int } else { v * n }),
        ;
        lemma_volume_positive(b, i + 1, v2);
    }
}

/// The split found by `best_split` is either an axis with its cuts or axis
/// 0 with no cuts.
proof fn lemma_best_split_cuts(inter: Seq<BiomeEntry>, b: ClimateBox, axis: int, best: (int, Seq<i64>))
    requires
        0 <= axis <= 5,
        0 <= best.0 < 5,
        best.1 == axis_cuts(inter, b, best.0, inter.len() as int) || best.1.len() == 0,
    ensures
        0 <= best_split_from(inter, b, axis, best).0 < 5,
        best_split_from(inter, b, axis, best).1 == axis_cuts(
            inter,
            b,
            best_split_from(inter, b, axis, best).0,
            inter.len() as int,
        ) || best_split_from(inter, b, axis, best).1.len() == 0,
    decreases 5 - axis,
{
    if axis < 5 {
        let cuts = axis_cuts(inter, b, axis, inter.len() as int);
        lemma_best_split_cuts(inter, b, axis + 1, if cuts.len() > best.1.len() { (axis, cuts) } else { best });
    }
}

fn climate_point(s: &CellSample) -> (r: ClimatePoint)
    ensures
        r == climate_of(*s),
{
    ClimatePoint {
        height_diff: s.height_diff,
        height_pct: s.height_pct,
        moisture_pct: s.moisture_pct,
        rainfall_pct: s.rainfall_pct,
        temp: s.temp,
    }
}

fn probe_integer_points(
    domain: &ClimateBox,
    inter: &Vec<BiomeEntry>,
    fixed: &CellSample,
    vol: i64,
    out: &mut Vec<CoverageGap>,
    max_report: usize,
)
    requires
        bounded_box(*domain),
        0 <= vol,
        vol >= 1 ==> nonempty_box(*domain),
    ensures
        final(out)@ == probe_points(*domain, inter@, *fixed, 0, vol as int, old(out)@, max_report as int),
{
    let ghost target = probe_points(*domain, inter@, *fixed, 0, vol as int, old(out)@, max_report as int);
    let mut idx: i64 = 0;
    while idx < vol
        invariant
            0 <= idx <= vol,
            bounded_box(*domain),
            vol >= 1 ==> nonempty_box(*domain),
            target == probe_points(*domain, inter@, *fixed, 0, vol as int, old(out)@, max_report as int),
            probe_points(*domain, inter@, *fixed, idx as int, vol as int, out@, max_report as int)
                == target,
        decreases vol - idx,
    {
        let s = integer_sample(domain, fixed, idx);
        if !any_matches(inter, &s) {
            let ghost before = out@;
            let gap = CoverageGap { domain: *domain, probe: GapProbe::Point(climate_point(&s)) };
            out.push(gap);
            assert(out@ == before.push(gap));
            if out.len() >= max_report {
                return;
            }
        }
        idx = idx + 1;
    }
}

/// Appends to `out` the holes of `domain` in the joint climate coverage of
/// `candidates` (with the non-climate values of `fixed`), searching by
/// recursive subdivision until `out` holds `max_report` holes.
pub fn find_coverage_gaps(
    domain: &ClimateBox,
    candidates: &Vec<BiomeEntry>,
    fixed: &CellSample,
    out: &mut Vec<CoverageGap>,
    depth: usize,
    max_report: usize,
)
    requires
        bounded_box(*domain),
        depth <= MAX_SPLIT_DEPTH + 1,
    ensures
        final(out)@ == gap_search(
            *domain,
            candidates@,
            *fixed,
            old(out)@,
            depth as int,
            max_report as int,
        ),
    decreases levels_left(depth as int),
{
    if out.len() >= max_report {
        return;
    }
    if any_covering(candidates, domain, fixed) {
        return;
    }
    let intersecting = meeting_entries(candidates, domain, fixed);
    if intersecting.len() == 0 {
        out.push(CoverageGap { domain: *domain, probe: GapProbe::WholeBox });
        return;
    }
    let (axis, cuts) = best_split_axis(domain, &intersecting);
    if cuts.len() == 0 || depth > MAX_SPLIT_DEPTH {
        let volume = climate_volume(domain);
        if volume <= PROBE_VOLUME {
            proof {
                lemma_volume_nonneg(*domain, 0, 1);
                if volume >= 1 {
                    lemma_volume_positive(*domain, 0, 1);
                }
            }
            probe_integer_points(domain, &intersecting, fixed, volume, out, max_report);
        } else {
            let s = box_midpoint_sample(domain, fixed);
            if !any_matches(&intersecting, &s) {
                out.push(CoverageGap { domain: *domain, probe: GapProbe::Midpoint(climate_point(&s)) });
            }
        }
        return;
    }
    let d = domain.axis(axis);
    proof {
        lemma_best_split_cuts(intersecting@, *domain, 0, (0, Seq::empty()));
        lemma_axis_cuts_range(intersecting@, *domain, axis as int, intersecting.len() as int);
    }
    let segs = segments_of(d.lo, d.hi, &cuts);
    proof {
        lemma_split_segments_inside(d.lo as int, d.hi as int, cuts@, 0, d.lo as int);
    }
    let ghost target = gap_search(*domain, candidates@, *fixed, old(out)@, depth as int, max_report as int);
    let mut i: usize = 0;
    while i < segs.len()
        invariant
            i <= segs.len(),
            axis < 5,
            depth <= MAX_SPLIT_DEPTH,
            bounded_box(*domain),
            d == box_axis(*domain, axis as int),
            target == gap_search(
                *domain,
                candidates@,
                *fixed,
                old(out)@,
                depth as int,
                max_report as int,
            ),
            forall|k: int|
                0 <= k < segs.len() ==> d.lo <= (#[trigger] segs@[k]).0 <= segs@[k].1 <= d.hi,
            search_pieces(
                *domain,
                axis as int,
                segs@,
                i as int,
                candidates@,
                *fixed,
                out@,
                depth as int,
                max_report as int,
            ) == target,
        decreases segs.len() - i,
    {
        if out.len() >= max_report {
            return;
        }
        let (a, c) = segs[i];
        let child = domain.with_axis(axis, Interval { lo: a, hi: c });
        proof {
            assert(segs@[i as int] == (a, c));
            assert forall|j: int| 0 <= j < 5 implies -BOX_LIMIT <= (#[trigger] box_axis(child, j)).lo
                <= BOX_LIMIT && -BOX_LIMIT <= box_axis(child, j).hi <= BOX_LIMIT by {
                assert(-BOX_LIMIT <= box_axis(*domain, j).lo <= BOX_LIMIT);
                assert(-BOX_LIMIT <= box_axis(*domain, j).hi <= BOX_LIMIT);
            }
        }
        find_coverage_gaps(&child, candidates, fixed, out, depth + 1, max_report);
        i = i + 1;
    }
}

/// The sample with the climate values of `p` and the other values of `fixed`.
pub open spec fn sample_with(p: ClimatePoint, fixed: CellSample) -> CellSample {
    CellSample {
        height_diff: p.height_diff,
        height_pct: p.height_pct,
        moisture_pct: p.moisture_pct,
        rainfall_pct: p.rainfall_pct,
        temp: p.temp,
        ..fixed
    }
}

/// Every axis of the box has its bounds in order.
pub open spec fn valid_box(b: ClimateBox) -> bool {
    forall|i: int| 0 <= i < 5 ==> valid_interval(#[trigger] box_axis(b, i))
}

/// Box `b` lies inside box `outer`.
pub open spec fn box_within(b: ClimateBox, outer: ClimateBox) -> bool {
    forall|i: int|
        0 <= i < 5 ==> box_axis(outer, i).lo <= (#[trigger] box_axis(b, i)).lo && box_axis(b, i).hi
            <= box_axis(outer, i).hi
}

/// A reported hole is real: it lies inside `root`; a whole box holds no
/// sample (with the non-climate values of `fixed`) that some entry matches;
/// a reported point lies in its box and no entry matches it.
pub open spec fn genuine_gap(g: CoverageGap, cands: Seq<BiomeEntry>, fixed: CellSample, root: ClimateBox) -> bool {
    &&& box_within(g.domain, root)
    &&& match g.probe {
        GapProbe::WholeBox => forall|s: CellSample|
            in_box(g.domain, s) && agrees_off_climate(s, fixed) ==> !#[trigger] matched_by_some(cands, s),
        GapProbe::Point(p) => in_box(g.domain, sample_with(p, fixed)) && !matched_by_some(
            cands,
            sample_with(p, fixed),
        ),
        GapProbe::Midpoint(p) => in_box(g.domain, sample_with(p, fixed)) && !matched_by_some(
            cands,
            sample_with(p, fixed),
        ),
    }
}

/// Every hole of a list is real.
pub open spec fn all_genuine(gaps: Seq<CoverageGap>, cands: Seq<BiomeEntry>, fixed: CellSample, root: ClimateBox) -> bool {
    forall|k: int| 0 <= k < gaps.len() ==> genuine_gap(#[trigger] gaps[k], cands, fixed, root)
}

/// The entries that meet the box are exactly those kept by `meeting`.
proof fn lemma_meeting_members(cands: Seq<BiomeEntry>, b: ClimateBox, fixed: CellSample, n: int)
    requires
        0 <= n <= cands.len(),
    ensures
        forall|j: int|
            0 <= j < n && box_meets(#[trigger] cands[j].params, b, fixed) ==> meeting(cands, b, fixed, n).contains(
                cands[j],
            ),
        forall|k: int|
            0 <= k < meeting(cands, b, fixed, n).len() ==> box_meets(
                (#[trigger] meeting(cands, b, fixed, n)[k]).params,
                b,
                fixed,
            ),
    decreases n,
{
    if n > 0 {
        lemma_meeting_members(cands, b, fixed, n - 1);
        let prev = meeting(cands, b, fixed, n - 1);
        if box_meets(cands[n - 1].params, b, fixed) {
            assert(prev.push(cands[n - 1])[prev.len() as int] == cands[n - 1]);
            assert forall|j: int|
                0 <= j < n && box_meets(#[trigger] cands[j].params, b, fixed) implies prev.push(
                cands[n - 1],
            ).contains(cands[j]) by {
                if j < n - 1 {
                    let k = choose|k: int| 0 <= k < prev.len() && prev[k] == cands[j];
                    assert(prev.push(cands[n - 1])[k] == cands[j]);
                }
            }
        }
    }
}

/// A sample in the box that no meeting entry matches is matched by no entry.
proof fn lemma_unmatched_in_box(cands: Seq<BiomeEntry>, b: ClimateBox, fixed: CellSample, s: CellSample)
    requires
        in_box(b, s),
        agrees_off_climate(s, fixed),
        !matched_by_some(meeting(cands, b, fixed, cands.len() as int), s),
    ensures
        !matched_by_some(cands, s),
{
    lemma_meeting_members(cands, b, fixed, cands.len() as int);
    let inter = meeting(cands, b, fixed, cands.len() as int);
    if matched_by_some(cands, s) {
        let j = choose|j: int| 0 <= j < cands.len() && rule_matches(#[trigger] cands[j].params, s);
        if !box_meets(cands[j].params, b, fixed) {
            lemma_disjoint_rule_misses_box(cands[j].params, b, fixed, s);
        }
        let k = choose|k: int| 0 <= k < inter.len() && inter[k] == cands[j];
        assert(rule_matches(inter[k].params, s));
    }
}

/// The integer points of a box lie in it and keep the non-climate values.
proof fn lemma_fill_sample_in_box(b: ClimateBox, s: CellSample, rem: int, i: int, fixed: CellSample)
    requires
        -1 <= i < 5,
        rem >= 0,
        nonempty_box(b),
        agrees_off_climate(s, fixed),
        forall|j: int| i < j < 5 ==> in_interval(sample_axis(s, j), #[trigger] box_axis(b, j)),
    ensures
        in_box(b, fill_sample(b, s, rem, i)),
        agrees_off_climate(fill_sample(b, s, rem, i), fixed),
    decreases i + 1,
{
    if i >= 0 {
        let l = axis_len(box_axis(b, i));
        assert(l >= 1);
        let v = (box_axis(b, i).lo + rem % l) as i64;
        let s2 = with_sample_axis(s, i, v);
        assert(forall|j: int| 0 <= j < 5 && j != i ==> sample_axis(s2, j) == sample_axis(s, j));
        assert(sample_axis(s2, i) == v);
        lemma_fill_sample_in_box(b, s2, rem / l, i - 1, fixed);
    }
}

/// The middle of a valid box lies in it.
proof fn lemma_midpoint_in_box(b: ClimateBox, fixed: CellSample)
    requires
        valid_box(b),
        bounded_box(b),
    ensures
        in_box(b, midpoint_sample(b, fixed)),
        agrees_off_climate(midpoint_sample(b, fixed), fixed),
{
    assert forall|i: int| 0 <= i < 5 implies in_interval(
        sample_axis(midpoint_sample(b, fixed), i),
        #[trigger] box_axis(b, i),
    ) by {
        let d = box_axis(b, i);
        assert(valid_interval(d));
        assert(-BOX_LIMIT <= d.lo <= BOX_LIMIT && -BOX_LIMIT <= d.hi <= BOX_LIMIT);
        assert(d.lo <= round_half(d.lo + d.hi) <= d.hi);
    }
}

/// The probed points that are reported are real holes.
proof fn lemma_probe_points_sound(
    b: ClimateBox,
    cands: Seq<BiomeEntry>,
    fixed: CellSample,
    idx: int,
    total: int,
    acc: Seq<CoverageGap>,
    max: int,
    root: ClimateBox,
)
    requires
        idx >= 0,
        total >= 1 ==> nonempty_box(b),
        box_within(b, root),
        all_genuine(acc, cands, fixed, root),
    ensures
        all_genuine(
            probe_points(b, meeting(cands, b, fixed, cands.len() as int), fixed, idx, total, acc, max),
            cands,
            fixed,
            root,
        ),
        acc.is_prefix_of(
            probe_points(b, meeting(cands, b, fixed, cands.len() as int), fixed, idx, total, acc, max),
        ),
    decreases total - idx,
{
    let inter = meeting(cands, b, fixed, cands.len() as int);
    if idx < total {
        let s = sample_at(b, fixed, idx);
        if matched_by_some(inter, s) {
            lemma_probe_points_sound(b, cands, fixed, idx + 1, total, acc, max, root);
        } else {
            lemma_fill_sample_in_box(b, fixed, idx, 4, fixed);
            lemma_unmatched_in_box(cands, b, fixed, s);
            let g = CoverageGap { domain: b, probe: GapProbe::Point(climate_of(s)) };
            assert(sample_with(climate_of(s), fixed) == s);
            let acc2 = acc.push(g);
            assert(all_genuine(acc2, cands, fixed, root)) by {
                assert forall|k: int| 0 <= k < acc2.len() implies genuine_gap(#[trigger] acc2[k], cands, fixed, root) by {
                    if k < acc.len() {
                        assert(acc2[k] == acc[k]);
                    }
                }
            }
            if acc2.len() < max {
                lemma_probe_points_sound(b, cands, fixed, idx + 1, total, acc2, max, root);
            }
        }
    }
}

proof fn lemma_prefix_trans(a: Seq<CoverageGap>, b: Seq<CoverageGap>, c: Seq<CoverageGap>)
    requires
        a.is_prefix_of(b),
        b.is_prefix_of(c),
    ensures
        a.is_prefix_of(c),
{
    assert forall|k: int| 0 <= k < a.len() implies a[k] == c.subrange(0, a.len() as int)[k] by {
        assert(a[k] == b.subrange(0, a.len() as int)[k]);
        assert(b[k] == c.subrange(0, b.len() as int)[k]);
    }
    assert(a =~= c.subrange(0, a.len() as int));
}

/// Every hole that the search reports is real and lies inside `root`, and
/// the holes found before are kept in front.
pub proof fn lemma_gap_search_sound(
    b: ClimateBox,
    cands: Seq<BiomeEntry>,
    fixed: CellSample,
    acc: Seq<CoverageGap>,
    depth: int,
    max: int,
    root: ClimateBox,
)
    requires
        valid_box(b),
        bounded_box(b),
        box_within(b, root),
        all_genuine(acc, cands, fixed, root),
    ensures
        all_genuine(gap_search(b, cands, fixed, acc, depth, max), cands, fixed, root),
        acc.is_prefix_of(gap_search(b, cands, fixed, acc, depth, max)),
    decreases levels_left(depth), 1int, 0int,
{
    let result = gap_search(b, cands, fixed, acc, depth, max);
    if acc.len() >= max || some_covers(cands, b, fixed) {
        assert(acc =~= result.subrange(0, acc.len() as int));
    } else {
        let inter = meeting(cands, b, fixed, cands.len() as int);
        if inter.len() == 0 {
            let g = CoverageGap { domain: b, probe: GapProbe::WholeBox };
            assert forall|s: CellSample| in_box(b, s) && agrees_off_climate(s, fixed) implies !#[trigger] matched_by_some(
                cands,
                s,
            ) by {
                lemma_unmatched_in_box(cands, b, fixed, s);
            }
            assert(genuine_gap(g, cands, fixed, root));
            assert forall|k: int| 0 <= k < result.len() implies genuine_gap(#[trigger] result[k], cands, fixed, root) by {
                if k < acc.len() {
                    assert(result[k] == acc[k]);
                }
            }
            assert(acc =~= result.subrange(0, acc.len() as int));
        } else {
            let (axis, cuts) = best_split(inter, b);
            if cuts.len() == 0 || depth > MAX_SPLIT_DEPTH {
                let vol = box_volume(b);
                if vol <= PROBE_VOLUME {
                    lemma_volume_nonneg(b, 0, 1);
                    if vol >= 1 {
                        lemma_volume_positive(b, 0, 1);
                    }
                    lemma_probe_points_sound(b, cands, fixed, 0, vol, acc, max, root);
                } else {
                    let s = midpoint_sample(b, fixed);
                    if !matched_by_some(inter, s) {
                        lemma_midpoint_in_box(b, fixed);
                        lemma_unmatched_in_box(cands, b, fixed, s);
                        let g = CoverageGap { domain: b, probe: GapProbe::Midpoint(climate_of(s)) };
                        assert(sample_with(climate_of(s), fixed) == s);
                        assert(genuine_gap(g, cands, fixed, root));
                        assert forall|k: int| 0 <= k < result.len() implies genuine_gap(
                            #[trigger] result[k],
                            cands,
                            fixed,
                            root,
                        ) by {
                            if k < acc.len() {
                                assert(result[k] == acc[k]);
                            }
                        }
                    }
                    assert(acc =~= result.subrange(0, acc.len() as int));
                }
            } else {
                let d = box_axis(b, axis);
                lemma_best_split_cuts(inter, b, 0, (0, Seq::empty()));
                lemma_axis_cuts_range(inter, b, axis, inter.len() as int);
                assert(-BOX_LIMIT <= d.lo <= BOX_LIMIT && -BOX_LIMIT <= d.hi <= BOX_LIMIT);
                lemma_split_segments_inside(d.lo as int, d.hi as int, cuts, 0, d.lo as int);
                lemma_search_pieces_sound(
                    b,
                    axis,
                    split_segments(d.lo as int, d.hi as int, cuts, 0),
                    0,
                    cands,
                    fixed,
                    acc,
                    depth,
                    max,
                    root,
                );
            }
        }
    }
}

/// The pieces searched from piece `i` on report only real holes.
proof fn lemma_search_pieces_sound(
    b: ClimateBox,
    axis: int,
    segs: Seq<(i64, i64)>,
    i: int,
    cands: Seq<BiomeEntry>,
    fixed: CellSample,
    acc: Seq<CoverageGap>,
    depth: int,
    max: int,
    root: ClimateBox,
)
    requires
        0 <= axis < 5,
        0 <= i,
        valid_box(b),
        bounded_box(b),
        box_within(b, root),
        forall|k: int|
            0 <= k < segs.len() ==> box_axis(b, axis).lo <= (#[trigger] segs[k]).0 <= segs[k].1
                <= box_axis(b, axis).hi,
        all_genuine(acc, cands, fixed, root),
    ensures
        all_genuine(search_pieces(b, axis, segs, i, cands, fixed, acc, depth, max), cands, fixed, root),
        acc.is_prefix_of(search_pieces(b, axis, segs, i, cands, fixed, acc, depth, max)),
    decreases levels_left(depth), 0int, segs.len() - i,
{
    let result = search_pieces(b, axis, segs, i, cands, fixed, acc, depth, max);
    if i >= segs.len() || depth > MAX_SPLIT_DEPTH || depth < 0 || acc.len() >= max {
        assert(acc =~= result.subrange(0, acc.len() as int));
    } else {
        let iv = Interval { lo: segs[i].0, hi: segs[i].1 };
        let child = with_box_axis(b, axis, iv);
        assert(box_axis(b, axis).lo <= segs[i].0 <= segs[i].1 <= box_axis(b, axis).hi);
        assert forall|j: int| 0 <= j < 5 implies valid_interval(#[trigger] box_axis(child, j)) by {
            assert(valid_interval(box_axis(b, j)));
        }
        assert forall|j: int|
            0 <= j < 5 implies -BOX_LIMIT <= (#[trigger] box_axis(child, j)).lo <= BOX_LIMIT && -BOX_LIMIT
                <= box_axis(child, j).hi <= BOX_LIMIT by {
            assert(-BOX_LIMIT <= box_axis(b, j).lo <= BOX_LIMIT && -BOX_LIMIT <= box_axis(b, j).hi
                <= BOX_LIMIT);
        }
        assert forall|j: int|
            0 <= j < 5 implies box_axis(root, j).lo <= (#[trigger] box_axis(child, j)).lo && box_axis(
            child,
            j,
        ).hi <= box_axis(root, j).hi by {
            assert(box_axis(root, j).lo <= box_axis(b, j).lo && box_axis(b, j).hi <= box_axis(root, j).hi);
        }
        lemma_gap_search_sound(child, cands, fixed, acc, depth + 1, max, root);
        let acc2 = gap_search(child, cands, fixed, acc, depth + 1, max);
        lemma_search_pieces_sound(b, axis, segs, i + 1, cands, fixed, acc2, depth, max, root);
        lemma_prefix_trans(acc, acc2, result);
    }
}

/// Some interval of the list holds `v`.
pub open spec fn covers(ivs: Seq<Interval>, v: int) -> bool {
    exists|k: int| 0 <= k < ivs.len() && #[trigger] ivs[k].lo <= v && v <= ivs[k].hi
}

/// Every interval of the list is valid.
pub open spec fn all_valid(ivs: Seq<Interval>) -> bool {
    forall|k: int| 0 <= k < ivs.len() ==> valid_interval(#[trigger] ivs[k])
}

/// Intervals in increasing order with at least one uncovered value between
/// neighbours: the unique listing of a set of integers as maximal runs.
pub open spec fn canonical(ivs: Seq<Interval>) -> bool {
    &&& all_valid(ivs)
    &&& forall|k: int| 0 <= k < ivs.len() - 1 ==> #[trigger] ivs[k].hi + 1 < ivs[k + 1].lo
}

/// Ordered by lower bound.
pub open spec fn sorted_by_lo(ivs: Seq<Interval>) -> bool {
    forall|a: int, b: int| 0 <= a < b < ivs.len() ==> ivs[a].lo <= ivs[b].lo
}

proof fn lemma_covers_insert(s: Seq<Interval>, p: int, x: Interval, v: int)
    requires
        0 <= p <= s.len(),
    ensures
        covers(s.insert(p, x), v) == (covers(s, v) || (x.lo <= v <= x.hi)),
{
    let t = s.insert(p, x);
    if covers(t, v) {
        let k = choose|k: int| 0 <= k < t.len() && #[trigger] t[k].lo <= v && v <= t[k].hi;
        if k < p {
            assert(t[k] == s[k]);
        } else if k > p {
            assert(t[k] == s[k - 1]);
        }
    }
    if covers(s, v) {
        let k = choose|k: int| 0 <= k < s.len() && #[trigger] s[k].lo <= v && v <= s[k].hi;
        if k < p {
            assert(t[k] == s[k]);
        } else {
            assert(t[k + 1] == s[k]);
        }
    }
    if x.lo <= v <= x.hi {
        assert(t[p] == x);
    }
}

proof fn lemma_covers_push(s: Seq<Interval>, x: Interval, v: int)
    ensures
        covers(s.push(x), v) == (covers(s, v) || (x.lo <= v <= x.hi)),
{
    assert(s.push(x) =~= s.insert(s.len() as int, x));
    lemma_covers_insert(s, s.len() as int, x, v);
}

fn sort_by_lo(ivs: &Vec<Interval>) -> (r: Vec<Interval>)
    requires
        all_valid(ivs@),
    ensures
        sorted_by_lo(r@),
        all_valid(r@),
        forall|v: int| covers(r@, v) == covers(ivs@, v),
        r.len() == ivs.len(),
{
    let mut sorted: Vec<Interval> = Vec::new();
    let mut i: usize = 0;
    while i < ivs.len()
        invariant
            i <= ivs.len(),
            all_valid(ivs@),
            sorted.len() == i,
            sorted_by_lo(sorted@),
            all_valid(sorted@),
            forall|v: int| covers(sorted@, v) == covers(ivs@.take(i as int), v),
        decreases ivs.len() - i,
    {
        let x = ivs[i];
        let mut p: usize = 0;
        while p < sorted.len() && sorted[p].lo <= x.lo
            invariant
                p <= sorted.len(),
                forall|q: int| 0 <= q < p ==> sorted@[q].lo <= x.lo,
            decreases sorted.len() - p,
        {
            p = p + 1;
        }
        let ghost before = sorted@;
        sorted.insert(p, x);
        proof {
            assert(sorted@ == before.insert(p as int, x));
            assert(ivs@.take(i as int).push(x) =~= ivs@.take(i + 1));
            assert forall|v: int| covers(sorted@, v) == covers(ivs@.take(i + 1), v) by {
                lemma_covers_insert(before, p as int, x, v);
                lemma_covers_push(ivs@.take(i as int), x, v);
                assert(covers(before, v) == covers(ivs@.take(i as int), v));
            }
            assert(valid_interval(ivs@[i as int]));
            assert forall|a: int, b: int| 0 <= a < b < sorted@.len() implies sorted@[a].lo <= sorted@[b].lo by {
                if a < p && b < p {
                    assert(sorted@[a] == before[a] && sorted@[b] == before[b]);
                } else if a < p && b == p {
                    assert(sorted@[a] == before[a]);
                } else if a < p {
                    assert(sorted@[a] == before[a] && sorted@[b] == before[b - 1]);
                } else if a == p {
                    assert(sorted@[b] == before[b - 1]);
                    assert(before[p as int].lo > x.lo);
                } else {
                    assert(sorted@[a] == before[a - 1] && sorted@[b] == before[b - 1]);
                }
            }
            assert forall|k: int| 0 <= k < sorted@.len() implies valid_interval(#[trigger] sorted@[k]) by {
                if k < p {
                    assert(sorted@[k] == before[k]);
                } else if k > p {
                    assert(sorted@[k] == before[k - 1]);
                }
            }
        }
        i = i + 1;
    }
    proof {
        assert(ivs@.take(ivs.len() as int) =~= ivs@);
    }
    sorted
}

/// Merges a list of valid intervals into its maximal runs: the result is
/// canonical and holds exactly the values the input holds (integer-adjacent
/// intervals such as `0..=15` and `16..=100` join).
pub fn merge_intervals(ivs: Vec<Interval>) -> (r: Vec<Interval>)
    requires
        all_valid(ivs@),
    ensures
        canonical(r@),
        forall|v: int| covers(r@, v) == covers(ivs@, v),
{
    if ivs.len() == 0 {
        return ivs;
    }
    let sorted = sort_by_lo(&ivs);
    let mut out: Vec<Interval> = vec![sorted[0]];
    let mut i: usize = 1;
    proof {
        assert(sorted@.take(1) =~= seq![sorted@[0]]);
        assert(valid_interval(sorted@[0]));
        assert forall|v: int| covers(out@, v) == covers(sorted@.take(1), v) by {
            if covers(out@, v) {
                assert(sorted@.take(1)[0] == out@[0]);
            }
            if covers(sorted@.take(1), v) {
                assert(out@[0] == sorted@.take(1)[0]);
            }
        }
    }
    while i < sorted.len()
        invariant
            1 <= i <= sorted.len(),
            sorted_by_lo(sorted@),
            all_valid(sorted@),
            out.len() >= 1,
            canonical(out@),
            forall|v: int| covers(out@, v) == covers(sorted@.take(i as int), v),
            forall|j: int| i <= j < sorted.len() ==> out@[out.len() - 1].lo <= #[trigger] sorted@[j].lo,
        decreases sorted.len() - i,
    {
        let iv = sorted[i];
        let n = out.len();
        let last = out[n - 1];
        assert(valid_interval(sorted@[i as int]));
        let ghost before = out@;
        proof {
            assert(sorted@.take(i as int).push(iv) =~= sorted@.take(i + 1));
            assert forall|v: int| covers(sorted@.take(i + 1), v) == (covers(sorted@.take(i as int), v) || (
            iv.lo <= v <= iv.hi)) by {
                lemma_covers_push(sorted@.take(i as int), iv, v);
            }
        }
        let touches = iv.lo <= last.hi || (last.hi < i64::MAX && iv.lo == last.hi + 1);
        if touches {
            let hi = if last.hi >= iv.hi {
                last.hi
            } else {
                iv.hi
            };
            out.set(n - 1, Interval { lo: last.lo, hi });
            proof {
                assert(last.lo <= iv.lo);
                assert forall|v: int| covers(out@, v) == covers(sorted@.take(i + 1), v) by {
                    if covers(out@, v) {
                        let k = choose|k: int| 0 <= k < out@.len() && #[trigger] out@[k].lo <= v && v <= out@[k].hi;
                        if k < n - 1 {
                            assert(out@[k] == before[k]);
                        } else if v <= last.hi {
                            assert(before[n - 1] == last);
                        }
                    }
                    if covers(before, v) {
                        let k = choose|k: int| 0 <= k < before.len() && #[trigger] before[k].lo <= v && v <= before[k].hi;
                        if k < n - 1 {
                            assert(out@[k] == before[k]);
                        } else {
                            assert(out@[n - 1].lo <= v <= out@[n - 1].hi);
                        }
                    }
                    if iv.lo <= v <= iv.hi {
                        assert(out@[n - 1].lo <= v <= out@[n - 1].hi);
                    }
                }
                assert forall|k: int| 0 <= k < out@.len() implies valid_interval(#[trigger] out@[k]) by {
                    if k < n - 1 {
                        assert(out@[k] == before[k]);
                    }
                }
                assert forall|k: int| 0 <= k < out@.len() - 1 implies #[trigger] out@[k].hi + 1 < out@[k + 1].lo by {
                    assert(out@[k] == before[k]);
                    if k + 1 < n - 1 {
                        assert(out@[k + 1] == before[k + 1]);
                    }
                }
            }
        } else {
            out.push(iv);
            proof {
                assert forall|v: int| covers(out@, v) == covers(sorted@.take(i + 1), v) by {
                    lemma_covers_push(before, iv, v);
                    assert(covers(before, v) == covers(sorted@.take(i as int), v));
                }
                assert forall|k: int| 0 <= k < out@.len() implies valid_interval(#[trigger] out@[k]) by {
                    if k < n {
                        assert(out@[k] == before[k]);
                    }
                }
                assert forall|k: int| 0 <= k < out@.len() - 1 implies #[trigger] out@[k].hi + 1 < out@[k + 1].lo by {
                    assert(out@[k] == before[k]);
                    if k + 1 < n {
                        assert(out@[k + 1] == before[k + 1]);
                    }
                }
                assert forall|j: int| i + 1 <= j < sorted.len() implies out@[out.len() - 1].lo <= #[trigger] sorted@[j].lo by {
                    assert(sorted@[i as int].lo <= sorted@[j].lo);
                }
            }
        }
        i = i + 1;
    }
    proof {
        assert(sorted@.take(sorted.len() as int) =~= sorted@);
    }
    out
}

/// In a canonical list every interval lies above all earlier ones, with a
/// gap between.
proof fn lemma_canonical_ordered(a: Seq<Interval>, j: int, k: int)
    requires
        canonical(a),
        0 <= j < k < a.len(),
    ensures
        a[j].hi + 1 < a[k].lo,
    decreases k - j,
{
    assert(a[k - 1].hi + 1 < a[k].lo);
    if j < k - 1 {
        lemma_canonical_ordered(a, j, k - 1);
        assert(valid_interval(a[k - 1]));
    }
}

/// A set of integers has only one canonical listing: two canonical lists
/// that hold the same values are equal.  So the result of `merge_intervals`
/// is determined by the values its input holds.
pub proof fn lemma_canonical_unique(a: Seq<Interval>, b: Seq<Interval>)
    requires
        canonical(a),
        canonical(b),
        forall|v: int| covers(a, v) == covers(b, v),
    ensures
        a == b,
    decreases a.len() + b.len(),
{
    if a.len() == 0 || b.len() == 0 {
        if a.len() > 0 {
            assert(valid_interval(a[0]));
            assert(covers(a, a[0].lo as int));
        }
        if b.len() > 0 {
            assert(valid_interval(b[0]));
            assert(covers(b, b[0].lo as int));
        }
        assert(a =~= b);
    } else {
        assert(valid_interval(a[0]) && valid_interval(b[0]));
        assert forall|k: int| 0 < k < a.len() implies a[0].hi + 1 < #[trigger] a[k].lo by {
            lemma_canonical_ordered(a, 0, k);
        }
        assert forall|k: int| 0 < k < b.len() implies b[0].hi + 1 < #[trigger] b[k].lo by {
            lemma_canonical_ordered(b, 0, k);
        }
        // the lowest value held
        assert(covers(a, a[0].lo as int));
        assert(covers(b, b[0].lo as int));
        if a[0].lo < b[0].lo {
            let kb = choose|k: int| 0 <= k < b.len() && #[trigger] b[k].lo <= a[0].lo && a[0].lo <= b[k].hi;
            assert(false);
        }
        if b[0].lo < a[0].lo {
            let ka = choose|k: int| 0 <= k < a.len() && #[trigger] a[k].lo <= b[0].lo && b[0].lo <= a[k].hi;
            assert(false);
        }
        // the end of the first run
        if a[0].hi < b[0].hi {
            let v = a[0].hi + 1;
            assert(covers(b, v)) by {
                assert(b[0].lo <= v <= b[0].hi);
            }
            if covers(a, v) {
                let ka = choose|k: int| 0 <= k < a.len() && #[trigger] a[k].lo <= v && v <= a[k].hi;
                assert(false);
            }
        }
        if b[0].hi < a[0].hi {
            let v = b[0].hi + 1;
            assert(covers(a, v)) by {
                assert(a[0].lo <= v <= a[0].hi);
            }
            if covers(b, v) {
                let kb = choose|k: int| 0 <= k < b.len() && #[trigger] b[k].lo <= v && v <= b[k].hi;
                assert(false);
            }
        }
        assert(a[0] == b[0]);
        let ta = a.drop_first();
        let tb = b.drop_first();
        assert forall|k: int| 0 <= k < ta.len() implies valid_interval(#[trigger] ta[k]) by {
            assert(ta[k] == a[k + 1]);
        }
        assert forall|k: int| 0 <= k < ta.len() - 1 implies #[trigger] ta[k].hi + 1 < ta[k + 1].lo by {
            assert(ta[k] == a[k + 1] && ta[k + 1] == a[k + 2]);
        }
        assert forall|k: int| 0 <= k < tb.len() implies valid_interval(#[trigger] tb[k]) by {
            assert(tb[k] == b[k + 1]);
        }
        assert forall|k: int| 0 <= k < tb.len() - 1 implies #[trigger] tb[k].hi + 1 < tb[k + 1].lo by {
            assert(tb[k] == b[k + 1] && tb[k + 1] == b[k + 2]);
        }
        assert forall|v: int| covers(ta, v) == covers(tb, v) by {
            if covers(ta, v) {
                let k = choose|k: int| 0 <= k < ta.len() && #[trigger] ta[k].lo <= v && v <= ta[k].hi;
                assert(a[k + 1] == ta[k]);
                assert(covers(a, v));
                let kb = choose|k: int| 0 <= k < b.len() && #[trigger] b[k].lo <= v && v <= b[k].hi;
                assert(kb != 0);
                assert(tb[kb - 1] == b[kb]);
            }
            if covers(tb, v) {
                let k = choose|k: int| 0 <= k < tb.len() && #[trigger] tb[k].lo <= v && v <= tb[k].hi;
                assert(b[k + 1] == tb[k]);
                assert(covers(b, v));
                let ka = choose|k: int| 0 <= k < a.len() && #[trigger] a[k].lo <= v && v <= a[k].hi;
                assert(ka != 0);
                assert(ta[ka - 1] == a[ka]);
            }
        }
        lemma_canonical_unique(ta, tb);
        assert(a =~= seq![a[0]] + ta);
        assert(b =~= seq![b[0]] + tb);
    }
}

/// The last gap of the sweep: from the cursor to the domain's upper bound,
/// unless the cursor reached it or (on an integer axis) lies right below it.
pub open spec fn trailing_gap(domain: Interval, integer_axis: bool, cursor: i64, gaps: Seq<Interval>) -> Seq<
    Interval,
> {
    if cursor < domain.hi && !(integer_axis && domain.hi == cursor + 1) {
        gaps.push(Interval { lo: cursor, hi: domain.hi })
    } else {
        gaps
    }
}

/// The gaps of a sweep over the covered intervals from position `k` on, with
/// the covered part of the domain reaching up to `cursor`: an interval that
/// starts above the cursor leaves the gap `(cursor, start)`, except that on an
/// integer axis a start right above the cursor counts as continuous.
pub open spec fn sweep_gaps(
    domain: Interval,
    covered: Seq<Interval>,
    integer_axis: bool,
    k: int,
    cursor: i64,
    gaps: Seq<Interval>,
) -> Seq<Interval>
    decreases covered.len() - k,
{
    if k < 0 || k >= covered.len() {
        trailing_gap(domain, integer_axis, cursor, gaps)
    } else {
        let clo = max_i64(covered[k].lo, domain.lo);
        let chi = min_i64(covered[k].hi, domain.hi);
        if clo > chi {
            sweep_gaps(domain, covered, integer_axis, k + 1, cursor, gaps)
        } else {
            let gaps2 = if clo > cursor && !(integer_axis && clo == cursor + 1) {
                gaps.push(Interval { lo: cursor, hi: clo })
            } else {
                gaps
            };
            let c2 = max_i64(cursor, chi);
            if c2 >= domain.hi {
                trailing_gap(domain, integer_axis, c2, gaps2)
            } else {
                sweep_gaps(domain, covered, integer_axis, k + 1, c2, gaps2)
            }
        }
    }
}

/// The gaps that a sweep over `covered` leaves in `domain`.
pub open spec fn coverage_gap_list(domain: Interval, covered: Seq<Interval>, integer_axis: bool) -> Seq<
    Interval,
> {
    sweep_gaps(domain, covered, integer_axis, 0, domain.lo, Seq::empty())
}

/// The gaps that the intervals `covered` (ordered by lower bound) leave in
/// `domain`, each reported as `(end of the covered part, start of the next)`;
/// on an integer axis a covered part that resumes one step above counts as
/// continuous.
pub fn coverage_gaps(domain: Interval, covered: &Vec<Interval>, integer_axis: bool) -> (r: Vec<Interval>)
    ensures
        r@ == coverage_gap_list(domain, covered@, integer_axis),
{
    let mut gaps: Vec<Interval> = Vec::new();
    let mut cursor = domain.lo;
    let mut k: usize = 0;
    while k < covered.len()
        invariant
            k <= covered.len(),
            sweep_gaps(domain, covered@, integer_axis, k as int, cursor, gaps@) == coverage_gap_list(
                domain,
                covered@,
                integer_axis,
            ),
        decreases covered.len() - k,
    {
        let iv = covered[k];
        let clo = if iv.lo >= domain.lo {
            iv.lo
        } else {
            domain.lo
        };
        let chi = if iv.hi <= domain.hi {
            iv.hi
        } else {
            domain.hi
        };
        if clo <= chi {
            if clo > cursor {
                let adjacent_ints = integer_axis && cursor < i64::MAX && clo == cursor + 1;
                if !adjacent_ints {
                    gaps.push(Interval { lo: cursor, hi: clo });
                }
            }
            if chi > cursor {
                cursor = chi;
            }
            if cursor >= domain.hi {
                return gaps;
            }
        }
        k = k + 1;
    }
    if cursor < domain.hi {
        let trailing_ok = integer_axis && domain.hi == cursor + 1;
        if !trailing_ok {
            gaps.push(Interval { lo: cursor, hi: domain.hi });
        }
    }
    gaps
}

/// The expected domain of each axis for the per-axis coverage check.
pub open spec fn expected_domain_of(axis: int) -> Interval {
    if axis == 0 {
        Interval { lo: 0, hi: 100 }
    } else if axis == 1 {
        Interval { lo: -100 as i64, hi: 100 }
    } else if axis == 2 || axis == 3 || axis == 5 || axis == 6 {
        Interval { lo: 0, hi: 100 }
    } else if axis == 4 {
        Interval { lo: -20 as i64, hi: 60 }
    } else {
        Interval { lo: 0, hi: UNBOUNDED_HI }
    }
}

/// The expected domain of axis `axis` (`0..9`).
pub fn expected_domain(axis: usize) -> (r: Interval)
    ensures
        r == expected_domain_of(axis as int),
{
    if axis == 0 {
        Interval { lo: 0, hi: 100 }
    } else if axis == 1 {
        Interval { lo: -100, hi: 100 }
    } else if axis == 2 || axis == 3 || axis == 5 || axis == 6 {
        Interval { lo: 0, hi: 100 }
    } else if axis == 4 {
        Interval { lo: -20, hi: 60 }
    } else {
        Interval { lo: 0, hi: UNBOUNDED_HI }
    }
}

/// The valid intervals on `axis` of the first `n` entries, in order.
pub open spec fn valid_axis_intervals(entries: Seq<BiomeEntry>, axis: int, n: int) -> Seq<Interval>
    decreases n,
{
    if n <= 0 {
        Seq::empty()
    } else {
        let prev = valid_axis_intervals(entries, axis, n - 1);
        let iv = intervals_seq(entries[n - 1].params)[axis];
        if valid_interval(iv) {
            prev.push(iv)
        } else {
            prev
        }
    }
}

proof fn lemma_valid_axis_intervals_valid(entries: Seq<BiomeEntry>, axis: int, n: int)
    ensures
        all_valid(valid_axis_intervals(entries, axis, n)),
    decreases n,
{
    if n > 0 {
        lemma_valid_axis_intervals_valid(entries, axis, n - 1);
    }
}

/// The gaps of axis `axis` (`0..9`): the valid intervals of all entries on
/// that axis, merged into maximal runs, swept over the axis' expected domain;
/// the first seven axes are integer axes.
pub fn axis_coverage_gaps(entries: &Vec<BiomeEntry>, axis: usize) -> (r: Vec<Interval>)
    requires
        axis < 9,
    ensures
        exists|merged: Seq<Interval>|
            {
                &&& canonical(merged)
                &&& forall|v: int|
                    covers(merged, v) == covers(
                        valid_axis_intervals(entries@, axis as int, entries.len() as int),
                        v,
                    )
                &&& r@ == coverage_gap_list(expected_domain_of(axis as int), merged, axis <= 6)
            },
        r.len() == 0 ==> forall|v: int|
            expected_domain_of(axis as int).lo < v < expected_domain_of(axis as int).hi ==> covers(
                valid_axis_intervals(entries@, axis as int, entries.len() as int),
                v,
            ),
        (forall|v: int|
            expected_domain_of(axis as int).lo <= v <= expected_domain_of(axis as int).hi ==> covers(
                valid_axis_intervals(entries@, axis as int, entries.len() as int),
                v,
            )) ==> r.len() == 0,
{
    let mut ivs: Vec<Interval> = Vec::new();
    let mut j: usize = 0;
    while j < entries.len()
        invariant
            axis < 9,
            j <= entries.len(),
            ivs@ == valid_axis_intervals(entries@, axis as int, j as int),
        decreases entries.len() - j,
    {
        let iv = intervals_of(&entries[j].params)[axis];
        if interval_valid(iv) {
            ivs.push(iv);
        }
        j = j + 1;
    }
    proof {
        lemma_valid_axis_intervals_valid(entries@, axis as int, entries.len() as int);
    }
    let ghost all_ivs = ivs@;
    let merged = merge_intervals(ivs);
    let domain = expected_domain(axis);
    let r = coverage_gaps(domain, &merged, axis <= 6);
    proof {
        lemma_no_gaps_means_covered(domain, merged@, axis <= 6);
        if forall|v: int| domain.lo <= v <= domain.hi ==> covers(all_ivs, v) {
            assert forall|v: int| domain.lo <= v <= domain.hi implies covers(merged@, v) by {
                assert(covers(all_ivs, v));
            }
            lemma_covered_means_no_gaps(domain, merged@, axis <= 6);
        }
        assert forall|v: int| domain.lo < v < domain.hi && r.len() == 0 implies covers(all_ivs, v) by {
            assert(covers(merged@, v));
        }
    }
    r
}

/// An entry of `entries` with an invalid interval on an axis.
pub open spec fn invalid_at(entries: Seq<BiomeEntry>, i: int, axis: int) -> bool {
    !valid_interval(intervals_seq(entries[i].params)[axis])
}

/// Every invalid interval of the table as `(entry position, axis)`, by entry
/// and then by axis.
pub fn invalid_intervals(entries: &Vec<BiomeEntry>) -> (r: Vec<(usize, usize)>)
    ensures
        forall|t: int|
            0 <= t < r.len() ==> (#[trigger] r[t]).0 < entries.len() && r[t].1 < 9 && invalid_at(
                entries@,
                r[t].0 as int,
                r[t].1 as int,
            ),
        forall|t1: int, t2: int|
            0 <= t1 < t2 < r.len() ==> 9 * r[t1].0 + r[t1].1 < 9 * r[t2].0 + r[t2].1,
        forall|i: int, axis: int|
            0 <= i < entries.len() && 0 <= axis < 9 && invalid_at(entries@, i, axis) ==> exists|t: int|
                0 <= t < r.len() && #[trigger] r[t] == (i as usize, axis as usize),
{
    let mut bad: Vec<(usize, usize)> = Vec::new();
    let mut i: usize = 0;
    while i < entries.len()
        invariant
            i <= entries.len(),
            forall|t: int|
                0 <= t < bad.len() ==> (#[trigger] bad[t]).0 < i && bad[t].1 < 9 && invalid_at(
                    entries@,
                    bad[t].0 as int,
                    bad[t].1 as int,
                ),
            forall|t1: int, t2: int|
                0 <= t1 < t2 < bad.len() ==> 9 * bad[t1].0 + bad[t1].1 < 9 * bad[t2].0 + bad[t2].1,
            forall|e: int, axis: int|
                0 <= e < i && 0 <= axis < 9 && invalid_at(entries@, e, axis) ==> exists|t: int|
                    0 <= t < bad.len() && #[trigger] bad[t] == (e as usize, axis as usize),
        decreases entries.len() - i,
    {
        let ivs = intervals_of(&entries[i].params);
        let mut axis: usize = 0;
        while axis < 9
            invariant
                i < entries.len(),
                axis <= 9,
                ivs@ == intervals_seq(entries@[i as int].params),
                forall|t: int|
                    0 <= t < bad.len() ==> (#[trigger] bad[t]).0 <= i && bad[t].1 < 9 && (bad[t].0 == i
                        ==> bad[t].1 < axis) && invalid_at(entries@, bad[t].0 as int, bad[t].1 as int),
                forall|t1: int, t2: int|
                    0 <= t1 < t2 < bad.len() ==> 9 * bad[t1].0 + bad[t1].1 < 9 * bad[t2].0 + bad[t2].1,
                forall|e: int, ax: int|
                    (0 <= e < i && 0 <= ax < 9 || e == i && 0 <= ax < axis) && invalid_at(entries@, e, ax)
                        ==> exists|t: int| 0 <= t < bad.len() && #[trigger] bad[t] == (e as usize, ax as usize),
            decreases 9 - axis,
        {
            if !interval_valid(ivs[axis]) {
                let ghost before = bad@;
                bad.push((i, axis));
                proof {
                    assert forall|e: int, ax: int|
                        (0 <= e < i && 0 <= ax < 9 || e == i && 0 <= ax < axis + 1) && invalid_at(
                            entries@,
                            e,
                            ax,
                        ) implies exists|t: int|
                        0 <= t < bad.len() && #[trigger] bad[t] == (e as usize, ax as usize) by {
                        if e == i && ax == axis {
                            assert(bad[before.len() as int] == (e as usize, ax as usize));
                        } else {
                            let t = choose|t: int| 0 <= t < before.len() && #[trigger] before[t] == (e as usize, ax as usize);
                            assert(bad[t] == before[t]);
                        }
                    }
                }
            }
            axis = axis + 1;
        }
        i = i + 1;
    }
    bad
}

/// A pair of overlapping entries: their positions (`first < second`),
/// whether both are deterministic (an unwanted overlap) and whether they are
/// variants of one base biome.
#[derive(Clone, Copy, Debug, PartialEq, Eq, Structural)]
pub struct OverlapPair {
    pub first: usize,
    pub second: usize,
    pub both_deterministic: bool,
    pub same_family: bool,
}

/// The overlap record of entries `i < j`.
pub open spec fn overlap_pair(entries: Seq<BiomeEntry>, i: int, j: int) -> OverlapPair {
    OverlapPair {
        first: i as usize,
        second: j as usize,
        both_deterministic: entries[i].params.weight == DETERMINISTIC && entries[j].params.weight
            == DETERMINISTIC,
        same_family: family_of(entries[i].biome) == family_of(entries[j].biome),
    }
}

/// Position of pair `(i, j)` in the order of the scan.
pub open spec fn pair_rank(n: int, i: int, j: int) -> int {
    i * n + j
}

/// Every pair of entries whose boxes overlap, in scan order (by first, then
/// second position).
pub fn find_overlaps(entries: &Vec<BiomeEntry>) -> (r: Vec<OverlapPair>)
    requires
        entries.len() * entries.len() <= usize::MAX,
    ensures
        forall|t: int|
            0 <= t < r.len() ==> (#[trigger] r[t]).first < r[t].second < entries.len() && boxes_overlap(
                entries[r[t].first as int].params,
                entries[r[t].second as int].params,
            ) && r[t] == overlap_pair(entries@, r[t].first as int, r[t].second as int),
        forall|t: int|
            0 <= t < r.len() ==> ((#[trigger] r[t]).both_deterministic <==> (entries[r[t].first as int].params.weight
                == DETERMINISTIC && entries[r[t].second as int].params.weight == DETERMINISTIC)),
        forall|t1: int, t2: int|
            0 <= t1 < t2 < r.len() ==> pair_rank(entries.len() as int, r[t1].first as int, r[t1].second as int)
                < pair_rank(entries.len() as int, r[t2].first as int, r[t2].second as int),
        forall|i: int, j: int|
            0 <= i < j < entries.len() && boxes_overlap(entries[i].params, entries[j].params) ==> exists|t: int|
                0 <= t < r.len() && #[trigger] r[t] == overlap_pair(entries@, i, j),
{
    let n = entries.len();
    let mut pairs: Vec<OverlapPair> = Vec::new();
    let mut i: usize = 0;
    while i < n
        invariant
            n == entries.len(),
            i <= n,
            forall|t: int|
                0 <= t < pairs.len() ==> (#[trigger] pairs[t]).first < i && pairs[t].first < pairs[t].second < n
                    && boxes_overlap(entries[pairs[t].first as int].params, entries[pairs[t].second as int].params)
                    && pairs[t] == overlap_pair(entries@, pairs[t].first as int, pairs[t].second as int),
            forall|t1: int, t2: int|
                0 <= t1 < t2 < pairs.len() ==> pair_rank(n as int, pairs[t1].first as int, pairs[t1].second as int)
                    < pair_rank(n as int, pairs[t2].first as int, pairs[t2].second as int),
            forall|a: int, b: int|
                0 <= a < i && a < b < n && boxes_overlap(entries[a].params, entries[b].params) ==> exists|t: int|
                    0 <= t < pairs.len() && #[trigger] pairs[t] == overlap_pair(entries@, a, b),
        decreases n - i,
    {
        let mut j: usize = i + 1;
        while j < n
            invariant
                n == entries.len(),
                i < n,
                i + 1 <= j <= n,
                forall|t: int|
                    0 <= t < pairs.len() ==> (#[trigger] pairs[t]).first <= i && pairs[t].first < pairs[t].second < n
                        && (pairs[t].first == i ==> pairs[t].second < j) && boxes_overlap(
                        entries[pairs[t].first as int].params,
                        entries[pairs[t].second as int].params,
                    ) && pairs[t] == overlap_pair(entries@, pairs[t].first as int, pairs[t].second as int),
                forall|t1: int, t2: int|
                    0 <= t1 < t2 < pairs.len() ==> pair_rank(n as int, pairs[t1].first as int, pairs[t1].second as int)
                        < pair_rank(n as int, pairs[t2].first as int, pairs[t2].second as int),
                forall|a: int, b: int|
                    (0 <= a < i && a < b < n || a == i && i < b < j) && boxes_overlap(
                        entries[a].params,
                        entries[b].params,
                    ) ==> exists|t: int| 0 <= t < pairs.len() && #[trigger] pairs[t] == overlap_pair(entries@, a, b),
            decreases n - j,
        {
            let a = &entries[i];
            let b = &entries[j];
            if hyperrects_overlap(&a.params, &b.params) {
                let both_det = is_deterministic(&a.params) && is_deterministic(&b.params);
                let same_family = a.biome.family() == b.biome.family();
                let ghost before = pairs@;
                let pair = OverlapPair { first: i, second: j, both_deterministic: both_det, same_family };
                proof {
                    assert forall|t: int| 0 <= t < before.len() implies pair_rank(
                        n as int,
                        before[t].first as int,
                        before[t].second as int,
                    ) < pair_rank(n as int, i as int, j as int) by {
                        let f = before[t].first as int;
                        let sc = before[t].second as int;
                        if f < i {
                            assert(f * n + sc < (f + 1) * n) by (nonlinear_arith)
                                requires
                                    sc < n,
                            ;
                            assert((f + 1) * n <= i * n) by (nonlinear_arith)
                                requires
                                    f + 1 <= i,
                                    n >= 0,
                            ;
                        }
                    }
                }
                pairs.push(pair);
                proof {
                    assert forall|x: int, y: int|
                        (0 <= x < i && x < y < n || x == i && i < y < j + 1) && boxes_overlap(
                            entries[x].params,
                            entries[y].params,
                        ) implies exists|t: int|
                        0 <= t < pairs.len() && #[trigger] pairs[t] == overlap_pair(entries@, x, y) by {
                        if x == i && y == j {
                            assert(pairs[before.len() as int] == overlap_pair(entries@, x, y));
                        } else {
                            let t = choose|t: int| 0 <= t < before.len() && #[trigger] before[t] == overlap_pair(entries@, x, y);
                            assert(pairs[t] == before[t]);
                        }
                    }
                }
            }
            j = j + 1;
        }
        i = i + 1;
    }
    pairs
}

/// The classes whose joint climate coverage is checked.
#[derive(Clone, Copy, Debug, PartialEq, Eq, Structural)]
pub enum CoverageClass {
    Land,
    Ocean,
    InlandWater,
}

/// The entry belongs to the class.
pub open spec fn in_class(e: BiomeEntry, class: CoverageClass) -> bool {
    let f = family_of(e.biome);
    match class {
        CoverageClass::Ocean => is_ocean_family(f),
        CoverageClass::InlandWater => is_inland_water_family(f),
        CoverageClass::Land => !is_ocean_family(f) && !is_inland_water_family(f),
    }
}

/// Whether the entry belongs to the class.
pub fn entry_in_class(e: &BiomeEntry, class: CoverageClass) -> (r: bool)
    ensures
        r == in_class(*e, class),
{
    match class {
        CoverageClass::Ocean => is_ocean_biome(e),
        CoverageClass::InlandWater => is_inland_water_biome(e),
        CoverageClass::Land => is_land_biome(e),
    }
}

/// The climate box over which a class must be covered.
pub open spec fn class_domain_of(class: CoverageClass) -> ClimateBox {
    match class {
        CoverageClass::Land => ClimateBox {
            height_diff: Interval { lo: 0, hi: 100 },
            height_pct: Interval { lo: 0, hi: 100 },
            moisture_pct: Interval { lo: 0, hi: 100 },
            rainfall_pct: Interval { lo: 0, hi: 100 },
            temp: Interval { lo: -20 as i64, hi: 60 },
        },
        _ => ClimateBox {
            height_diff: Interval { lo: 0, hi: 100 },
            height_pct: Interval { lo: -100 as i64, hi: 0 },
            moisture_pct: Interval { lo: 0, hi: 100 },
            rainfall_pct: Interval { lo: 0, hi: 100 },
            temp: Interval { lo: -25 as i64, hi: 100 },
        },
    }
}

/// The climate box over which a class must be covered: land heights from
/// the water line up, water heights below it (water temperatures reach lower).
pub fn class_domain(class: CoverageClass) -> (r: ClimateBox)
    ensures
        r == class_domain_of(class),
{
    match class {
        CoverageClass::Land => ClimateBox {
            height_diff: Interval { lo: 0, hi: 100 },
            height_pct: Interval { lo: 0, hi: 100 },
            moisture_pct: Interval { lo: 0, hi: 100 },
            rainfall_pct: Interval { lo: 0, hi: 100 },
            temp: Interval { lo: -20, hi: 60 },
        },
        _ => ClimateBox {
            height_diff: Interval { lo: 0, hi: 100 },
            height_pct: Interval { lo: -100, hi: 0 },
            moisture_pct: Interval { lo: 0, hi: 100 },
            rainfall_pct: Interval { lo: 0, hi: 100 },
            temp: Interval { lo: -25, hi: 100 },
        },
    }
}

/// The representative `(water body size, ocean distance)` points of a class:
/// the open ocean; pond or sinkhole, lagoon, great lagoon, lake and great
/// lake basins; the coastal band and inland.
pub open spec fn class_contexts_of(class: CoverageClass) -> Seq<(i64, i64)> {
    match class {
        CoverageClass::Ocean => seq![(1000i64, 0i64)],
        CoverageClass::InlandWater => seq![
            (8i64, 60i64),
            (100i64, 25i64),
            (350i64, 25i64),
            (100i64, 60i64),
            (350i64, 60i64),
        ],
        CoverageClass::Land => seq![(0i64, 2i64), (0i64, 10i64)],
    }
}

/// The representative `(water body size, ocean distance)` points of a class.
pub fn class_contexts(class: CoverageClass) -> (r: Vec<(i64, i64)>)
    ensures
        r@ == class_contexts_of(class),
{
    match class {
        CoverageClass::Ocean => vec![(1000, 0)],
        CoverageClass::InlandWater => vec![(8, 60), (100, 25), (350, 25), (100, 60), (350, 60)],
        CoverageClass::Land => vec![(0, 2), (0, 10)],
    }
}

/// The representative `(magic, chaos)` point of the part of the table that a
/// variant covers.
pub open spec fn slice_point_of(v: BiomeVariant) -> (i64, i64) {
    match v {
        BiomeVariant::Normal => (8, 8),
        BiomeVariant::Warped => (50, 50),
        BiomeVariant::Chaotic => (8, 50),
    }
}

/// The sample that fixes the non-climate axes: the variant's magic and chaos
/// point and the given water body size and ocean distance (climate axes 0).
pub open spec fn fixed_sample(v: BiomeVariant, water: i64, ocean_dist: i64) -> CellSample {
    CellSample {
        height_diff: 0,
        height_pct: 0,
        moisture_pct: 0,
        rainfall_pct: 0,
        temp: 0,
        magic_pct: slice_point_of(v).0,
        chaos_pct: slice_point_of(v).1,
        water_body_size: water,
        nearest_ocean_dist: ocean_dist,
    }
}

/// The sample that fixes the non-climate axes for a variant slice.
pub fn fixed_non_climate(v: BiomeVariant, water: i64, ocean_dist: i64) -> (r: CellSample)
    ensures
        r == fixed_sample(v, water, ocean_dist),
{
    let (magic_pct, chaos_pct) = match v {
        BiomeVariant::Normal => (8, 8),
        BiomeVariant::Warped => (50, 50),
        BiomeVariant::Chaotic => (8, 50),
    };
    CellSample {
        height_diff: 0,
        height_pct: 0,
        moisture_pct: 0,
        rainfall_pct: 0,
        temp: 0,
        magic_pct,
        chaos_pct,
        water_body_size: water,
        nearest_ocean_dist: ocean_dist,
    }
}

/// The entries of the class among the first `n`, in order.
pub open spec fn class_members(entries: Seq<BiomeEntry>, class: CoverageClass, n: int) -> Seq<BiomeEntry>
    decreases n,
{
    if n <= 0 {
        Seq::empty()
    } else {
        let prev = class_members(entries, class, n - 1);
        if in_class(entries[n - 1], class) {
            prev.push(entries[n - 1])
        } else {
            prev
        }
    }
}

/// The entries of a class, in order.
pub fn class_candidates(entries: &Vec<BiomeEntry>, class: CoverageClass) -> (r: Vec<BiomeEntry>)
    ensures
        r@ == class_members(entries@, class, entries.len() as int),
{
    let mut out: Vec<BiomeEntry> = Vec::new();
    let mut j: usize = 0;
    while j < entries.len()
        invariant
            j <= entries.len(),
            out@ == class_members(entries@, class, j as int),
        decreases entries.len() - j,
    {
        if entry_in_class(&entries[j], class) {
            out.push(entries[j]);
        }
        j = j + 1;
    }
    out
}

/// Most holes reported for one context and variant slice.
pub const MAX_REPORTED_GAPS: usize = 2000;

/// The variant of slice `k` (`0` normal, `1` warped, `2` chaotic).
pub open spec fn slice_variant(k: int) -> BiomeVariant {
    crate::assign_biome::variant_at(k)
}

/// The holes of the joint climate coverage of a class, one list per context
/// and variant slice (context-major): each is the search over the class
/// domain with the class' entries and that context's fixed sample.
pub fn joint_coverage_gaps(candidates: &Vec<BiomeEntry>, class: CoverageClass) -> (r: Vec<Vec<CoverageGap>>)
    ensures
        r.len() == 3 * class_contexts_of(class).len(),
        forall|c: int, k: int|
            0 <= c < class_contexts_of(class).len() && 0 <= k < 3 ==> (#[trigger] r[3 * c + k])@
                == gap_search(
                class_domain_of(class),
                candidates@,
                fixed_sample(slice_variant(k), class_contexts_of(class)[c].0, class_contexts_of(class)[c].1),
                Seq::empty(),
                0,
                MAX_REPORTED_GAPS as int,
            ),
{
    let domain = class_domain(class);
    let contexts = class_contexts(class);
    proof {
        assert(bounded_box(domain)) by {
            assert forall|i: int|
                0 <= i < 5 implies -BOX_LIMIT <= (#[trigger] box_axis(domain, i)).lo <= BOX_LIMIT && -BOX_LIMIT
                    <= box_axis(domain, i).hi <= BOX_LIMIT by {}
        }
    }
    let variants = [BiomeVariant::Normal, BiomeVariant::Warped, BiomeVariant::Chaotic];
    let mut results: Vec<Vec<CoverageGap>> = Vec::new();
    let mut c: usize = 0;
    while c < contexts.len()
        invariant
            c <= contexts.len(),
            contexts@ == class_contexts_of(class),
            domain == class_domain_of(class),
            bounded_box(domain),
            variants@ == seq![BiomeVariant::Normal, BiomeVariant::Warped, BiomeVariant::Chaotic],
            results.len() == 3 * c,
            forall|c2: int, k: int|
                0 <= c2 < c && 0 <= k < 3 ==> (#[trigger] results[3 * c2 + k])@ == gap_search(
                    class_domain_of(class),
                    candidates@,
                    fixed_sample(slice_variant(k), contexts@[c2].0, contexts@[c2].1),
                    Seq::empty(),
                    0,
                    MAX_REPORTED_GAPS as int,
                ),
        decreases contexts.len() - c,
    {
        let (water, ocean_dist) = contexts[c];
        let mut k: usize = 0;
        while k < 3
            invariant
                c < contexts.len(),
                k <= 3,
                contexts@ == class_contexts_of(class),
                (water, ocean_dist) == contexts@[c as int],
                domain == class_domain_of(class),
                bounded_box(domain),
                variants@ == seq![BiomeVariant::Normal, BiomeVariant::Warped, BiomeVariant::Chaotic],
                results.len() == 3 * c + k,
                forall|c2: int, k2: int|
                    (0 <= c2 < c && 0 <= k2 < 3 || c2 == c && 0 <= k2 < k) ==> (#[trigger] results[3 * c2
                        + k2])@ == gap_search(
                        class_domain_of(class),
                        candidates@,
                        fixed_sample(slice_variant(k2), contexts@[c2].0, contexts@[c2].1),
                        Seq::empty(),
                        0,
                        MAX_REPORTED_GAPS as int,
                    ),
            decreases 3 - k,
        {
            let fixed = fixed_non_climate(variants[k], water, ocean_dist);
            let mut gaps: Vec<CoverageGap> = Vec::new();
            find_coverage_gaps(&domain, candidates, &fixed, &mut gaps, 0, MAX_REPORTED_GAPS);
            assert(variants@[k as int] == slice_variant(k as int));
            results.push(gaps);
            k = k + 1;
        }
        c = c + 1;
    }
    results
}

/// The sweep from position `k` on only appends gaps, and when it ends with
/// none, every value strictly inside the domain is covered (on a non-integer
/// axis the lower bound too, and then the whole of a domain with `lo < hi`).
proof fn lemma_sweep_no_gaps(
    domain: Interval,
    covered: Seq<Interval>,
    integer_axis: bool,
    k: int,
    cursor: i64,
    gaps: Seq<Interval>,
)
    requires
        0 <= k,
        domain.lo <= cursor,
        gaps.len() == 0 ==> forall|v: int| domain.lo < v <= cursor ==> covers(covered, v),
        gaps.len() == 0 && !integer_axis && cursor > domain.lo ==> covers(covered, domain.lo as int),
    ensures
        sweep_gaps(domain, covered, integer_axis, k, cursor, gaps).len() >= gaps.len(),
        sweep_gaps(domain, covered, integer_axis, k, cursor, gaps).len() == 0 ==> forall|v: int|
            domain.lo < v < domain.hi ==> covers(covered, v),
        sweep_gaps(domain, covered, integer_axis, k, cursor, gaps).len() == 0 && !integer_axis && domain.lo
            < domain.hi ==> forall|v: int| domain.lo <= v <= domain.hi ==> covers(covered, v),
    decreases covered.len() - k,
{
    if k >= covered.len() {
    } else {
        let clo = max_i64(covered[k].lo, domain.lo);
        let chi = min_i64(covered[k].hi, domain.hi);
        if clo > chi {
            lemma_sweep_no_gaps(domain, covered, integer_axis, k + 1, cursor, gaps);
        } else {
            let pushed = clo > cursor && !(integer_axis && clo == cursor + 1);
            let gaps2 = if pushed {
                gaps.push(Interval { lo: cursor, hi: clo })
            } else {
                gaps
            };
            let c2 = max_i64(cursor, chi);
            if !pushed && gaps.len() == 0 {
                assert forall|v: int| domain.lo < v <= c2 implies covers(covered, v) by {
                    if v > cursor {
                        assert(covered[k].lo <= v <= covered[k].hi);
                    }
                }
                if !integer_axis && c2 > domain.lo && cursor == domain.lo {
                    assert(covered[k].lo <= domain.lo <= covered[k].hi);
                }
            }
            if c2 >= domain.hi {
            } else {
                lemma_sweep_no_gaps(domain, covered, integer_axis, k + 1, c2, gaps2);
            }
        }
    }
}

/// When the sweep reports no gap, every value strictly inside the domain is
/// covered; on a non-integer axis with `lo < hi` the whole domain is.
pub proof fn lemma_no_gaps_means_covered(domain: Interval, covered: Seq<Interval>, integer_axis: bool)
    ensures
        coverage_gap_list(domain, covered, integer_axis).len() == 0 ==> forall|v: int|
            domain.lo < v < domain.hi ==> covers(covered, v),
        coverage_gap_list(domain, covered, integer_axis).len() == 0 && !integer_axis && domain.lo < domain.hi
            ==> forall|v: int| domain.lo <= v <= domain.hi ==> covers(covered, v),
{
    lemma_sweep_no_gaps(domain, covered, integer_axis, 0, domain.lo, Seq::empty());
}

/// Over a canonical list that covers every value of the domain, a sweep that
/// has met no interval inside the domain yet reports no gap.
proof fn lemma_sweep_covered_domain(domain: Interval, covered: Seq<Interval>, integer_axis: bool, k: int)
    requires
        canonical(covered),
        domain.lo <= domain.hi,
        0 <= k <= covered.len(),
        forall|v: int| domain.lo <= v <= domain.hi ==> covers(covered, v),
        forall|j: int| 0 <= j < k ==> covered[j].hi < domain.lo || covered[j].lo > domain.hi,
    ensures
        sweep_gaps(domain, covered, integer_axis, k, domain.lo, Seq::empty()).len() == 0,
    decreases covered.len() - k,
{
    let lo = domain.lo as int;
    assert(covers(covered, lo));
    let jl = choose|j: int| 0 <= j < covered.len() && #[trigger] covered[j].lo <= lo && lo <= covered[j].hi;
    if k >= covered.len() {
        assert(false);
    } else {
        let clo = max_i64(covered[k].lo, domain.lo);
        let chi = min_i64(covered[k].hi, domain.hi);
        if clo > chi {
            assert(covered[k].hi < domain.lo || covered[k].lo > domain.hi);
            lemma_sweep_covered_domain(domain, covered, integer_axis, k + 1);
        } else {
            assert(jl >= k);
            if jl > k {
                lemma_canonical_ordered(covered, k, jl);
                assert(valid_interval(covered[k]));
            }
            assert(clo == domain.lo);
            if covered[k].hi < domain.hi {
                let v = covered[k].hi + 1;
                assert(covers(covered, v));
                let jv = choose|j: int| 0 <= j < covered.len() && #[trigger] covered[j].lo <= v && v <= covered[j].hi;
                if jv > k {
                    lemma_canonical_ordered(covered, k, jv);
                }
                assert(false);
            }
        }
    }
}

/// Over a canonical list that covers every value of the domain the sweep
/// reports no gap.
pub proof fn lemma_covered_means_no_gaps(domain: Interval, covered: Seq<Interval>, integer_axis: bool)
    requires
        canonical(covered),
        domain.lo <= domain.hi,
        forall|v: int| domain.lo <= v <= domain.hi ==> covers(covered, v),
    ensures
        coverage_gap_list(domain, covered, integer_axis).len() == 0,
{
    lemma_sweep_covered_domain(domain, covered, integer_axis, 0);
}

/// Every hole that the joint coverage check of a class reports is real: the
/// whole box holds no matched sample, or the reported point matches no entry,
/// and it lies inside the class domain.
pub proof fn lemma_joint_gaps_sound(class: CoverageClass, cands: Seq<BiomeEntry>, fixed: CellSample)
    ensures
        all_genuine(
            gap_search(class_domain_of(class), cands, fixed, Seq::empty(), 0, MAX_REPORTED_GAPS as int),
            cands,
            fixed,
            class_domain_of(class),
        ),
{
    let d = class_domain_of(class);
    assert forall|i: int| 0 <= i < 5 implies valid_interval(#[trigger] box_axis(d, i)) by {}
    assert forall|i: int|
        0 <= i < 5 implies -BOX_LIMIT <= (#[trigger] box_axis(d, i)).lo <= BOX_LIMIT && -BOX_LIMIT <= box_axis(
        d,
        i,
    ).hi <= BOX_LIMIT by {}
    assert forall|i: int|
        0 <= i < 5 implies box_axis(d, i).lo <= (#[trigger] box_axis(d, i)).lo && box_axis(d, i).hi <= box_axis(
        d,
        i,
    ).hi by {}
    lemma_gap_search_sound(d, cands, fixed, Seq::empty(), 0, MAX_REPORTED_GAPS as int, d);
}

/// The per-axis expected domains agree with the joint-coverage domains: on
/// height difference, moisture, rainfall and temperature they are the land
/// box; on height they span the water box below the water line and the land
/// box above it (the two meet at 0); on magic and chaos they are exactly the
/// values some variant of a biome accepts.
pub proof fn lemma_expected_domains_match_classes(axis: int, x: i64)
    ensures
        (axis == 0 || axis == 2 || axis == 3 || axis == 4) ==> expected_domain_of(axis) == box_axis(
            class_domain_of(CoverageClass::Land),
            axis,
        ),
        expected_domain_of(1).lo == class_domain_of(CoverageClass::Ocean).height_pct.lo,
        expected_domain_of(1).hi == class_domain_of(CoverageClass::Land).height_pct.hi,
        class_domain_of(CoverageClass::Ocean).height_pct.hi == class_domain_of(CoverageClass::Land).height_pct.lo,
        class_domain_of(CoverageClass::Ocean).height_pct == class_domain_of(CoverageClass::InlandWater).height_pct,
        in_interval(x, expected_domain_of(5)) <==> (in_interval(x, variant_magic(BiomeVariant::Normal))
            || in_interval(x, variant_magic(BiomeVariant::Warped)) || in_interval(
            x,
            variant_magic(BiomeVariant::Chaotic),
        )),
        in_interval(x, expected_domain_of(6)) <==> (in_interval(x, variant_chaos(BiomeVariant::Normal))
            || in_interval(x, variant_chaos(BiomeVariant::Warped)) || in_interval(
            x,
            variant_chaos(BiomeVariant::Chaotic),
        )),
{
}

/// The point at which a variant slice is probed selects that variant and no
/// other: its magic and chaos lie in the variant's intervals and outside
/// those of every other variant; the water body size and ocean distance are
/// the ones asked for.
pub proof fn lemma_slice_point_selects_variant(v: BiomeVariant, u: BiomeVariant, water: i64, ocean_dist: i64)
    ensures
        in_interval(fixed_sample(v, water, ocean_dist).magic_pct, variant_magic(v)),
        in_interval(fixed_sample(v, water, ocean_dist).chaos_pct, variant_chaos(v)),
        u != v ==> !(in_interval(fixed_sample(v, water, ocean_dist).magic_pct, variant_magic(u)) && in_interval(
            fixed_sample(v, water, ocean_dist).chaos_pct,
            variant_chaos(u),
        )),
        fixed_sample(v, water, ocean_dist).water_body_size == water,
        fixed_sample(v, water, ocean_dist).nearest_ocean_dist == ocean_dist,
{
}

/// An overlap is flagged as unwanted exactly when both rules are
/// deterministic: a pair with a weighted rule is never flagged. It is marked
/// same-family exactly when both biomes are variants of one base biome.
pub proof fn lemma_overlap_flags(entries: Seq<BiomeEntry>, i: int, j: int)
    ensures
        overlap_pair(entries, i, j).both_deterministic <==> (entries[i].params.weight == DETERMINISTIC
            && entries[j].params.weight == DETERMINISTIC),
        entries[i].params.weight != DETERMINISTIC ==> !overlap_pair(entries, i, j).both_deterministic,
        entries[j].params.weight != DETERMINISTIC ==> !overlap_pair(entries, i, j).both_deterministic,
        overlap_pair(entries, i, j).same_family <==> family_of(entries[i].biome) == family_of(entries[j].biome),
{
}

} // verus!
