//! Biome classification: the biome kinds, the rule table of the basic preset
//! and the per-cell selection (deterministic rules first, then a weighted
//! choice driven by a cell hash).
use vstd::prelude::*;
use fxhash::FxHashMap;

verus! {

/// The biome kinds.  Every base biome comes in a normal, a warped and a
/// chaotic variant, listed in that order.
#[allow(non_camel_case_types)]
#[derive(Clone, Copy, Debug, PartialEq, Eq, Hash, Structural)]
pub enum Biomes {
    GRASSLANDS,
    WARPED_GRASSLANDS,
    CHAOTIC_GRASSLANDS,
    DESERT,
    WARPED_DESERT,
    CHAOTIC_DESERT,
    ASHLANDS,
    WARPED_ASHLANDS,
    CHAOTIC_ASHLANDS,
    SAVANNAH,
    WARPED_SAVANNAH,
    CHAOTIC_SAVANNAH,
    STEEP_MOUNTAIN,
    WARPED_STEEP_MOUNTAIN,
    CHAOTIC_STEEP_MOUNTAIN,
    MOUNTAIN_PEAK,
    WARPED_MOUNTAIN_PEAK,
    CHAOTIC_MOUNTAIN_PEAK,
    OCEAN,
    WARPED_OCEAN,
    CHAOTIC_OCEAN,
    DEEP_OCEAN,
    WARPED_DEEP_OCEAN,
    CHAOTIC_DEEP_OCEAN,
    SHALLOW_OCEAN,
    WARPED_SHALLOW_OCEAN,
    CHAOTIC_SHALLOW_OCEAN,
    POND,
    WARPED_POND,
    CHAOTIC_POND,
    WET_SINKHOLE,
    WARPED_WET_SINKHOLE,
    CHAOTIC_WET_SINKHOLE,
    LAGOON,
    WARPED_LAGOON,
    CHAOTIC_LAGOON,
    GREAT_LAGOON,
    WARPED_GREAT_LAGOON,
    CHAOTIC_GREAT_LAGOON,
    LAKE,
    WARPED_LAKE,
    CHAOTIC_LAKE,
    DEEP_LAKE,
    WARPED_DEEP_LAKE,
    CHAOTIC_DEEP_LAKE,
    FROZEN_LAKE,
    WARPED_FROZEN_LAKE,
    CHAOTIC_FROZEN_LAKE,
    FROZEN_DEEP_LAKE,
    WARPED_FROZEN_DEEP_LAKE,
    CHAOTIC_FROZEN_DEEP_LAKE,
    GREAT_LAKE,
    WARPED_GREAT_LAKE,
    CHAOTIC_GREAT_LAKE,
    DEEP_GREAT_LAKE,
    WARPED_DEEP_GREAT_LAKE,
    CHAOTIC_DEEP_GREAT_LAKE,
    FROZEN_GREAT_LAKE,
    WARPED_FROZEN_GREAT_LAKE,
    CHAOTIC_FROZEN_GREAT_LAKE,
    FROZEN_DEEP_GREAT_LAKE,
    WARPED_FROZEN_DEEP_GREAT_LAKE,
    CHAOTIC_FROZEN_DEEP_GREAT_LAKE,
    BADLANDS,
    WARPED_BADLANDS,
    CHAOTIC_BADLANDS,
    FORREST,
    WARPED_FORREST,
    CHAOTIC_FORREST,
    SPARCE_FORREST,
    WARPED_SPARCE_FORREST,
    CHAOTIC_SPARCE_FORREST,
    DEEP_FORREST,
    WARPED_DEEP_FORREST,
    CHAOTIC_DEEP_FORREST,
    RAINFORREST,
    WARPED_RAINFORREST,
    CHAOTIC_RAINFORREST,
    SWAMPY_RAINFORREST,
    WARPED_SWAMPY_RAINFORREST,
    CHAOTIC_SWAMPY_RAINFORREST,
    SWAMPY_FORREST,
    WARPED_SWAMPY_FORREST,
    CHAOTIC_SWAMPY_FORREST,
    BOG,
    WARPED_BOG,
    CHAOTIC_BOG,
    MARSH,
    WARPED_MARSH,
    CHAOTIC_MARSH,
    SWAMP,
    WARPED_SWAMP,
    CHAOTIC_SWAMP,
    ICE_TAIGA,
    WARPED_ICE_TAIGA,
    CHAOTIC_ICE_TAIGA,
    SNOWY_TUNDRA,
    WARPED_SNOWY_TUNDRA,
    CHAOTIC_SNOWY_TUNDRA,
    BOREAL_FORREST,
    WARPED_BOREAL_FORREST,
    CHAOTIC_BOREAL_FORREST,
    ROCKY_FIELDS,
    WARPED_ROCKY_FIELDS,
    CHAOTIC_ROCKY_FIELDS,
    SANDY_COAST,
    WARPED_SANDY_COAST,
    CHAOTIC_SANDY_COAST,
    ROCKY_COAST,
    WARPED_ROCKY_COAST,
    CHAOTIC_ROCKY_COAST,
    MACROTIDAL_SHINGLE_BEACH,
    WARPED_MACROTIDAL_SHINGLE_BEACH,
    CHAOTIC_MACROTIDAL_SHINGLE_BEACH,
    SCORCHED_BEACH,
    WARPED_SCORCHED_BEACH,
    CHAOTIC_SCORCHED_BEACH,
}

/// The base biome shared by the three variants of a biome.
#[derive(Clone, Copy, Debug, PartialEq, Eq, Structural)]
pub enum BiomeFamily {
    Grasslands,
    Desert,
    Ashlands,
    Savannah,
    SteepMountain,
    MountainPeak,
    Ocean,
    DeepOcean,
    ShallowOcean,
    Pond,
    WetSinkhole,
    Lagoon,
    GreatLagoon,
    Lake,
    DeepLake,
    FrozenLake,
    FrozenDeepLake,
    GreatLake,
    DeepGreatLake,
    FrozenGreatLake,
    FrozenDeepGreatLake,
    Badlands,
    Forrest,
    SparceForrest,
    DeepForrest,
    Rainforrest,
    SwampyRainforrest,
    SwampyForrest,
    Bog,
    Marsh,
    Swamp,
    IceTaiga,
    SnowyTundra,
    BorealForrest,
    RockyFields,
    SandyCoast,
    RockyCoast,
    MacrotidalShingleBeach,
    ScorchedBeach,
}

/// Which of the three variants of its base biome a biome is.
#[derive(Clone, Copy, Debug, PartialEq, Eq, Structural)]
pub enum BiomeVariant {
    Normal,
    Warped,
    Chaotic,
}

/// The base biome of `b`.
pub open spec fn family_of(b: Biomes) -> BiomeFamily {
    match b {
        Biomes::GRASSLANDS | Biomes::WARPED_GRASSLANDS | Biomes::CHAOTIC_GRASSLANDS => BiomeFamily::Grasslands,
        Biomes::DESERT | Biomes::WARPED_DESERT | Biomes::CHAOTIC_DESERT => BiomeFamily::Desert,
        Biomes::ASHLANDS | Biomes::WARPED_ASHLANDS | Biomes::CHAOTIC_ASHLANDS => BiomeFamily::Ashlands,
        Biomes::SAVANNAH | Biomes::WARPED_SAVANNAH | Biomes::CHAOTIC_SAVANNAH => BiomeFamily::Savannah,
        Biomes::STEEP_MOUNTAIN | Biomes::WARPED_STEEP_MOUNTAIN | Biomes::CHAOTIC_STEEP_MOUNTAIN => BiomeFamily::SteepMountain,
        Biomes::MOUNTAIN_PEAK | Biomes::WARPED_MOUNTAIN_PEAK | Biomes::CHAOTIC_MOUNTAIN_PEAK => BiomeFamily::MountainPeak,
        Biomes::OCEAN | Biomes::WARPED_OCEAN | Biomes::CHAOTIC_OCEAN => BiomeFamily::Ocean,
        Biomes::DEEP_OCEAN | Biomes::WARPED_DEEP_OCEAN | Biomes::CHAOTIC_DEEP_OCEAN => BiomeFamily::DeepOcean,
        Biomes::SHALLOW_OCEAN | Biomes::WARPED_SHALLOW_OCEAN | Biomes::CHAOTIC_SHALLOW_OCEAN => BiomeFamily::ShallowOcean,
        Biomes::POND | Biomes::WARPED_POND | Biomes::CHAOTIC_POND => BiomeFamily::Pond,
        Biomes::WET_SINKHOLE | Biomes::WARPED_WET_SINKHOLE | Biomes::CHAOTIC_WET_SINKHOLE => BiomeFamily::WetSinkhole,
        Biomes::LAGOON | Biomes::WARPED_LAGOON | Biomes::CHAOTIC_LAGOON => BiomeFamily::Lagoon,
        Biomes::GREAT_LAGOON | Biomes::WARPED_GREAT_LAGOON | Biomes::CHAOTIC_GREAT_LAGOON => BiomeFamily::GreatLagoon,
        Biomes::LAKE | Biomes::WARPED_LAKE | Biomes::CHAOTIC_LAKE => BiomeFamily::Lake,
        Biomes::DEEP_LAKE | Biomes::WARPED_DEEP_LAKE | Biomes::CHAOTIC_DEEP_LAKE => BiomeFamily::DeepLake,
        Biomes::FROZEN_LAKE | Biomes::WARPED_FROZEN_LAKE | Biomes::CHAOTIC_FROZEN_LAKE => BiomeFamily::FrozenLake,
        Biomes::FROZEN_DEEP_LAKE | Biomes::WARPED_FROZEN_DEEP_LAKE | Biomes::CHAOTIC_FROZEN_DEEP_LAKE => BiomeFamily::FrozenDeepLake,
        Biomes::GREAT_LAKE | Biomes::WARPED_GREAT_LAKE | Biomes::CHAOTIC_GREAT_LAKE => BiomeFamily::GreatLake,
        Biomes::DEEP_GREAT_LAKE | Biomes::WARPED_DEEP_GREAT_LAKE | Biomes::CHAOTIC_DEEP_GREAT_LAKE => BiomeFamily::DeepGreatLake,
        Biomes::FROZEN_GREAT_LAKE | Biomes::WARPED_FROZEN_GREAT_LAKE | Biomes::CHAOTIC_FROZEN_GREAT_LAKE => BiomeFamily::FrozenGreatLake,
        Biomes::FROZEN_DEEP_GREAT_LAKE | Biomes::WARPED_FROZEN_DEEP_GREAT_LAKE | Biomes::CHAOTIC_FROZEN_DEEP_GREAT_LAKE => BiomeFamily::FrozenDeepGreatLake,
        Biomes::BADLANDS | Biomes::WARPED_BADLANDS | Biomes::CHAOTIC_BADLANDS => BiomeFamily::Badlands,
        Biomes::FORREST | Biomes::WARPED_FORREST | Biomes::CHAOTIC_FORREST => BiomeFamily::Forrest,
        Biomes::SPARCE_FORREST | Biomes::WARPED_SPARCE_FORREST | Biomes::CHAOTIC_SPARCE_FORREST => BiomeFamily::SparceForrest,
        Biomes::DEEP_FORREST | Biomes::WARPED_DEEP_FORREST | Biomes::CHAOTIC_DEEP_FORREST => BiomeFamily::DeepForrest,
        Biomes::RAINFORREST | Biomes::WARPED_RAINFORREST | Biomes::CHAOTIC_RAINFORREST => BiomeFamily::Rainforrest,
        Biomes::SWAMPY_RAINFORREST | Biomes::WARPED_SWAMPY_RAINFORREST | Biomes::CHAOTIC_SWAMPY_RAINFORREST => BiomeFamily::SwampyRainforrest,
        Biomes::SWAMPY_FORREST | Biomes::WARPED_SWAMPY_FORREST | Biomes::CHAOTIC_SWAMPY_FORREST => BiomeFamily::SwampyForrest,
        Biomes::BOG | Biomes::WARPED_BOG | Biomes::CHAOTIC_BOG => BiomeFamily::Bog,
        Biomes::MARSH | Biomes::WARPED_MARSH | Biomes::CHAOTIC_MARSH => BiomeFamily::Marsh,
        Biomes::SWAMP | Biomes::WARPED_SWAMP | Biomes::CHAOTIC_SWAMP => BiomeFamily::Swamp,
        Biomes::ICE_TAIGA | Biomes::WARPED_ICE_TAIGA | Biomes::CHAOTIC_ICE_TAIGA => BiomeFamily::IceTaiga,
        Biomes::SNOWY_TUNDRA | Biomes::WARPED_SNOWY_TUNDRA | Biomes::CHAOTIC_SNOWY_TUNDRA => BiomeFamily::SnowyTundra,
        Biomes::BOREAL_FORREST | Biomes::WARPED_BOREAL_FORREST | Biomes::CHAOTIC_BOREAL_FORREST => BiomeFamily::BorealForrest,
        Biomes::ROCKY_FIELDS | Biomes::WARPED_ROCKY_FIELDS | Biomes::CHAOTIC_ROCKY_FIELDS => BiomeFamily::RockyFields,
        Biomes::SANDY_COAST | Biomes::WARPED_SANDY_COAST | Biomes::CHAOTIC_SANDY_COAST => BiomeFamily::SandyCoast,
        Biomes::ROCKY_COAST | Biomes::WARPED_ROCKY_COAST | Biomes::CHAOTIC_ROCKY_COAST => BiomeFamily::RockyCoast,
        Biomes::MACROTIDAL_SHINGLE_BEACH | Biomes::WARPED_MACROTIDAL_SHINGLE_BEACH | Biomes::CHAOTIC_MACROTIDAL_SHINGLE_BEACH => BiomeFamily::MacrotidalShingleBeach,
        Biomes::SCORCHED_BEACH | Biomes::WARPED_SCORCHED_BEACH | Biomes::CHAOTIC_SCORCHED_BEACH => BiomeFamily::ScorchedBeach,
    }
}

/// The variant `v` of the base biome `f`.
pub open spec fn biome_of(f: BiomeFamily, v: BiomeVariant) -> Biomes {
    match f {
        BiomeFamily::Grasslands => pick_variant(v, Biomes::GRASSLANDS, Biomes::WARPED_GRASSLANDS, Biomes::CHAOTIC_GRASSLANDS),
        BiomeFamily::Desert => pick_variant(v, Biomes::DESERT, Biomes::WARPED_DESERT, Biomes::CHAOTIC_DESERT),
        BiomeFamily::Ashlands => pick_variant(v, Biomes::ASHLANDS, Biomes::WARPED_ASHLANDS, Biomes::CHAOTIC_ASHLANDS),
        BiomeFamily::Savannah => pick_variant(v, Biomes::SAVANNAH, Biomes::WARPED_SAVANNAH, Biomes::CHAOTIC_SAVANNAH),
        BiomeFamily::SteepMountain => pick_variant(v, Biomes::STEEP_MOUNTAIN, Biomes::WARPED_STEEP_MOUNTAIN, Biomes::CHAOTIC_STEEP_MOUNTAIN),
        BiomeFamily::MountainPeak => pick_variant(v, Biomes::MOUNTAIN_PEAK, Biomes::WARPED_MOUNTAIN_PEAK, Biomes::CHAOTIC_MOUNTAIN_PEAK),
        BiomeFamily::Ocean => pick_variant(v, Biomes::OCEAN, Biomes::WARPED_OCEAN, Biomes::CHAOTIC_OCEAN),
        BiomeFamily::DeepOcean => pick_variant(v, Biomes::DEEP_OCEAN, Biomes::WARPED_DEEP_OCEAN, Biomes::CHAOTIC_DEEP_OCEAN),
        BiomeFamily::ShallowOcean => pick_variant(v, Biomes::SHALLOW_OCEAN, Biomes::WARPED_SHALLOW_OCEAN, Biomes::CHAOTIC_SHALLOW_OCEAN),
        BiomeFamily::Pond => pick_variant(v, Biomes::POND, Biomes::WARPED_POND, Biomes::CHAOTIC_POND),
        BiomeFamily::WetSinkhole => pick_variant(v, Biomes::WET_SINKHOLE, Biomes::WARPED_WET_SINKHOLE, Biomes::CHAOTIC_WET_SINKHOLE),
        BiomeFamily::Lagoon => pick_variant(v, Biomes::LAGOON, Biomes::WARPED_LAGOON, Biomes::CHAOTIC_LAGOON),
        BiomeFamily::GreatLagoon => pick_variant(v, Biomes::GREAT_LAGOON, Biomes::WARPED_GREAT_LAGOON, Biomes::CHAOTIC_GREAT_LAGOON),
        BiomeFamily::Lake => pick_variant(v, Biomes::LAKE, Biomes::WARPED_LAKE, Biomes::CHAOTIC_LAKE),
        BiomeFamily::DeepLake => pick_variant(v, Biomes::DEEP_LAKE, Biomes::WARPED_DEEP_LAKE, Biomes::CHAOTIC_DEEP_LAKE),
        BiomeFamily::FrozenLake => pick_variant(v, Biomes::FROZEN_LAKE, Biomes::WARPED_FROZEN_LAKE, Biomes::CHAOTIC_FROZEN_LAKE),
        BiomeFamily::FrozenDeepLake => pick_variant(v, Biomes::FROZEN_DEEP_LAKE, Biomes::WARPED_FROZEN_DEEP_LAKE, Biomes::CHAOTIC_FROZEN_DEEP_LAKE),
        BiomeFamily::GreatLake => pick_variant(v, Biomes::GREAT_LAKE, Biomes::WARPED_GREAT_LAKE, Biomes::CHAOTIC_GREAT_LAKE),
        BiomeFamily::DeepGreatLake => pick_variant(v, Biomes::DEEP_GREAT_LAKE, Biomes::WARPED_DEEP_GREAT_LAKE, Biomes::CHAOTIC_DEEP_GREAT_LAKE),
        BiomeFamily::FrozenGreatLake => pick_variant(v, Biomes::FROZEN_GREAT_LAKE, Biomes::WARPED_FROZEN_GREAT_LAKE, Biomes::CHAOTIC_FROZEN_GREAT_LAKE),
        BiomeFamily::FrozenDeepGreatLake => pick_variant(v, Biomes::FROZEN_DEEP_GREAT_LAKE, Biomes::WARPED_FROZEN_DEEP_GREAT_LAKE, Biomes::CHAOTIC_FROZEN_DEEP_GREAT_LAKE),
        BiomeFamily::Badlands => pick_variant(v, Biomes::BADLANDS, Biomes::WARPED_BADLANDS, Biomes::CHAOTIC_BADLANDS),
        BiomeFamily::Forrest => pick_variant(v, Biomes::FORREST, Biomes::WARPED_FORREST, Biomes::CHAOTIC_FORREST),
        BiomeFamily::SparceForrest => pick_variant(v, Biomes::SPARCE_FORREST, Biomes::WARPED_SPARCE_FORREST, Biomes::CHAOTIC_SPARCE_FORREST),
        BiomeFamily::DeepForrest => pick_variant(v, Biomes::DEEP_FORREST, Biomes::WARPED_DEEP_FORREST, Biomes::CHAOTIC_DEEP_FORREST),
        BiomeFamily::Rainforrest => pick_variant(v, Biomes::RAINFORREST, Biomes::WARPED_RAINFORREST, Biomes::CHAOTIC_RAINFORREST),
        BiomeFamily::SwampyRainforrest => pick_variant(v, Biomes::SWAMPY_RAINFORREST, Biomes::WARPED_SWAMPY_RAINFORREST, Biomes::CHAOTIC_SWAMPY_RAINFORREST),
        BiomeFamily::SwampyForrest => pick_variant(v, Biomes::SWAMPY_FORREST, Biomes::WARPED_SWAMPY_FORREST, Biomes::CHAOTIC_SWAMPY_FORREST),
        BiomeFamily::Bog => pick_variant(v, Biomes::BOG, Biomes::WARPED_BOG, Biomes::CHAOTIC_BOG),
        BiomeFamily::Marsh => pick_variant(v, Biomes::MARSH, Biomes::WARPED_MARSH, Biomes::CHAOTIC_MARSH),
        BiomeFamily::Swamp => pick_variant(v, Biomes::SWAMP, Biomes::WARPED_SWAMP, Biomes::CHAOTIC_SWAMP),
        BiomeFamily::IceTaiga => pick_variant(v, Biomes::ICE_TAIGA, Biomes::WARPED_ICE_TAIGA, Biomes::CHAOTIC_ICE_TAIGA),
        BiomeFamily::SnowyTundra => pick_variant(v, Biomes::SNOWY_TUNDRA, Biomes::WARPED_SNOWY_TUNDRA, Biomes::CHAOTIC_SNOWY_TUNDRA),
        BiomeFamily::BorealForrest => pick_variant(v, Biomes::BOREAL_FORREST, Biomes::WARPED_BOREAL_FORREST, Biomes::CHAOTIC_BOREAL_FORREST),
        BiomeFamily::RockyFields => pick_variant(v, Biomes::ROCKY_FIELDS, Biomes::WARPED_ROCKY_FIELDS, Biomes::CHAOTIC_ROCKY_FIELDS),
        BiomeFamily::SandyCoast => pick_variant(v, Biomes::SANDY_COAST, Biomes::WARPED_SANDY_COAST, Biomes::CHAOTIC_SANDY_COAST),
        BiomeFamily::RockyCoast => pick_variant(v, Biomes::ROCKY_COAST, Biomes::WARPED_ROCKY_COAST, Biomes::CHAOTIC_ROCKY_COAST),
        BiomeFamily::MacrotidalShingleBeach => pick_variant(v, Biomes::MACROTIDAL_SHINGLE_BEACH, Biomes::WARPED_MACROTIDAL_SHINGLE_BEACH, Biomes::CHAOTIC_MACROTIDAL_SHINGLE_BEACH),
        BiomeFamily::ScorchedBeach => pick_variant(v, Biomes::SCORCHED_BEACH, Biomes::WARPED_SCORCHED_BEACH, Biomes::CHAOTIC_SCORCHED_BEACH),
    }
}

/// `normal`, `warped` or `chaotic` according to `v`.
pub open spec fn pick_variant(v: BiomeVariant, normal: Biomes, warped: Biomes, chaotic: Biomes) -> Biomes {
    match v {
        BiomeVariant::Normal => normal,
        BiomeVariant::Warped => warped,
        BiomeVariant::Chaotic => chaotic,
    }
}

/// The variant of `b`.
pub open spec fn variant_of(b: Biomes) -> BiomeVariant {
    if b == biome_of(family_of(b), BiomeVariant::Warped) {
        BiomeVariant::Warped
    } else if b == biome_of(family_of(b), BiomeVariant::Chaotic) {
        BiomeVariant::Chaotic
    } else {
        BiomeVariant::Normal
    }
}

/// Position of a base biome in the declaration order.
pub open spec fn family_index(f: BiomeFamily) -> int {
    match f {
        BiomeFamily::Grasslands => 0,
        BiomeFamily::Desert => 1,
        BiomeFamily::Ashlands => 2,
        BiomeFamily::Savannah => 3,
        BiomeFamily::SteepMountain => 4,
        BiomeFamily::MountainPeak => 5,
        BiomeFamily::Ocean => 6,
        BiomeFamily::DeepOcean => 7,
        BiomeFamily::ShallowOcean => 8,
        BiomeFamily::Pond => 9,
        BiomeFamily::WetSinkhole => 10,
        BiomeFamily::Lagoon => 11,
        BiomeFamily::GreatLagoon => 12,
        BiomeFamily::Lake => 13,
        BiomeFamily::DeepLake => 14,
        BiomeFamily::FrozenLake => 15,
        BiomeFamily::FrozenDeepLake => 16,
        BiomeFamily::GreatLake => 17,
        BiomeFamily::DeepGreatLake => 18,
        BiomeFamily::FrozenGreatLake => 19,
        BiomeFamily::FrozenDeepGreatLake => 20,
        BiomeFamily::Badlands => 21,
        BiomeFamily::Forrest => 22,
        BiomeFamily::SparceForrest => 23,
        BiomeFamily::DeepForrest => 24,
        BiomeFamily::Rainforrest => 25,
        BiomeFamily::SwampyRainforrest => 26,
        BiomeFamily::SwampyForrest => 27,
        BiomeFamily::Bog => 28,
        BiomeFamily::Marsh => 29,
        BiomeFamily::Swamp => 30,
        BiomeFamily::IceTaiga => 31,
        BiomeFamily::SnowyTundra => 32,
        BiomeFamily::BorealForrest => 33,
        BiomeFamily::RockyFields => 34,
        BiomeFamily::SandyCoast => 35,
        BiomeFamily::RockyCoast => 36,
        BiomeFamily::MacrotidalShingleBeach => 37,
        BiomeFamily::ScorchedBeach => 38,
    }
}

/// The base biome at position `i` of the declaration order.
pub open spec fn family_at(i: int) -> BiomeFamily {
    if i == 0 {
        BiomeFamily::Grasslands
    } else if i == 1 {
        BiomeFamily::Desert
    } else if i == 2 {
        BiomeFamily::Ashlands
    } else if i == 3 {
        BiomeFamily::Savannah
    } else if i == 4 {
        BiomeFamily::SteepMountain
    } else if i == 5 {
        BiomeFamily::MountainPeak
    } else if i == 6 {
        BiomeFamily::Ocean
    } else if i == 7 {
        BiomeFamily::DeepOcean
    } else if i == 8 {
        BiomeFamily::ShallowOcean
    } else if i == 9 {
        BiomeFamily::Pond
    } else if i == 10 {
        BiomeFamily::WetSinkhole
    } else if i == 11 {
        BiomeFamily::Lagoon
    } else if i == 12 {
        BiomeFamily::GreatLagoon
    } else if i == 13 {
        BiomeFamily::Lake
    } else if i == 14 {
        BiomeFamily::DeepLake
    } else if i == 15 {
        BiomeFamily::FrozenLake
    } else if i == 16 {
        BiomeFamily::FrozenDeepLake
    } else if i == 17 {
        BiomeFamily::GreatLake
    } else if i == 18 {
        BiomeFamily::DeepGreatLake
    } else if i == 19 {
        BiomeFamily::FrozenGreatLake
    } else if i == 20 {
        BiomeFamily::FrozenDeepGreatLake
    } else if i == 21 {
        BiomeFamily::Badlands
    } else if i == 22 {
        BiomeFamily::Forrest
    } else if i == 23 {
        BiomeFamily::SparceForrest
    } else if i == 24 {
        BiomeFamily::DeepForrest
    } else if i == 25 {
        BiomeFamily::Rainforrest
    } else if i == 26 {
        BiomeFamily::SwampyRainforrest
    } else if i == 27 {
        BiomeFamily::SwampyForrest
    } else if i == 28 {
        BiomeFamily::Bog
    } else if i == 29 {
        BiomeFamily::Marsh
    } else if i == 30 {
        BiomeFamily::Swamp
    } else if i == 31 {
        BiomeFamily::IceTaiga
    } else if i == 32 {
        BiomeFamily::SnowyTundra
    } else if i == 33 {
        BiomeFamily::BorealForrest
    } else if i == 34 {
        BiomeFamily::RockyFields
    } else if i == 35 {
        BiomeFamily::SandyCoast
    } else if i == 36 {
        BiomeFamily::RockyCoast
    } else if i == 37 {
        BiomeFamily::MacrotidalShingleBeach
    } else {
        BiomeFamily::ScorchedBeach
    }
}

/// The variant at position `k` (`0`, `1` or `2`) within a base biome.
pub open spec fn variant_at(k: int) -> BiomeVariant {
    if k == 0 {
        BiomeVariant::Normal
    } else if k == 1 {
        BiomeVariant::Warped
    } else {
        BiomeVariant::Chaotic
    }
}

/// Position of a variant within its base biome.
pub open spec fn variant_index(v: BiomeVariant) -> int {
    match v {
        BiomeVariant::Normal => 0,
        BiomeVariant::Warped => 1,
        BiomeVariant::Chaotic => 2,
    }
}

/// The number of biome kinds.
pub const BIOME_COUNT: usize = 117;

/// The number of base biomes.
pub const FAMILY_COUNT: usize = 39;

/// The biome at position `k` of the declaration order.
pub open spec fn biome_at(k: int) -> Biomes {
    biome_of(family_at(k / 3), variant_at(k % 3))
}

/// Position of `b` in the declaration order.
pub open spec fn biome_index(b: Biomes) -> int {
    3 * family_index(family_of(b)) + variant_index(variant_of(b))
}

/// The order in which biome rules are evaluated: the declaration order.
pub open spec fn eval_order() -> Seq<Biomes> {
    Seq::new(BIOME_COUNT as nat, |k: int| biome_at(k))
}

/// Base biome and variant determine a biome, and every biome has a position
/// in the evaluation order.
pub proof fn lemma_biome_parts(b: Biomes)
    ensures
        biome_of(family_of(b), variant_of(b)) == b,
        0 <= family_index(family_of(b)) < FAMILY_COUNT,
        0 <= biome_index(b) < BIOME_COUNT,
        biome_at(biome_index(b)) == b,
        eval_order()[biome_index(b)] == b,
{
    let f = family_of(b);
    let v = variant_of(b);
    lemma_family_parts(f, v);
    assert(biome_of(f, v) == b);
    assert((3 * family_index(f) + variant_index(v)) / 3 == family_index(f));
    assert((3 * family_index(f) + variant_index(v)) % 3 == variant_index(v));
}

/// A base biome and a variant are recovered from the biome they name.
pub proof fn lemma_family_parts(f: BiomeFamily, v: BiomeVariant)
    ensures
        family_of(biome_of(f, v)) == f,
        variant_of(biome_of(f, v)) == v,
        0 <= family_index(f) < FAMILY_COUNT,
        family_at(family_index(f)) == f,
        variant_at(variant_index(v)) == v,
{
}

/// Each position of the evaluation order holds a different biome.
pub proof fn lemma_eval_order_distinct(k1: int, k2: int)
    requires
        0 <= k1 < BIOME_COUNT,
        0 <= k2 < BIOME_COUNT,
        k1 != k2,
    ensures
        eval_order()[k1] != eval_order()[k2],
{
    let f1 = family_at(k1 / 3);
    let f2 = family_at(k2 / 3);
    let v1 = variant_at(k1 % 3);
    let v2 = variant_at(k2 % 3);
    lemma_family_at_index(k1 / 3);
    lemma_family_at_index(k2 / 3);
    lemma_family_parts(f1, v1);
    lemma_family_parts(f2, v2);
    assert(k1 == 3 * (k1 / 3) + k1 % 3);
    assert(k2 == 3 * (k2 / 3) + k2 % 3);
}

/// `family_index` undoes `family_at` on the positions of the base biomes.
pub proof fn lemma_family_at_index(i: int)
    requires
        0 <= i < FAMILY_COUNT,
    ensures
        family_index(family_at(i)) == i,
{
}

impl Biomes {
    /// The base biome of this biome.
    pub fn family(self) -> (r: BiomeFamily)
        ensures
            r == family_of(self),
    {
        match self {
            Biomes::GRASSLANDS | Biomes::WARPED_GRASSLANDS | Biomes::CHAOTIC_GRASSLANDS => BiomeFamily::Grasslands,
            Biomes::DESERT | Biomes::WARPED_DESERT | Biomes::CHAOTIC_DESERT => BiomeFamily::Desert,
            Biomes::ASHLANDS | Biomes::WARPED_ASHLANDS | Biomes::CHAOTIC_ASHLANDS => BiomeFamily::Ashlands,
            Biomes::SAVANNAH | Biomes::WARPED_SAVANNAH | Biomes::CHAOTIC_SAVANNAH => BiomeFamily::Savannah,
            Biomes::STEEP_MOUNTAIN | Biomes::WARPED_STEEP_MOUNTAIN | Biomes::CHAOTIC_STEEP_MOUNTAIN => BiomeFamily::SteepMountain,
            Biomes::MOUNTAIN_PEAK | Biomes::WARPED_MOUNTAIN_PEAK | Biomes::CHAOTIC_MOUNTAIN_PEAK => BiomeFamily::MountainPeak,
            Biomes::OCEAN | Biomes::WARPED_OCEAN | Biomes::CHAOTIC_OCEAN => BiomeFamily::Ocean,
            Biomes::DEEP_OCEAN | Biomes::WARPED_DEEP_OCEAN | Biomes::CHAOTIC_DEEP_OCEAN => BiomeFamily::DeepOcean,
            Biomes::SHALLOW_OCEAN | Biomes::WARPED_SHALLOW_OCEAN | Biomes::CHAOTIC_SHALLOW_OCEAN => BiomeFamily::ShallowOcean,
            Biomes::POND | Biomes::WARPED_POND | Biomes::CHAOTIC_POND => BiomeFamily::Pond,
            Biomes::WET_SINKHOLE | Biomes::WARPED_WET_SINKHOLE | Biomes::CHAOTIC_WET_SINKHOLE => BiomeFamily::WetSinkhole,
            Biomes::LAGOON | Biomes::WARPED_LAGOON | Biomes::CHAOTIC_LAGOON => BiomeFamily::Lagoon,
            Biomes::GREAT_LAGOON | Biomes::WARPED_GREAT_LAGOON | Biomes::CHAOTIC_GREAT_LAGOON => BiomeFamily::GreatLagoon,
            Biomes::LAKE | Biomes::WARPED_LAKE | Biomes::CHAOTIC_LAKE => BiomeFamily::Lake,
            Biomes::DEEP_LAKE | Biomes::WARPED_DEEP_LAKE | Biomes::CHAOTIC_DEEP_LAKE => BiomeFamily::DeepLake,
            Biomes::FROZEN_LAKE | Biomes::WARPED_FROZEN_LAKE | Biomes::CHAOTIC_FROZEN_LAKE => BiomeFamily::FrozenLake,
            Biomes::FROZEN_DEEP_LAKE | Biomes::WARPED_FROZEN_DEEP_LAKE | Biomes::CHAOTIC_FROZEN_DEEP_LAKE => BiomeFamily::FrozenDeepLake,
            Biomes::GREAT_LAKE | Biomes::WARPED_GREAT_LAKE | Biomes::CHAOTIC_GREAT_LAKE => BiomeFamily::GreatLake,
            Biomes::DEEP_GREAT_LAKE | Biomes::WARPED_DEEP_GREAT_LAKE | Biomes::CHAOTIC_DEEP_GREAT_LAKE => BiomeFamily::DeepGreatLake,
            Biomes::FROZEN_GREAT_LAKE | Biomes::WARPED_FROZEN_GREAT_LAKE | Biomes::CHAOTIC_FROZEN_GREAT_LAKE => BiomeFamily::FrozenGreatLake,
            Biomes::FROZEN_DEEP_GREAT_LAKE | Biomes::WARPED_FROZEN_DEEP_GREAT_LAKE | Biomes::CHAOTIC_FROZEN_DEEP_GREAT_LAKE => BiomeFamily::FrozenDeepGreatLake,
            Biomes::BADLANDS | Biomes::WARPED_BADLANDS | Biomes::CHAOTIC_BADLANDS => BiomeFamily::Badlands,
            Biomes::FORREST | Biomes::WARPED_FORREST | Biomes::CHAOTIC_FORREST => BiomeFamily::Forrest,
            Biomes::SPARCE_FORREST | Biomes::WARPED_SPARCE_FORREST | Biomes::CHAOTIC_SPARCE_FORREST => BiomeFamily::SparceForrest,
            Biomes::DEEP_FORREST | Biomes::WARPED_DEEP_FORREST | Biomes::CHAOTIC_DEEP_FORREST => BiomeFamily::DeepForrest,
            Biomes::RAINFORREST | Biomes::WARPED_RAINFORREST | Biomes::CHAOTIC_RAINFORREST => BiomeFamily::Rainforrest,
            Biomes::SWAMPY_RAINFORREST | Biomes::WARPED_SWAMPY_RAINFORREST | Biomes::CHAOTIC_SWAMPY_RAINFORREST => BiomeFamily::SwampyRainforrest,
            Biomes::SWAMPY_FORREST | Biomes::WARPED_SWAMPY_FORREST | Biomes::CHAOTIC_SWAMPY_FORREST => BiomeFamily::SwampyForrest,
            Biomes::BOG | Biomes::WARPED_BOG | Biomes::CHAOTIC_BOG => BiomeFamily::Bog,
            Biomes::MARSH | Biomes::WARPED_MARSH | Biomes::CHAOTIC_MARSH => BiomeFamily::Marsh,
            Biomes::SWAMP | Biomes::WARPED_SWAMP | Biomes::CHAOTIC_SWAMP => BiomeFamily::Swamp,
            Biomes::ICE_TAIGA | Biomes::WARPED_ICE_TAIGA | Biomes::CHAOTIC_ICE_TAIGA => BiomeFamily::IceTaiga,
            Biomes::SNOWY_TUNDRA | Biomes::WARPED_SNOWY_TUNDRA | Biomes::CHAOTIC_SNOWY_TUNDRA => BiomeFamily::SnowyTundra,
            Biomes::BOREAL_FORREST | Biomes::WARPED_BOREAL_FORREST | Biomes::CHAOTIC_BOREAL_FORREST => BiomeFamily::BorealForrest,
            Biomes::ROCKY_FIELDS | Biomes::WARPED_ROCKY_FIELDS | Biomes::CHAOTIC_ROCKY_FIELDS => BiomeFamily::RockyFields,
            Biomes::SANDY_COAST | Biomes::WARPED_SANDY_COAST | Biomes::CHAOTIC_SANDY_COAST => BiomeFamily::SandyCoast,
            Biomes::ROCKY_COAST | Biomes::WARPED_ROCKY_COAST | Biomes::CHAOTIC_ROCKY_COAST => BiomeFamily::RockyCoast,
            Biomes::MACROTIDAL_SHINGLE_BEACH | Biomes::WARPED_MACROTIDAL_SHINGLE_BEACH | Biomes::CHAOTIC_MACROTIDAL_SHINGLE_BEACH => BiomeFamily::MacrotidalShingleBeach,
            Biomes::SCORCHED_BEACH | Biomes::WARPED_SCORCHED_BEACH | Biomes::CHAOTIC_SCORCHED_BEACH => BiomeFamily::ScorchedBeach,
        }
    }

    /// Which variant of its base biome this biome is.
    pub fn variant(self) -> (r: BiomeVariant)
        ensures
            r == variant_of(self),
    {
        let f = self.family();
        if self == f.biome(BiomeVariant::Warped) {
            BiomeVariant::Warped
        } else if self == f.biome(BiomeVariant::Chaotic) {
            BiomeVariant::Chaotic
        } else {
            BiomeVariant::Normal
        }
    }
}

impl BiomeFamily {
    /// The variant `v` of this base biome.
    pub fn biome(self, v: BiomeVariant) -> (r: Biomes)
        ensures
            r == biome_of(self, v),
    {
        let (normal, warped, chaotic) = match self {
            BiomeFamily::Grasslands => (Biomes::GRASSLANDS, Biomes::WARPED_GRASSLANDS, Biomes::CHAOTIC_GRASSLANDS),
            BiomeFamily::Desert => (Biomes::DESERT, Biomes::WARPED_DESERT, Biomes::CHAOTIC_DESERT),
            BiomeFamily::Ashlands => (Biomes::ASHLANDS, Biomes::WARPED_ASHLANDS, Biomes::CHAOTIC_ASHLANDS),
            BiomeFamily::Savannah => (Biomes::SAVANNAH, Biomes::WARPED_SAVANNAH, Biomes::CHAOTIC_SAVANNAH),
            BiomeFamily::SteepMountain => (Biomes::STEEP_MOUNTAIN, Biomes::WARPED_STEEP_MOUNTAIN, Biomes::CHAOTIC_STEEP_MOUNTAIN),
            BiomeFamily::MountainPeak => (Biomes::MOUNTAIN_PEAK, Biomes::WARPED_MOUNTAIN_PEAK, Biomes::CHAOTIC_MOUNTAIN_PEAK),
            BiomeFamily::Ocean => (Biomes::OCEAN, Biomes::WARPED_OCEAN, Biomes::CHAOTIC_OCEAN),
            BiomeFamily::DeepOcean => (Biomes::DEEP_OCEAN, Biomes::WARPED_DEEP_OCEAN, Biomes::CHAOTIC_DEEP_OCEAN),
            BiomeFamily::ShallowOcean => (Biomes::SHALLOW_OCEAN, Biomes::WARPED_SHALLOW_OCEAN, Biomes::CHAOTIC_SHALLOW_OCEAN),
            BiomeFamily::Pond => (Biomes::POND, Biomes::WARPED_POND, Biomes::CHAOTIC_POND),
            BiomeFamily::WetSinkhole => (Biomes::WET_SINKHOLE, Biomes::WARPED_WET_SINKHOLE, Biomes::CHAOTIC_WET_SINKHOLE),
            BiomeFamily::Lagoon => (Biomes::LAGOON, Biomes::WARPED_LAGOON, Biomes::CHAOTIC_LAGOON),
            BiomeFamily::GreatLagoon => (Biomes::GREAT_LAGOON, Biomes::WARPED_GREAT_LAGOON, Biomes::CHAOTIC_GREAT_LAGOON),
            BiomeFamily::Lake => (Biomes::LAKE, Biomes::WARPED_LAKE, Biomes::CHAOTIC_LAKE),
            BiomeFamily::DeepLake => (Biomes::DEEP_LAKE, Biomes::WARPED_DEEP_LAKE, Biomes::CHAOTIC_DEEP_LAKE),
            BiomeFamily::FrozenLake => (Biomes::FROZEN_LAKE, Biomes::WARPED_FROZEN_LAKE, Biomes::CHAOTIC_FROZEN_LAKE),
            BiomeFamily::FrozenDeepLake => (Biomes::FROZEN_DEEP_LAKE, Biomes::WARPED_FROZEN_DEEP_LAKE, Biomes::CHAOTIC_FROZEN_DEEP_LAKE),
            BiomeFamily::GreatLake => (Biomes::GREAT_LAKE, Biomes::WARPED_GREAT_LAKE, Biomes::CHAOTIC_GREAT_LAKE),
            BiomeFamily::DeepGreatLake => (Biomes::DEEP_GREAT_LAKE, Biomes::WARPED_DEEP_GREAT_LAKE, Biomes::CHAOTIC_DEEP_GREAT_LAKE),
            BiomeFamily::FrozenGreatLake => (Biomes::FROZEN_GREAT_LAKE, Biomes::WARPED_FROZEN_GREAT_LAKE, Biomes::CHAOTIC_FROZEN_GREAT_LAKE),
            BiomeFamily::FrozenDeepGreatLake => (Biomes::FROZEN_DEEP_GREAT_LAKE, Biomes::WARPED_FROZEN_DEEP_GREAT_LAKE, Biomes::CHAOTIC_FROZEN_DEEP_GREAT_LAKE),
            BiomeFamily::Badlands => (Biomes::BADLANDS, Biomes::WARPED_BADLANDS, Biomes::CHAOTIC_BADLANDS),
            BiomeFamily::Forrest => (Biomes::FORREST, Biomes::WARPED_FORREST, Biomes::CHAOTIC_FORREST),
            BiomeFamily::SparceForrest => (Biomes::SPARCE_FORREST, Biomes::WARPED_SPARCE_FORREST, Biomes::CHAOTIC_SPARCE_FORREST),
            BiomeFamily::DeepForrest => (Biomes::DEEP_FORREST, Biomes::WARPED_DEEP_FORREST, Biomes::CHAOTIC_DEEP_FORREST),
            BiomeFamily::Rainforrest => (Biomes::RAINFORREST, Biomes::WARPED_RAINFORREST, Biomes::CHAOTIC_RAINFORREST),
            BiomeFamily::SwampyRainforrest => (Biomes::SWAMPY_RAINFORREST, Biomes::WARPED_SWAMPY_RAINFORREST, Biomes::CHAOTIC_SWAMPY_RAINFORREST),
            BiomeFamily::SwampyForrest => (Biomes::SWAMPY_FORREST, Biomes::WARPED_SWAMPY_FORREST, Biomes::CHAOTIC_SWAMPY_FORREST),
            BiomeFamily::Bog => (Biomes::BOG, Biomes::WARPED_BOG, Biomes::CHAOTIC_BOG),
            BiomeFamily::Marsh => (Biomes::MARSH, Biomes::WARPED_MARSH, Biomes::CHAOTIC_MARSH),
            BiomeFamily::Swamp => (Biomes::SWAMP, Biomes::WARPED_SWAMP, Biomes::CHAOTIC_SWAMP),
            BiomeFamily::IceTaiga => (Biomes::ICE_TAIGA, Biomes::WARPED_ICE_TAIGA, Biomes::CHAOTIC_ICE_TAIGA),
            BiomeFamily::SnowyTundra => (Biomes::SNOWY_TUNDRA, Biomes::WARPED_SNOWY_TUNDRA, Biomes::CHAOTIC_SNOWY_TUNDRA),
            BiomeFamily::BorealForrest => (Biomes::BOREAL_FORREST, Biomes::WARPED_BOREAL_FORREST, Biomes::CHAOTIC_BOREAL_FORREST),
            BiomeFamily::RockyFields => (Biomes::ROCKY_FIELDS, Biomes::WARPED_ROCKY_FIELDS, Biomes::CHAOTIC_ROCKY_FIELDS),
            BiomeFamily::SandyCoast => (Biomes::SANDY_COAST, Biomes::WARPED_SANDY_COAST, Biomes::CHAOTIC_SANDY_COAST),
            BiomeFamily::RockyCoast => (Biomes::ROCKY_COAST, Biomes::WARPED_ROCKY_COAST, Biomes::CHAOTIC_ROCKY_COAST),
            BiomeFamily::MacrotidalShingleBeach => (Biomes::MACROTIDAL_SHINGLE_BEACH, Biomes::WARPED_MACROTIDAL_SHINGLE_BEACH, Biomes::CHAOTIC_MACROTIDAL_SHINGLE_BEACH),
            BiomeFamily::ScorchedBeach => (Biomes::SCORCHED_BEACH, Biomes::WARPED_SCORCHED_BEACH, Biomes::CHAOTIC_SCORCHED_BEACH),
        };
        match v {
            BiomeVariant::Normal => normal,
            BiomeVariant::Warped => warped,
            BiomeVariant::Chaotic => chaotic,
        }
    }
}

/// The base biome at position `i` of the declaration order.
fn family_at_position(i: usize) -> (r: BiomeFamily)
    requires
        i < FAMILY_COUNT,
    ensures
        r == family_at(i as int),
{
    if i == 0 {
        BiomeFamily::Grasslands
    } else if i == 1 {
        BiomeFamily::Desert
    } else if i == 2 {
        BiomeFamily::Ashlands
    } else if i == 3 {
        BiomeFamily::Savannah
    } else if i == 4 {
        BiomeFamily::SteepMountain
    } else if i == 5 {
        BiomeFamily::MountainPeak
    } else if i == 6 {
        BiomeFamily::Ocean
    } else if i == 7 {
        BiomeFamily::DeepOcean
    } else if i == 8 {
        BiomeFamily::ShallowOcean
    } else if i == 9 {
        BiomeFamily::Pond
    } else if i == 10 {
        BiomeFamily::WetSinkhole
    } else if i == 11 {
        BiomeFamily::Lagoon
    } else if i == 12 {
        BiomeFamily::GreatLagoon
    } else if i == 13 {
        BiomeFamily::Lake
    } else if i == 14 {
        BiomeFamily::DeepLake
    } else if i == 15 {
        BiomeFamily::FrozenLake
    } else if i == 16 {
        BiomeFamily::FrozenDeepLake
    } else if i == 17 {
        BiomeFamily::GreatLake
    } else if i == 18 {
        BiomeFamily::DeepGreatLake
    } else if i == 19 {
        BiomeFamily::FrozenGreatLake
    } else if i == 20 {
        BiomeFamily::FrozenDeepGreatLake
    } else if i == 21 {
        BiomeFamily::Badlands
    } else if i == 22 {
        BiomeFamily::Forrest
    } else if i == 23 {
        BiomeFamily::SparceForrest
    } else if i == 24 {
        BiomeFamily::DeepForrest
    } else if i == 25 {
        BiomeFamily::Rainforrest
    } else if i == 26 {
        BiomeFamily::SwampyRainforrest
    } else if i == 27 {
        BiomeFamily::SwampyForrest
    } else if i == 28 {
        BiomeFamily::Bog
    } else if i == 29 {
        BiomeFamily::Marsh
    } else if i == 30 {
        BiomeFamily::Swamp
    } else if i == 31 {
        BiomeFamily::IceTaiga
    } else if i == 32 {
        BiomeFamily::SnowyTundra
    } else if i == 33 {
        BiomeFamily::BorealForrest
    } else if i == 34 {
        BiomeFamily::RockyFields
    } else if i == 35 {
        BiomeFamily::SandyCoast
    } else if i == 36 {
        BiomeFamily::RockyCoast
    } else if i == 37 {
        BiomeFamily::MacrotidalShingleBeach
    } else {
        BiomeFamily::ScorchedBeach
    }
}

/// All biomes in evaluation order.
pub fn biome_eval_order() -> (r: Vec<Biomes>)
    ensures
        r@ == eval_order(),
{
    let mut order: Vec<Biomes> = Vec::new();
    let mut i: usize = 0;
    while i < FAMILY_COUNT
        invariant
            i <= FAMILY_COUNT,
            order@ == eval_order().take(3 * i),
        decreases FAMILY_COUNT - i,
    {
        let f = family_at_position(i);
        let ghost before = order@;
        order.push(f.biome(BiomeVariant::Normal));
        order.push(f.biome(BiomeVariant::Warped));
        order.push(f.biome(BiomeVariant::Chaotic));
        proof {
            assert((3 * i) / 3 == i && (3 * i) % 3 == 0);
            assert((3 * i + 1) / 3 == i && (3 * i + 1) % 3 == 1);
            assert((3 * i + 2) / 3 == i && (3 * i + 2) % 3 == 2);
            assert(order@ =~= eval_order().take(3 * i + 3));
        }
        i = i + 1;
    }
    assert(order@ =~= eval_order());
    order
}


/// Upper bound of an interval that is open above.
pub const UNBOUNDED_HI: i64 = i64::MAX;

/// Lower bound of an interval that is open below.
pub const UNBOUNDED_LO: i64 = i64::MIN;

/// Weight of a deterministic rule: it wins whenever it matches.
pub const DETERMINISTIC: usize = usize::MAX;

/// A closed interval `lo..=hi` of one sample axis.
#[derive(Clone, Copy, Debug, PartialEq, Eq, Structural)]
pub struct Interval {
    pub lo: i64,
    pub hi: i64,
}

/// The interval with the bounds of a pair.
pub open spec fn interval(bounds: (i64, i64)) -> Interval {
    Interval { lo: bounds.0, hi: bounds.1 }
}

/// The rule of one biome: a selection weight (`DETERMINISTIC` or a relative
/// weight for the weighted choice) and a closed interval per sample axis.
#[derive(Clone, Copy, Debug, PartialEq, Eq, Structural)]
pub struct BiomeParams {
    pub weight: usize,
    pub height_diff: Interval,
    pub height_pct: Interval,
    pub moisture_pct: Interval,
    pub rainfall_pct: Interval,
    pub temp: Interval,
    pub magic_pct: Interval,
    pub chaos_pct: Interval,
    pub water_body_size: Interval,
    pub ocean_dist: Interval,
}

/// The measured values of one cell, on the same axes as a rule.
#[derive(Clone, Copy, Debug, PartialEq, Eq, Structural)]
pub struct CellSample {
    pub height_diff: i64,
    pub height_pct: i64,
    pub moisture_pct: i64,
    pub rainfall_pct: i64,
    pub temp: i64,
    pub magic_pct: i64,
    pub chaos_pct: i64,
    pub water_body_size: i64,
    pub nearest_ocean_dist: i64,
}

/// A normal-variant rule (magic in `0..=100`, chaos in `0..=15`).
pub open spec fn normal_rule(
    weight: usize,
    height_diff: (i64, i64),
    height_pct: (i64, i64),
    moisture_pct: (i64, i64),
    rainfall_pct: (i64, i64),
    temp: (i64, i64),
    water_body_size: (i64, i64),
    ocean_dist: (i64, i64),
) -> BiomeParams {
    BiomeParams {
        weight,
        height_diff: interval(height_diff),
        height_pct: interval(height_pct),
        moisture_pct: interval(moisture_pct),
        rainfall_pct: interval(rainfall_pct),
        temp: interval(temp),
        magic_pct: Interval { lo: 0, hi: 100 },
        chaos_pct: Interval { lo: 0, hi: 15 },
        water_body_size: interval(water_body_size),
        ocean_dist: interval(ocean_dist),
    }
}

/// The rule of the normal variant of each base biome in the basic preset.
pub open spec fn family_params(f: BiomeFamily) -> BiomeParams {
    match f {
        BiomeFamily::Grasslands => normal_rule(90, (0, 59), (0, 84), (25, 40), (0, 24), (1, 30), (0, 0), (6, UNBOUNDED_HI)),
        BiomeFamily::Desert => normal_rule(DETERMINISTIC, (0, 25), (0, 84), (0, 24), (0, 100), (1, 49), (0, 0), (6, UNBOUNDED_HI)),
        BiomeFamily::Ashlands => normal_rule(DETERMINISTIC, (0, 59), (0, 84), (0, 24), (0, 100), (50, 60), (0, 0), (6, UNBOUNDED_HI)),
        BiomeFamily::Savannah => normal_rule(DETERMINISTIC, (0, 59), (0, 84), (25, 50), (0, 50), (31, 60), (0, 0), (6, UNBOUNDED_HI)),
        BiomeFamily::SteepMountain => normal_rule(DETERMINISTIC, (60, UNBOUNDED_HI), (0, 100), (0, 100), (0, 100), (-20 as i64, 60), (0, 0), (6, UNBOUNDED_HI)),
        BiomeFamily::MountainPeak => normal_rule(DETERMINISTIC, (0, 59), (85, 100), (0, 100), (0, 100), (-20 as i64, 60), (0, 0), (6, UNBOUNDED_HI)),
        BiomeFamily::Ocean => normal_rule(DETERMINISTIC, (0, 100), (-25 as i64, -5 as i64), (0, 100), (0, 100), (UNBOUNDED_LO, 100), (500, UNBOUNDED_HI), (0, 0)),
        BiomeFamily::DeepOcean => normal_rule(DETERMINISTIC, (0, 100), (-100 as i64, -26 as i64), (0, 100), (0, 100), (UNBOUNDED_LO, 100), (500, UNBOUNDED_HI), (0, 0)),
        BiomeFamily::ShallowOcean => normal_rule(DETERMINISTIC, (0, 100), (-4 as i64, 0), (0, 100), (0, 100), (UNBOUNDED_LO, 100), (500, UNBOUNDED_HI), (0, 0)),
        BiomeFamily::Pond => normal_rule(DETERMINISTIC, (0, UNBOUNDED_HI), (-10 as i64, 0), (0, 100), (0, 100), (UNBOUNDED_LO, 100), (1, 15), (51, UNBOUNDED_HI)),
        BiomeFamily::WetSinkhole => normal_rule(DETERMINISTIC, (0, UNBOUNDED_HI), (-100 as i64, -11 as i64), (0, 100), (0, 100), (UNBOUNDED_LO, 100), (1, 15), (51, UNBOUNDED_HI)),
        BiomeFamily::Lagoon => normal_rule(DETERMINISTIC, (0, UNBOUNDED_HI), (-100 as i64, 0), (0, 100), (0, 100), (UNBOUNDED_LO, 100), (1, 250), (1, 50)),
        BiomeFamily::GreatLagoon => normal_rule(DETERMINISTIC, (0, UNBOUNDED_HI), (-100 as i64, 0), (0, 100), (0, 100), (UNBOUNDED_LO, 100), (251, 499), (1, 50)),
        BiomeFamily::Lake => normal_rule(DETERMINISTIC, (0, UNBOUNDED_HI), (-20 as i64, 0), (0, 100), (0, 100), (0, 100), (16, 250), (51, UNBOUNDED_HI)),
        BiomeFamily::DeepLake => normal_rule(DETERMINISTIC, (0, UNBOUNDED_HI), (-100 as i64, -21 as i64), (0, 100), (0, 100), (0, 100), (16, 250), (51, UNBOUNDED_HI)),
        BiomeFamily::FrozenLake => normal_rule(DETERMINISTIC, (0, UNBOUNDED_HI), (-20 as i64, 0), (0, 100), (0, 100), (UNBOUNDED_LO, -1 as i64), (16, 250), (51, UNBOUNDED_HI)),
        BiomeFamily::FrozenDeepLake => normal_rule(DETERMINISTIC, (0, UNBOUNDED_HI), (-100 as i64, -21 as i64), (0, 100), (0, 100), (UNBOUNDED_LO, -1 as i64), (16, 250), (51, UNBOUNDED_HI)),
        BiomeFamily::GreatLake => normal_rule(DETERMINISTIC, (0, UNBOUNDED_HI), (-20 as i64, 0), (0, 100), (0, 100), (0, 100), (251, 499), (51, UNBOUNDED_HI)),
        BiomeFamily::DeepGreatLake => normal_rule(DETERMINISTIC, (0, UNBOUNDED_HI), (-100 as i64, -21 as i64), (0, 100), (0, 100), (0, 100), (251, 499), (51, UNBOUNDED_HI)),
        BiomeFamily::FrozenGreatLake => normal_rule(DETERMINISTIC, (0, UNBOUNDED_HI), (-20 as i64, 0), (0, 100), (0, 100), (UNBOUNDED_LO, -1 as i64), (251, 499), (51, UNBOUNDED_HI)),
        BiomeFamily::FrozenDeepGreatLake => normal_rule(DETERMINISTIC, (0, UNBOUNDED_HI), (-100 as i64, -21 as i64), (0, 100), (0, 100), (UNBOUNDED_LO, -1 as i64), (251, 499), (51, UNBOUNDED_HI)),
        BiomeFamily::Badlands => normal_rule(DETERMINISTIC, (26, 59), (0, 84), (0, 24), (0, 100), (1, 49), (0, 0), (6, UNBOUNDED_HI)),
        BiomeFamily::Forrest => normal_rule(DETERMINISTIC, (0, 59), (0, 84), (25, 35), (25, 45), (1, 30), (0, 0), (6, UNBOUNDED_HI)),
        BiomeFamily::SparceForrest => normal_rule(3, (0, 59), (0, 84), (25, 40), (0, 24), (1, 30), (0, 0), (6, UNBOUNDED_HI)),
        BiomeFamily::DeepForrest => normal_rule(DETERMINISTIC, (0, 59), (0, 84), (36, 40), (25, 45), (1, 30), (0, 0), (6, UNBOUNDED_HI)),
        BiomeFamily::Rainforrest => normal_rule(DETERMINISTIC, (0, 59), (0, 84), (25, 50), (51, 100), (31, 60), (0, 0), (6, UNBOUNDED_HI)),
        BiomeFamily::SwampyRainforrest => normal_rule(DETERMINISTIC, (0, 59), (0, 84), (51, 100), (0, 100), (31, 60), (0, 0), (6, UNBOUNDED_HI)),
        BiomeFamily::SwampyForrest => normal_rule(DETERMINISTIC, (0, 59), (0, 84), (41, 100), (51, 100), (15, 30), (0, 0), (6, UNBOUNDED_HI)),
        BiomeFamily::Bog => normal_rule(DETERMINISTIC, (0, 59), (0, 84), (41, 100), (0, 100), (1, 14), (0, 0), (6, UNBOUNDED_HI)),
        BiomeFamily::Marsh => normal_rule(DETERMINISTIC, (0, 59), (0, 84), (25, 40), (46, 100), (1, 30), (0, 0), (6, UNBOUNDED_HI)),
        BiomeFamily::Swamp => normal_rule(DETERMINISTIC, (0, 59), (0, 84), (41, 100), (0, 50), (15, 30), (0, 0), (6, UNBOUNDED_HI)),
        BiomeFamily::IceTaiga => normal_rule(DETERMINISTIC, (0, 59), (0, 84), (26, 100), (0, 24), (UNBOUNDED_LO, 0), (0, 0), (6, UNBOUNDED_HI)),
        BiomeFamily::SnowyTundra => normal_rule(DETERMINISTIC, (0, 59), (0, 84), (0, 25), (0, 100), (UNBOUNDED_LO, 0), (0, 0), (6, UNBOUNDED_HI)),
        BiomeFamily::BorealForrest => normal_rule(DETERMINISTIC, (0, 59), (0, 84), (26, 100), (25, 100), (UNBOUNDED_LO, 0), (0, 0), (6, UNBOUNDED_HI)),
        BiomeFamily::RockyFields => normal_rule(7, (0, 59), (0, 84), (25, 40), (0, 24), (1, 30), (0, 0), (6, UNBOUNDED_HI)),
        BiomeFamily::SandyCoast => normal_rule(DETERMINISTIC, (0, 1), (0, 100), (0, 100), (0, 100), (5, 55), (0, 0), (0, 5)),
        BiomeFamily::RockyCoast => normal_rule(DETERMINISTIC, (2, 100), (0, 100), (0, 100), (0, 100), (-20 as i64, 55), (0, 0), (0, 5)),
        BiomeFamily::MacrotidalShingleBeach => normal_rule(DETERMINISTIC, (0, 1), (0, 100), (0, 100), (0, 100), (-25 as i64, 4), (0, 0), (0, 5)),
        BiomeFamily::ScorchedBeach => normal_rule(DETERMINISTIC, (0, 100), (0, 100), (0, 100), (0, 100), (56, 100), (0, 0), (0, 5)),
    }
}

/// The magic interval of a variant.
pub open spec fn variant_magic(v: BiomeVariant) -> Interval {
    match v {
        BiomeVariant::Normal => Interval { lo: 0, hi: 100 },
        BiomeVariant::Warped => Interval { lo: 16, hi: 100 },
        BiomeVariant::Chaotic => Interval { lo: 0, hi: 15 },
    }
}

/// The chaos interval of a variant.
pub open spec fn variant_chaos(v: BiomeVariant) -> Interval {
    match v {
        BiomeVariant::Normal => Interval { lo: 0, hi: 15 },
        BiomeVariant::Warped => Interval { lo: 16, hi: 100 },
        BiomeVariant::Chaotic => Interval { lo: 16, hi: 100 },
    }
}

/// The rule of a biome in the basic preset: its base biome's rule with the
/// magic and chaos intervals of its variant.
pub open spec fn basic_params(b: Biomes) -> BiomeParams {
    let p = family_params(family_of(b));
    let v = variant_of(b);
    BiomeParams { magic_pct: variant_magic(v), chaos_pct: variant_chaos(v), ..p }
}

/// The rule table of the basic preset: one rule for every biome.
pub open spec fn basic_table() -> Map<Biomes, BiomeParams> {
    Map::new(|b: Biomes| true, |b: Biomes| basic_params(b))
}

fn make_normal_rule(
    weight: usize,
    height_diff: (i64, i64),
    height_pct: (i64, i64),
    moisture_pct: (i64, i64),
    rainfall_pct: (i64, i64),
    temp: (i64, i64),
    water_body_size: (i64, i64),
    ocean_dist: (i64, i64),
) -> (r: BiomeParams)
    ensures
        r == normal_rule(
            weight,
            height_diff,
            height_pct,
            moisture_pct,
            rainfall_pct,
            temp,
            water_body_size,
            ocean_dist,
        ),
{
    BiomeParams {
        weight,
        height_diff: Interval { lo: height_diff.0, hi: height_diff.1 },
        height_pct: Interval { lo: height_pct.0, hi: height_pct.1 },
        moisture_pct: Interval { lo: moisture_pct.0, hi: moisture_pct.1 },
        rainfall_pct: Interval { lo: rainfall_pct.0, hi: rainfall_pct.1 },
        temp: Interval { lo: temp.0, hi: temp.1 },
        magic_pct: Interval { lo: 0, hi: 100 },
        chaos_pct: Interval { lo: 0, hi: 15 },
        water_body_size: Interval { lo: water_body_size.0, hi: water_body_size.1 },
        ocean_dist: Interval { lo: ocean_dist.0, hi: ocean_dist.1 },
    }
}

fn family_rule(f: BiomeFamily) -> (r: BiomeParams)
    ensures
        r == family_params(f),
{
    match f {
        BiomeFamily::Grasslands => make_normal_rule(90, (0, 59), (0, 84), (25, 40), (0, 24), (1, 30), (0, 0), (6, UNBOUNDED_HI)),
        BiomeFamily::Desert => make_normal_rule(DETERMINISTIC, (0, 25), (0, 84), (0, 24), (0, 100), (1, 49), (0, 0), (6, UNBOUNDED_HI)),
        BiomeFamily::Ashlands => make_normal_rule(DETERMINISTIC, (0, 59), (0, 84), (0, 24), (0, 100), (50, 60), (0, 0), (6, UNBOUNDED_HI)),
        BiomeFamily::Savannah => make_normal_rule(DETERMINISTIC, (0, 59), (0, 84), (25, 50), (0, 50), (31, 60), (0, 0), (6, UNBOUNDED_HI)),
        BiomeFamily::SteepMountain => make_normal_rule(DETERMINISTIC, (60, UNBOUNDED_HI), (0, 100), (0, 100), (0, 100), (-20, 60), (0, 0), (6, UNBOUNDED_HI)),
        BiomeFamily::MountainPeak => make_normal_rule(DETERMINISTIC, (0, 59), (85, 100), (0, 100), (0, 100), (-20, 60), (0, 0), (6, UNBOUNDED_HI)),
        BiomeFamily::Ocean => make_normal_rule(DETERMINISTIC, (0, 100), (-25, -5), (0, 100), (0, 100), (UNBOUNDED_LO, 100), (500, UNBOUNDED_HI), (0, 0)),
        BiomeFamily::DeepOcean => make_normal_rule(DETERMINISTIC, (0, 100), (-100, -26), (0, 100), (0, 100), (UNBOUNDED_LO, 100), (500, UNBOUNDED_HI), (0, 0)),
        BiomeFamily::ShallowOcean => make_normal_rule(DETERMINISTIC, (0, 100), (-4, 0), (0, 100), (0, 100), (UNBOUNDED_LO, 100), (500, UNBOUNDED_HI), (0, 0)),
        BiomeFamily::Pond => make_normal_rule(DETERMINISTIC, (0, UNBOUNDED_HI), (-10, 0), (0, 100), (0, 100), (UNBOUNDED_LO, 100), (1, 15), (51, UNBOUNDED_HI)),
        BiomeFamily::WetSinkhole => make_normal_rule(DETERMINISTIC, (0, UNBOUNDED_HI), (-100, -11), (0, 100), (0, 100), (UNBOUNDED_LO, 100), (1, 15), (51, UNBOUNDED_HI)),
        BiomeFamily::Lagoon => make_normal_rule(DETERMINISTIC, (0, UNBOUNDED_HI), (-100, 0), (0, 100), (0, 100), (UNBOUNDED_LO, 100), (1, 250), (1, 50)),
        BiomeFamily::GreatLagoon => make_normal_rule(DETERMINISTIC, (0, UNBOUNDED_HI), (-100, 0), (0, 100), (0, 100), (UNBOUNDED_LO, 100), (251, 499), (1, 50)),
        BiomeFamily::Lake => make_normal_rule(DETERMINISTIC, (0, UNBOUNDED_HI), (-20, 0), (0, 100), (0, 100), (0, 100), (16, 250), (51, UNBOUNDED_HI)),
        BiomeFamily::DeepLake => make_normal_rule(DETERMINISTIC, (0, UNBOUNDED_HI), (-100, -21), (0, 100), (0, 100), (0, 100), (16, 250), (51, UNBOUNDED_HI)),
        BiomeFamily::FrozenLake => make_normal_rule(DETERMINISTIC, (0, UNBOUNDED_HI), (-20, 0), (0, 100), (0, 100), (UNBOUNDED_LO, -1), (16, 250), (51, UNBOUNDED_HI)),
        BiomeFamily::FrozenDeepLake => make_normal_rule(DETERMINISTIC, (0, UNBOUNDED_HI), (-100, -21), (0, 100), (0, 100), (UNBOUNDED_LO, -1), (16, 250), (51, UNBOUNDED_HI)),
        BiomeFamily::GreatLake => make_normal_rule(DETERMINISTIC, (0, UNBOUNDED_HI), (-20, 0), (0, 100), (0, 100), (0, 100), (251, 499), (51, UNBOUNDED_HI)),
        BiomeFamily::DeepGreatLake => make_normal_rule(DETERMINISTIC, (0, UNBOUNDED_HI), (-100, -21), (0, 100), (0, 100), (0, 100), (251, 499), (51, UNBOUNDED_HI)),
        BiomeFamily::FrozenGreatLake => make_normal_rule(DETERMINISTIC, (0, UNBOUNDED_HI), (-20, 0), (0, 100), (0, 100), (UNBOUNDED_LO, -1), (251, 499), (51, UNBOUNDED_HI)),
        BiomeFamily::FrozenDeepGreatLake => make_normal_rule(DETERMINISTIC, (0, UNBOUNDED_HI), (-100, -21), (0, 100), (0, 100), (UNBOUNDED_LO, -1), (251, 499), (51, UNBOUNDED_HI)),
        BiomeFamily::Badlands => make_normal_rule(DETERMINISTIC, (26, 59), (0, 84), (0, 24), (0, 100), (1, 49), (0, 0), (6, UNBOUNDED_HI)),
        BiomeFamily::Forrest => make_normal_rule(DETERMINISTIC, (0, 59), (0, 84), (25, 35), (25, 45), (1, 30), (0, 0), (6, UNBOUNDED_HI)),
        BiomeFamily::SparceForrest => make_normal_rule(3, (0, 59), (0, 84), (25, 40), (0, 24), (1, 30), (0, 0), (6, UNBOUNDED_HI)),
        BiomeFamily::DeepForrest => make_normal_rule(DETERMINISTIC, (0, 59), (0, 84), (36, 40), (25, 45), (1, 30), (0, 0), (6, UNBOUNDED_HI)),
        BiomeFamily::Rainforrest => make_normal_rule(DETERMINISTIC, (0, 59), (0, 84), (25, 50), (51, 100), (31, 60), (0, 0), (6, UNBOUNDED_HI)),
        BiomeFamily::SwampyRainforrest => make_normal_rule(DETERMINISTIC, (0, 59), (0, 84), (51, 100), (0, 100), (31, 60), (0, 0), (6, UNBOUNDED_HI)),
        BiomeFamily::SwampyForrest => make_normal_rule(DETERMINISTIC, (0, 59), (0, 84), (41, 100), (51, 100), (15, 30), (0, 0), (6, UNBOUNDED_HI)),
        BiomeFamily::Bog => make_normal_rule(DETERMINISTIC, (0, 59), (0, 84), (41, 100), (0, 100), (1, 14), (0, 0), (6, UNBOUNDED_HI)),
        BiomeFamily::Marsh => make_normal_rule(DETERMINISTIC, (0, 59), (0, 84), (25, 40), (46, 100), (1, 30), (0, 0), (6, UNBOUNDED_HI)),
        BiomeFamily::Swamp => make_normal_rule(DETERMINISTIC, (0, 59), (0, 84), (41, 100), (0, 50), (15, 30), (0, 0), (6, UNBOUNDED_HI)),
        BiomeFamily::IceTaiga => make_normal_rule(DETERMINISTIC, (0, 59), (0, 84), (26, 100), (0, 24), (UNBOUNDED_LO, 0), (0, 0), (6, UNBOUNDED_HI)),
        BiomeFamily::SnowyTundra => make_normal_rule(DETERMINISTIC, (0, 59), (0, 84), (0, 25), (0, 100), (UNBOUNDED_LO, 0), (0, 0), (6, UNBOUNDED_HI)),
        BiomeFamily::BorealForrest => make_normal_rule(DETERMINISTIC, (0, 59), (0, 84), (26, 100), (25, 100), (UNBOUNDED_LO, 0), (0, 0), (6, UNBOUNDED_HI)),
        BiomeFamily::RockyFields => make_normal_rule(7, (0, 59), (0, 84), (25, 40), (0, 24), (1, 30), (0, 0), (6, UNBOUNDED_HI)),
        BiomeFamily::SandyCoast => make_normal_rule(DETERMINISTIC, (0, 1), (0, 100), (0, 100), (0, 100), (5, 55), (0, 0), (0, 5)),
        BiomeFamily::RockyCoast => make_normal_rule(DETERMINISTIC, (2, 100), (0, 100), (0, 100), (0, 100), (-20, 55), (0, 0), (0, 5)),
        BiomeFamily::MacrotidalShingleBeach => make_normal_rule(DETERMINISTIC, (0, 1), (0, 100), (0, 100), (0, 100), (-25, 4), (0, 0), (0, 5)),
        BiomeFamily::ScorchedBeach => make_normal_rule(DETERMINISTIC, (0, 100), (0, 100), (0, 100), (0, 100), (56, 100), (0, 0), (0, 5)),
    }
}

/// The rule of `b` in the basic preset.
pub fn basic_biome_params(b: Biomes) -> (r: BiomeParams)
    ensures
        r == basic_params(b),
{
    let p = family_rule(b.family());
    let (magic_pct, chaos_pct) = match b.variant() {
        BiomeVariant::Normal => (Interval { lo: 0, hi: 100 }, Interval { lo: 0, hi: 15 }),
        BiomeVariant::Warped => (Interval { lo: 16, hi: 100 }, Interval { lo: 16, hi: 100 }),
        BiomeVariant::Chaotic => (Interval { lo: 0, hi: 15 }, Interval { lo: 16, hi: 100 }),
    };
    BiomeParams { magic_pct, chaos_pct, ..p }
}

#[verifier::external_type_specification]
#[verifier::external_body]
pub struct ExFxHasher(fxhash::FxHasher);

#[verifier::external_type_specification]
#[verifier::external_body]
#[verifier::reject_recursive_types(H)]
pub struct ExBuildHasherDefault<H>(std::hash::BuildHasherDefault<H>);

/// The rule table's map type: biome to rule, hashed with fxhash.
pub type BiomeRuleMap = FxHashMap<Biomes, BiomeParams>;

/// `FxHashMap::default()`: a `std` `HashMap` with fxhash's hasher, empty.
/// The contract claims that the new map holds no entry.
#[verifier::external_body]
fn new_rule_map() -> (r: BiomeRuleMap)
    ensures
        r@.dom().is_empty(),
{
    FxHashMap::default()
}

/// `HashMap::insert` on an `FxHashMap`.  The contract claims that the entry
/// of `b` is set to `p` and every other entry is kept; this rests on the
/// `Eq` and `Hash` impls that `derive` writes for `Biomes`, which agree.
#[verifier::external_body]
fn insert_rule(m: &mut BiomeRuleMap, b: Biomes, p: BiomeParams)
    ensures
        final(m)@ == old(m)@.insert(b, p),
{
    m.insert(b, p);
}

/// `HashMap::get` on an `FxHashMap`, copying the found value.  The contract
/// claims that the result is the entry of `b`, or `None` when there is none.
#[verifier::external_body]
fn rule_of(m: &BiomeRuleMap, b: Biomes) -> (r: Option<BiomeParams>)
    ensures
        match r {
            Some(p) => m@.contains_key(b) && m@[b] == p,
            None => !m@.contains_key(b),
        },
{
    m.get(&b).copied()
}

/// The rule presets that can be loaded.
#[derive(Clone, Copy, Debug, PartialEq, Eq, Structural)]
pub enum BiomeParamPresetVals {
    Basic,
}

/// The rule table of a preset.
pub open spec fn preset_table(preset: BiomeParamPresetVals) -> Map<Biomes, BiomeParams> {
    match preset {
        BiomeParamPresetVals::Basic => basic_table(),
    }
}

/// A loaded rule table, keyed by biome.
pub struct BiomeParamPresets {
    biome_params: BiomeRuleMap,
}

impl View for BiomeParamPresets {
    type V = Map<Biomes, BiomeParams>;

    closed spec fn view(&self) -> Map<Biomes, BiomeParams> {
        self.biome_params@
    }
}

/// `biome_at` and `biome_index` are inverse on the positions of the order.
pub proof fn lemma_biome_at_index(k: int)
    requires
        0 <= k < BIOME_COUNT,
    ensures
        biome_index(biome_at(k)) == k,
{
    lemma_family_at_index(k / 3);
    lemma_family_parts(family_at(k / 3), variant_at(k % 3));
}

impl BiomeParamPresets {
    /// The rule table.
    pub fn biome_params(&self) -> (r: &BiomeRuleMap)
        ensures
            r@ == self@,
    {
        &self.biome_params
    }

    /// Loads the rule table of `preset`: one rule for every biome.
    pub fn new(preset: &BiomeParamPresetVals) -> (r: Self)
        ensures
            r@ == preset_table(*preset),
    {
        let mut biome_params = new_rule_map();
        match preset {
            BiomeParamPresetVals::Basic => {
                let order = biome_eval_order();
                let mut k: usize = 0;
                while k < order.len()
                    invariant
                        order@ == eval_order(),
                        k <= order.len(),
                        biome_params@ == Map::new(
                            |b: Biomes| biome_index(b) < k,
                            |b: Biomes| basic_params(b),
                        ),
                    decreases order.len() - k,
                {
                    let b = order[k];
                    insert_rule(&mut biome_params, b, basic_biome_params(b));
                    proof {
                        lemma_biome_at_index(k as int);
                        assert forall|x: Biomes| biome_index(x) == k implies x == b by {
                            lemma_biome_parts(x);
                        }
                        assert(biome_params@ =~= Map::new(
                            |x: Biomes| biome_index(x) < k + 1,
                            |x: Biomes| basic_params(x),
                        ));
                    }
                    k = k + 1;
                }
                proof {
                    assert forall|x: Biomes| biome_index(x) < BIOME_COUNT by {
                        lemma_biome_parts(x);
                    }
                    assert(biome_params@ =~= basic_table());
                }
                BiomeParamPresets { biome_params }
            },
        }
    }
}

/// `lo <= v <= hi`.
pub open spec fn in_interval(v: i64, iv: Interval) -> bool {
    iv.lo <= v && v <= iv.hi
}

/// A cell sample lies inside every interval of a rule.
pub open spec fn rule_matches(p: BiomeParams, s: CellSample) -> bool {
    &&& in_interval(s.height_diff, p.height_diff)
    &&& in_interval(s.height_pct, p.height_pct)
    &&& in_interval(s.moisture_pct, p.moisture_pct)
    &&& in_interval(s.rainfall_pct, p.rainfall_pct)
    &&& in_interval(s.temp, p.temp)
    &&& in_interval(s.magic_pct, p.magic_pct)
    &&& in_interval(s.chaos_pct, p.chaos_pct)
    &&& in_interval(s.water_body_size, p.water_body_size)
    &&& in_interval(s.nearest_ocean_dist, p.ocean_dist)
}

fn in_range(value: i64, iv: Interval) -> (r: bool)
    ensures
        r == in_interval(value, iv),
{
    value >= iv.lo && value <= iv.hi
}

/// Whether `sample` lies inside every interval of `params`.
pub fn biome_matches(params: &BiomeParams, sample: &CellSample) -> (r: bool)
    ensures
        r == rule_matches(*params, *sample),
{
    in_range(sample.height_diff, params.height_diff) && in_range(sample.height_pct, params.height_pct)
        && in_range(sample.moisture_pct, params.moisture_pct) && in_range(
        sample.rainfall_pct,
        params.rainfall_pct,
    ) && in_range(sample.temp, params.temp) && in_range(sample.magic_pct, params.magic_pct)
        && in_range(sample.chaos_pct, params.chaos_pct) && in_range(
        sample.water_body_size,
        params.water_body_size,
    ) && in_range(sample.nearest_ocean_dist, params.ocean_dist)
}

/// The biome at position `k` of the order has a deterministic rule in `m`
/// that `s` matches.
pub open spec fn deterministic_hit(m: Map<Biomes, BiomeParams>, s: CellSample, k: int) -> bool {
    let b = eval_order()[k];
    m.contains_key(b) && m[b].weight == DETERMINISTIC && rule_matches(m[b], s)
}

/// The biome at position `k` of the order has a weighted rule in `m` that
/// `s` matches.
pub open spec fn weighted_hit(m: Map<Biomes, BiomeParams>, s: CellSample, k: int) -> bool {
    let b = eval_order()[k];
    m.contains_key(b) && m[b].weight != DETERMINISTIC && rule_matches(m[b], s)
}

/// The first biome at or after position `k` of the order whose deterministic
/// rule matches `s`.
pub open spec fn first_deterministic(m: Map<Biomes, BiomeParams>, s: CellSample, k: int) -> Option<
    Biomes,
>
    decreases BIOME_COUNT - k,
{
    if k < 0 || k >= BIOME_COUNT {
        None
    } else if deterministic_hit(m, s, k) {
        Some(eval_order()[k])
    } else {
        first_deterministic(m, s, k + 1)
    }
}

/// The biomes before position `k` of the order whose weighted rule matches
/// `s`, in order, each with its weight.
pub open spec fn weighted_candidates(m: Map<Biomes, BiomeParams>, s: CellSample, k: int) -> Seq<
    (Biomes, usize),
>
    decreases k,
{
    if k <= 0 {
        Seq::empty()
    } else {
        let prev = weighted_candidates(m, s, k - 1);
        if weighted_hit(m, s, k - 1) {
            let b = eval_order()[k - 1];
            prev.push((b, m[b].weight))
        } else {
            prev
        }
    }
}

/// Sum of the weights of a candidate list.
pub open spec fn weight_total(w: Seq<(Biomes, usize)>) -> nat
    decreases w.len(),
{
    if w.len() == 0 {
        0
    } else {
        weight_total(w.drop_last()) + w.last().1 as nat
    }
}

/// The candidate whose slice of the cumulative weights holds `roll`; the
/// last candidate when `roll` lies past all of them.
pub open spec fn weighted_pick(w: Seq<(Biomes, usize)>, roll: int) -> Biomes
    decreases w.len(),
{
    if w.len() <= 1 || roll < w[0].1 {
        w[0].0
    } else {
        weighted_pick(w.drop_first(), roll - w[0].1)
    }
}

/// The roll of a cell: its hash, taken as a `usize`, modulo the total weight
/// (modulo 1 when the total is 0).
pub open spec fn weighted_roll(hash: u64, total: nat) -> int {
    (hash as usize) as int % (if total == 0 { 1 } else { total as int })
}

/// The biome chosen for sample `s` with cell hash `hash`: the first matching
/// deterministic rule in evaluation order, else the weighted choice among the
/// matching weighted rules.
pub open spec fn selected_biome(m: Map<Biomes, BiomeParams>, s: CellSample, hash: u64) -> Biomes {
    match first_deterministic(m, s, 0) {
        Some(b) => b,
        None => {
            let w = weighted_candidates(m, s, BIOME_COUNT as int);
            weighted_pick(w, weighted_roll(hash, weight_total(w)))
        },
    }
}

/// Some rule matches `s` and, when no deterministic rule does, the weights
/// of the matching rules sum to at most `usize::MAX`.
pub open spec fn selection_defined(m: Map<Biomes, BiomeParams>, s: CellSample) -> bool {
    first_deterministic(m, s, 0) is Some || {
        let w = weighted_candidates(m, s, BIOME_COUNT as int);
        w.len() > 0 && weight_total(w) <= usize::MAX
    }
}

/// The total of a prefix of a candidate list is the total of the shorter
/// prefix plus the next weight, and never exceeds the total of the list.
pub proof fn lemma_weight_total_prefix(w: Seq<(Biomes, usize)>, i: int)
    requires
        0 <= i <= w.len(),
    ensures
        weight_total(w.take(i)) <= weight_total(w),
        i < w.len() ==> weight_total(w.take(i + 1)) == weight_total(w.take(i)) + w[i].1,
    decreases w.len(),
{
    if i < w.len() {
        assert(w.take(i + 1).drop_last() =~= w.take(i));
        lemma_weight_total_prefix(w.drop_last(), i);
        assert(w.drop_last().take(i) =~= w.take(i));
    } else {
        assert(w.take(i) =~= w);
    }
}

/// The biome of a cell with sample `sample` and cell hash `hash` under the
/// rules `biome_params`: the first deterministic rule in evaluation order that
/// matches wins; otherwise the matching weighted rules share the roll
/// `hash % total weight` by their weights, in evaluation order.
pub fn pick_biome(biome_params: &BiomeRuleMap, x: usize, y: usize, sample: &CellSample, hash: u64) -> (r:
    Biomes)
    requires
        selection_defined(biome_params@, *sample),
    ensures
        r == selected_biome(biome_params@, *sample, hash),
{
    let ghost m = biome_params@;
    let ghost s = *sample;
    let order = biome_eval_order();
    let mut k: usize = 0;
    while k < order.len()
        invariant
            order@ == eval_order(),
            k <= order.len(),
            m == biome_params@,
            s == *sample,
            first_deterministic(m, s, 0) == first_deterministic(m, s, k as int),
        decreases order.len() - k,
    {
        let biome = order[k];
        match rule_of(biome_params, biome) {
            Some(params) => {
                if params.weight == DETERMINISTIC && biome_matches(&params, sample) {
                    return biome;
                }
            },
            None => {},
        }
        k = k + 1;
    }
    let mut weighted: Vec<(Biomes, usize)> = Vec::new();
    k = 0;
    while k < order.len()
        invariant
            order@ == eval_order(),
            k <= order.len(),
            m == biome_params@,
            s == *sample,
            weighted@ == weighted_candidates(m, s, k as int),
        decreases order.len() - k,
    {
        let biome = order[k];
        match rule_of(biome_params, biome) {
            Some(params) => {
                if params.weight != DETERMINISTIC && biome_matches(&params, sample) {
                    weighted.push((biome, params.weight));
                }
            },
            None => {},
        }
        k = k + 1;
    }
    let ghost w = weighted@;
    let mut total: usize = 0;
    let mut i: usize = 0;
    while i < weighted.len()
        invariant
            w == weighted@,
            i <= w.len(),
            total == weight_total(w.take(i as int)),
            weight_total(w) <= usize::MAX,
        decreases w.len() - i,
    {
        proof {
            lemma_weight_total_prefix(w, i as int);
            lemma_weight_total_prefix(w, i + 1);
        }
        total = total + weighted[i].1;
        i = i + 1;
    }
    proof {
        assert(w.take(w.len() as int) =~= w);
    }
    let divisor = if total == 0 {
        1
    } else {
        total
    };
    let mut roll: usize = (hash as usize) % divisor;
    let ghost roll0 = roll as int;
    assert(selected_biome(m, s, hash) == weighted_pick(w, roll0));
    i = 0;
    while i < weighted.len()
        invariant
            w == weighted@,
            selected_biome(biome_params@, *sample, hash) == weighted_pick(w, roll0),
            w.len() > 0,
            i <= w.len(),
            i < w.len() ==> weighted_pick(w, roll0) == weighted_pick(
                w.subrange(i as int, w.len() as int),
                roll as int,
            ),
            i == w.len() ==> weighted_pick(w, roll0) == w[w.len() - 1].0,
        decreases w.len() - i,
    {
        let (biome, weight) = weighted[i];
        let ghost rest = w.subrange(i as int, w.len() as int);
        assert(rest[0] == (biome, weight));
        if roll < weight {
            return biome;
        }
        roll = roll - weight;
        proof {
            if i + 1 < w.len() {
                assert(rest.drop_first() =~= w.subrange(i + 1, w.len() as int));
            }
        }
        i = i + 1;
    }
    weighted[weighted.len() - 1].0
}

/// Whether `pick_biome` is defined on `sample`: some rule matches it and, when
/// no deterministic rule does, the matching weights sum to at most `usize::MAX`.
pub fn biome_rule_applies(biome_params: &BiomeRuleMap, sample: &CellSample) -> (r: bool)
    ensures
        r == selection_defined(biome_params@, *sample),
{
    let ghost m = biome_params@;
    let ghost s = *sample;
    let order = biome_eval_order();
    let mut k: usize = 0;
    while k < order.len()
        invariant
            order@ == eval_order(),
            k <= order.len(),
            m == biome_params@,
            s == *sample,
            first_deterministic(m, s, 0) == first_deterministic(m, s, k as int),
        decreases order.len() - k,
    {
        let biome = order[k];
        match rule_of(biome_params, biome) {
            Some(params) => {
                if params.weight == DETERMINISTIC && biome_matches(&params, sample) {
                    return true;
                }
            },
            None => {},
        }
        k = k + 1;
    }
    k = 0;
    let mut total: usize = 0;
    let mut any_weighted = false;
    while k < order.len()
        invariant
            order@ == eval_order(),
            k <= order.len(),
            m == biome_params@,
            s == *sample,
            first_deterministic(m, s, 0) is None,
            total == weight_total(weighted_candidates(m, s, k as int)),
            any_weighted == (weighted_candidates(m, s, k as int).len() > 0),
        decreases order.len() - k,
    {
        let biome = order[k];
        proof {
            let prev = weighted_candidates(m, s, k as int);
            let entry = (biome, if m.contains_key(biome) { m[biome].weight } else { 0 });
            assert(prev.push(entry).drop_last() =~= prev);
        }
        match rule_of(biome_params, biome) {
            Some(params) => {
                if params.weight != DETERMINISTIC && biome_matches(&params, sample) {
                    any_weighted = true;
                    match total.checked_add(params.weight) {
                        Some(t) => {
                            total = t;
                        },
                        None => {
                            proof {
                                lemma_weight_total_grows(m, s, k as int + 1, BIOME_COUNT as int);
                            }
                            return false;
                        },
                    }
                }
            },
            None => {},
        }
        k = k + 1;
    }
    any_weighted
}

/// Totals of the candidate lists only grow along the order.
pub proof fn lemma_weight_total_grows(m: Map<Biomes, BiomeParams>, s: CellSample, k1: int, k2: int)
    requires
        0 <= k1 <= k2,
    ensures
        weight_total(weighted_candidates(m, s, k1)) <= weight_total(weighted_candidates(m, s, k2)),
        weighted_candidates(m, s, k1).len() <= weighted_candidates(m, s, k2).len(),
    decreases k2 - k1,
{
    if k1 < k2 {
        lemma_weight_total_grows(m, s, k1, k2 - 1);
        let prev = weighted_candidates(m, s, k2 - 1);
        if weighted_hit(m, s, k2 - 1) {
            let b = eval_order()[k2 - 1];
            assert(prev.push((b, m[b].weight)).drop_last() =~= prev);
        }
    }
}

/// The first deterministic match, when there is one, is a biome whose
/// deterministic rule matches, and no deterministic rule before it does.
pub proof fn lemma_first_deterministic_hit(m: Map<Biomes, BiomeParams>, s: CellSample, k: int)
    requires
        0 <= k,
    ensures
        match first_deterministic(m, s, k) {
            Some(b) => {
                &&& 0 <= biome_index(b) < BIOME_COUNT
                &&& k <= biome_index(b)
                &&& deterministic_hit(m, s, biome_index(b))
                &&& forall|j: int| k <= j < biome_index(b) ==> !deterministic_hit(m, s, j)
            },
            None => forall|j: int| k <= j < BIOME_COUNT ==> !deterministic_hit(m, s, j),
        },
    decreases BIOME_COUNT - k,
{
    if k < BIOME_COUNT {
        lemma_first_deterministic_hit(m, s, k + 1);
        if deterministic_hit(m, s, k) {
            lemma_biome_at_index(k);
        }
    }
}

/// Every candidate of the weighted list is a biome before position `k` whose
/// weighted rule matches, listed with its weight.
pub proof fn lemma_weighted_candidates_hit(m: Map<Biomes, BiomeParams>, s: CellSample, k: int, i: int)
    requires
        0 <= i < weighted_candidates(m, s, k).len(),
    ensures
        m.contains_key(weighted_candidates(m, s, k)[i].0),
        m[weighted_candidates(m, s, k)[i].0].weight == weighted_candidates(m, s, k)[i].1,
        m[weighted_candidates(m, s, k)[i].0].weight != DETERMINISTIC,
        rule_matches(m[weighted_candidates(m, s, k)[i].0], s),
    decreases k,
{
    if k > 0 {
        let prev = weighted_candidates(m, s, k - 1);
        if i < prev.len() {
            lemma_weighted_candidates_hit(m, s, k - 1, i);
        }
    }
}

/// The weighted choice is one of the candidates.
pub proof fn lemma_weighted_pick_in(w: Seq<(Biomes, usize)>, roll: int)
    requires
        w.len() > 0,
    ensures
        exists|i: int| 0 <= i < w.len() && w[i].0 == weighted_pick(w, roll),
    decreases w.len(),
{
    if w.len() <= 1 || roll < w[0].1 {
        assert(w[0].0 == weighted_pick(w, roll));
    } else {
        lemma_weighted_pick_in(w.drop_first(), roll - w[0].1);
        let i = choose|i: int|
            0 <= i < w.drop_first().len() && w.drop_first()[i].0 == weighted_pick(
                w.drop_first(),
                roll - w[0].1,
            );
        assert(w[i + 1].0 == weighted_pick(w, roll));
    }
}

/// The chosen biome has a rule that the sample matches; it is deterministic
/// whenever some deterministic rule matches, and then no deterministic rule
/// earlier in the evaluation order matches.
pub proof fn lemma_selected_biome_matches(m: Map<Biomes, BiomeParams>, s: CellSample, hash: u64)
    requires
        selection_defined(m, s),
    ensures
        m.contains_key(selected_biome(m, s, hash)),
        rule_matches(m[selected_biome(m, s, hash)], s),
        (exists|j: int| 0 <= j < BIOME_COUNT && deterministic_hit(m, s, j)) ==> {
            &&& m[selected_biome(m, s, hash)].weight == DETERMINISTIC
            &&& forall|j: int|
                0 <= j < biome_index(selected_biome(m, s, hash)) ==> !deterministic_hit(m, s, j)
        },
{
    lemma_first_deterministic_hit(m, s, 0);
    match first_deterministic(m, s, 0) {
        Some(b) => {
            lemma_biome_parts(b);
        },
        None => {
            let w = weighted_candidates(m, s, BIOME_COUNT as int);
            let roll = weighted_roll(hash, weight_total(w));
            lemma_weighted_pick_in(w, roll);
            let i = choose|i: int| 0 <= i < w.len() && w[i].0 == weighted_pick(w, roll);
            lemma_weighted_candidates_hit(m, s, BIOME_COUNT as int, i);
        },
    }
}

/// Each weighted candidate receives exactly its own slice of the rolls: a roll
/// between the totals of the candidates before it and up to it picks it.
pub proof fn lemma_weighted_pick_slice(w: Seq<(Biomes, usize)>, j: int, roll: int)
    requires
        0 <= j < w.len(),
        weight_total(w.take(j)) <= roll < weight_total(w.take(j + 1)),
    ensures
        weighted_pick(w, roll) == w[j].0,
    decreases w.len(),
{
    lemma_weight_total_prefix(w, j);
    lemma_weight_total_first(w, j + 1);
    if j > 0 {
        lemma_weight_total_first(w, j);
        assert(w.drop_first().take(j - 1) =~= w.take(j).drop_first());
        assert(w.drop_first().take(j) =~= w.take(j + 1).drop_first());
        lemma_weighted_pick_slice(w.drop_first(), j - 1, roll - w[0].1);
    } else {
        assert(w.take(0) =~= Seq::<(Biomes, usize)>::empty());
        assert(w.take(1).drop_last() =~= w.take(0));
    }
}

/// The total of a non-empty prefix is its first weight plus the total of the
/// rest of the prefix.
pub proof fn lemma_weight_total_first(w: Seq<(Biomes, usize)>, n: int)
    requires
        0 < n <= w.len(),
    ensures
        weight_total(w.take(n)) == w[0].1 + weight_total(w.take(n).drop_first()),
    decreases n,
{
    if n > 1 {
        lemma_weight_total_first(w, n - 1);
        assert(w.take(n).drop_last() =~= w.take(n - 1));
        assert(w.take(n).drop_first().drop_last() =~= w.take(n - 1).drop_first());
    } else {
        assert(w.take(n).drop_last() =~= Seq::<(Biomes, usize)>::empty());
        assert(w.take(n).drop_first() =~= Seq::<(Biomes, usize)>::empty());
    }
}

/// `(x * 73856093) xor (y * 19349663)`, each product taken modulo `2^64`.
pub open spec fn cell_hash_of(x: usize, y: usize) -> u64 {
    ((x as nat * 73856093nat) % 0x1_0000_0000_0000_0000nat) as u64 ^ ((y as nat * 19349663nat)
        % 0x1_0000_0000_0000_0000nat) as u64
}

/// The hash of cell `(x, y)` that drives the weighted choice.
pub fn cell_hash(x: usize, y: usize) -> (r: u64)
    ensures
        r == cell_hash_of(x, y),
{
    (x as u64).wrapping_mul(73856093) ^ (y as u64).wrapping_mul(19349663)
}

/// The biomes of row `y` of a sample grid under the rules of `presets`.
pub fn assign_biome_row(presets: &BiomeParamPresets, y: usize, width: usize, row: &Vec<CellSample>) -> (r:
    Vec<Biomes>)
    requires
        width <= row.len(),
        forall|x: int| 0 <= x < width ==> selection_defined(presets@, #[trigger] row[x]),
    ensures
        r.len() == width,
        forall|x: int|
            0 <= x < width ==> r[x] == selected_biome(presets@, row[x], cell_hash_of(x as usize, y)),
{
    let biome_params = presets.biome_params();
    let mut out: Vec<Biomes> = Vec::new();
    let mut x: usize = 0;
    while x < width
        invariant
            x <= width,
            width <= row.len(),
            biome_params@ == presets@,
            forall|i: int| 0 <= i < width ==> selection_defined(presets@, #[trigger] row[i]),
            out.len() == x,
            forall|i: int|
                0 <= i < x ==> out[i] == selected_biome(presets@, row[i], cell_hash_of(i as usize, y)),
        decreases width - x,
    {
        let hash = cell_hash(x, y);
        let biome = pick_biome(biome_params, x, y, &row[x], hash);
        out.push(biome);
        x = x + 1;
    }
    out
}

/// The biome of every cell of a `width` x `height` sample grid (indexed
/// `samples[y][x]`) under the rule preset `biome_set`.
pub fn assign_biome(width: usize, height: usize, samples: &Vec<Vec<CellSample>>, biome_set: BiomeParamPresetVals) -> (r:
    Vec<Vec<Biomes>>)
    requires
        height <= samples.len(),
        forall|y: int| 0 <= y < height ==> width <= (#[trigger] samples[y]).len(),
        forall|y: int, x: int|
            0 <= y < height && 0 <= x < width ==> selection_defined(
                preset_table(biome_set),
                #[trigger] samples[y][x],
            ),
    ensures
        r.len() == height,
        forall|y: int| 0 <= y < height ==> (#[trigger] r[y]).len() == width,
        forall|y: int, x: int|
            0 <= y < height && 0 <= x < width ==> #[trigger] r[y][x] == selected_biome(
                preset_table(biome_set),
                samples[y][x],
                cell_hash_of(x as usize, y as usize),
            ),
{
    let presets = BiomeParamPresets::new(&biome_set);
    let mut rows: Vec<Vec<Biomes>> = Vec::new();
    let mut y: usize = 0;
    while y < height
        invariant
            y <= height,
            height <= samples.len(),
            presets@ == preset_table(biome_set),
            forall|j: int| 0 <= j < height ==> width <= (#[trigger] samples[j]).len(),
            forall|j: int, i: int|
                0 <= j < height && 0 <= i < width ==> selection_defined(
                    preset_table(biome_set),
                    #[trigger] samples[j][i],
                ),
            rows.len() == y,
            forall|j: int| 0 <= j < y ==> (#[trigger] rows[j]).len() == width,
            forall|j: int, i: int|
                0 <= j < y && 0 <= i < width ==> #[trigger] rows[j][i] == selected_biome(
                    preset_table(biome_set),
                    samples[j][i],
                    cell_hash_of(i as usize, j as usize),
                ),
        decreases height - y,
    {
        let row = assign_biome_row(&presets, y, width, &samples[y]);
        rows.push(row);
        y = y + 1;
    }
    rows
}

/// `deep` is the deeper counterpart of `shallow` among the water bodies
/// (same kind of water, lower part of the depth range).
pub open spec fn deeper_water(deep: BiomeFamily, shallow: BiomeFamily) -> bool {
    ||| deep == BiomeFamily::DeepLake && shallow == BiomeFamily::Lake
    ||| deep == BiomeFamily::FrozenDeepLake && shallow == BiomeFamily::FrozenLake
    ||| deep == BiomeFamily::DeepGreatLake && shallow == BiomeFamily::GreatLake
    ||| deep == BiomeFamily::FrozenDeepGreatLake && shallow == BiomeFamily::FrozenGreatLake
    ||| deep == BiomeFamily::DeepOcean && shallow == BiomeFamily::Ocean
    ||| deep == BiomeFamily::Ocean && shallow == BiomeFamily::ShallowOcean
}

/// The lake kinds whose depth is split into a shallow and a deep biome.
pub open spec fn split_lake(shallow: BiomeFamily) -> bool {
    ||| shallow == BiomeFamily::Lake
    ||| shallow == BiomeFamily::FrozenLake
    ||| shallow == BiomeFamily::GreatLake
    ||| shallow == BiomeFamily::FrozenGreatLake
}

/// In the basic table a deeper water biome lies below its shallower
/// counterpart: every height the deep rule accepts is lower than every height
/// the shallow rule accepts, and the two meet with no height between them.
/// The split lakes share the whole water column: the shallow rule reaches the
/// water line (0), the deep one the bottom (-100), and every height in
/// `-100..=0` belongs to exactly one of them. This holds for every variant.
pub proof fn lemma_deep_water_below_shallow(deep: Biomes, shallow: Biomes, h: i64, g: i64)
    requires
        deeper_water(family_of(deep), family_of(shallow)),
    ensures
        in_interval(h, basic_params(deep).height_pct) && in_interval(g, basic_params(shallow).height_pct) ==> h < g,
        basic_params(deep).height_pct.hi + 1 == basic_params(shallow).height_pct.lo,
        split_lake(family_of(shallow)) ==> {
            &&& in_interval(0i64, basic_params(shallow).height_pct)
            &&& in_interval(-100i64, basic_params(deep).height_pct)
            &&& (-100 <= h <= 0 ==> in_interval(h, basic_params(deep).height_pct) != in_interval(
                h,
                basic_params(shallow).height_pct,
            ))
            &&& (!(-100 <= h <= 0) ==> !in_interval(h, basic_params(deep).height_pct) && !in_interval(
                h,
                basic_params(shallow).height_pct,
            ))
        },
{
}

} // verus!
