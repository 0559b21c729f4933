use vstd::prelude::*;
use vstd::relations::sorted_by;
use crate::distance::{distance_field, is_distance_field};
use crate::flatness::lemma_flatness_bounded;
use crate::slope::lemma_slope_bounded;
use crate::flatness::{flatness_grid, flatness_map};
use crate::grid::{cell_index, idx, lemma_cell, MAX_SIDE};
use crate::slope::{slope_grid, slope_map};

verus! {

/// Tuning of the placement analysis. Lengths are in thousandths of a grid cell, river
/// effect values and slopes in thousandths (a slope of 1000 is the steepest after
/// normalisation), fractions in thousandths.
#[derive(Clone, Copy, Debug, PartialEq, Eq, Structural)]
pub struct EnemyPlacementConfig {
    /// A cell whose river effect reaches this value is water.
    pub river_threshold: i64,
    /// Cells nearer to water than this are excluded.
    pub bank_margin: u64,
    /// No zone lies nearer to water than this.
    pub min_distance_from_river: u64,
    pub building_radius: u64,
    pub tank_radius: u64,
    pub vehicle_radius: u64,
    /// Steepest normalised slope that still counts as flat.
    pub max_slope: u64,
    /// Smallest fraction of flat cells a footprint needs.
    pub min_flat_area: u64,
    /// Factor applied to a footprint radius before measuring flatness.
    pub flatness_safety_margin: u64,
}

/// The configuration the generator starts with.
pub open spec fn default_placement_config() -> EnemyPlacementConfig {
    EnemyPlacementConfig {
        river_threshold: 300,
        bank_margin: 8000,
        min_distance_from_river: 12000,
        building_radius: 4000,
        tank_radius: 3000,
        vehicle_radius: 2000,
        max_slope: 200,
        min_flat_area: 700,
        flatness_safety_margin: 1500,
    }
}

impl Default for EnemyPlacementConfig {
    fn default() -> (r: Self)
        ensures
            r == default_placement_config(),
    {
        EnemyPlacementConfig {
            river_threshold: 300,
            bank_margin: 8000,
            min_distance_from_river: 12000,
            building_radius: 4000,
            tank_radius: 3000,
            vehicle_radius: 2000,
            max_slope: 200,
            min_flat_area: 700,
            flatness_safety_margin: 1500,
        }
    }
}

/// Why a placement configuration cannot be used.
#[derive(Clone, Copy, Debug, PartialEq, Eq, Structural)]
pub enum ConfigError {
    /// The river threshold lies outside `0 ..= 1000`.
    ThresholdOutOfRange,
    /// A footprint radius is zero.
    NonPositiveRadius,
    /// The flatness safety margin is zero, which would shrink every footprint to a point.
    NonPositiveSafetyMargin,
}

/// The configuration error, if any, in the order the checks are made.
pub open spec fn config_error(c: EnemyPlacementConfig) -> Option<ConfigError> {
    if c.river_threshold < 0 || c.river_threshold > 1000 {
        Some(ConfigError::ThresholdOutOfRange)
    } else if c.building_radius == 0 || c.tank_radius == 0 || c.vehicle_radius == 0 {
        Some(ConfigError::NonPositiveRadius)
    } else if c.flatness_safety_margin == 0 {
        Some(ConfigError::NonPositiveSafetyMargin)
    } else {
        None
    }
}

impl EnemyPlacementConfig {
    /// Checks the configuration before any analysis runs on it.
    pub fn validate(&self) -> (r: Result<(), ConfigError>)
        ensures
            r is Ok <==> config_error(*self) is None,
            r is Err ==> config_error(*self) == Some(r->Err_0),
    {
        if self.river_threshold < 0 || self.river_threshold > 1000 {
            Err(ConfigError::ThresholdOutOfRange)
        } else if self.building_radius == 0 || self.tank_radius == 0 || self.vehicle_radius == 0 {
            Err(ConfigError::NonPositiveRadius)
        } else if self.flatness_safety_margin == 0 {
            Err(ConfigError::NonPositiveSafetyMargin)
        } else {
            Ok(())
        }
    }
}

/// Water, distance to water and the cells kept clear of it, one entry per cell in
/// row-major order.
#[derive(Clone, Debug)]
pub struct RiverAnalysis {
    /// Distance to the nearest water cell, in thousandths of a cell.
    pub distance_field: Vec<u64>,
    pub water_mask: Vec<bool>,
    pub exclusion_mask: Vec<bool>,
}

/// Cells whose river effect reaches `threshold`.
pub open spec fn water_of(river_mask: Seq<i64>, threshold: i64) -> Seq<bool> {
    Seq::new(river_mask.len(), |k: int| river_mask[k] >= threshold)
}

/// Water cells and the cells nearer to water than `margin`.
pub open spec fn exclusion_of(water: Seq<bool>, dist: Seq<u64>, margin: u64) -> Seq<bool> {
    Seq::new(water.len(), |k: int| water[k] || dist[k] < margin)
}

/// What `analyze_river_exclusion` computes from a grid of river effect values.
pub open spec fn is_river_analysis(
    river_mask: Seq<i64>,
    config: EnemyPlacementConfig,
    width: int,
    height: int,
    a: RiverAnalysis,
) -> bool {
    &&& a.water_mask@ == water_of(river_mask, config.river_threshold)
    &&& is_distance_field(a.water_mask@, width, height, a.distance_field@)
    &&& a.exclusion_mask@ == exclusion_of(a.water_mask@, a.distance_field@, config.bank_margin)
}

/// Kind of object a zone can hold, from the most demanding footprint to the least.
#[derive(Clone, Copy, Debug, PartialEq, Eq, Structural)]
pub enum ZoneType {
    Building,
    Tank,
    Vehicle,
}

/// Column and row of a grid cell.
#[derive(Clone, Copy, Debug, PartialEq, Eq, Structural)]
pub struct GridPos {
    pub x: usize,
    pub y: usize,
}

/// A cell chosen to hold an object, with its score in units of 1/400000.
#[derive(Clone, Copy, Debug, PartialEq, Eq, Structural)]
pub struct PlacementZone {
    pub position: GridPos,
    pub zone_type: ZoneType,
    pub suitability_score: i128,
}

/// Every grid the placement decision reads, one entry per cell in row-major order.
#[derive(Clone, Debug)]
pub struct TerrainAnalysis {
    /// Heights in thousandths of a world unit.
    pub height_map: Vec<i32>,
    pub slope_map: Vec<u64>,
    pub building_flatness_map: Vec<u64>,
    pub tank_flatness_map: Vec<u64>,
    pub vehicle_flatness_map: Vec<u64>,
    pub river_analysis: RiverAnalysis,
}

/// A building needs more than this distance to water (thousandths of a cell).
pub const BUILDING_MIN_DISTANCE: u64 = 20000;

/// A tank needs more than this distance to water (thousandths of a cell).
pub const TANK_MIN_DISTANCE: u64 = 15000;

/// Zones keep this many cells away from the grid border.
pub const ZONE_MARGIN: usize = 5;

/// Every grid of `a` holds one entry per cell of a `width` by `height` grid.
pub open spec fn analysis_fits(a: TerrainAnalysis, width: int, height: int) -> bool {
    &&& a.height_map@.len() == width * height
    &&& a.slope_map@.len() == width * height
    &&& a.building_flatness_map@.len() == width * height
    &&& a.tank_flatness_map@.len() == width * height
    &&& a.vehicle_flatness_map@.len() == width * height
    &&& a.river_analysis.distance_field@.len() == width * height
    &&& a.river_analysis.water_mask@.len() == width * height
    &&& a.river_analysis.exclusion_mask@.len() == width * height
}

/// Weighted score, in units of 1/400000: a quarter for the distance beyond the minimum
/// (per 20 cells), 0.3 for the lack of slope, 0.3 for flatness and 0.15 for the height
/// (capped at one world unit).
pub open spec fn suitability(
    config: EnemyPlacementConfig,
    river_distance: u64,
    slope: u64,
    flatness: u64,
    height: i32,
) -> int {
    5 * (river_distance - config.min_distance_from_river) + 120 * (1000 - slope) + 120 * flatness
        + 60 * (if height < 1000 {
        height as int
    } else {
        1000
    })
}

/// The first kind, in priority order, whose flatness, slope and distance demands a cell
/// meets.
pub open spec fn zone_kind(
    config: EnemyPlacementConfig,
    river_distance: u64,
    slope: u64,
    building_flatness: u64,
    tank_flatness: u64,
    vehicle_flatness: u64,
) -> Option<ZoneType> {
    if slope > config.max_slope {
        None
    } else if building_flatness >= config.min_flat_area && river_distance > BUILDING_MIN_DISTANCE {
        Some(ZoneType::Building)
    } else if tank_flatness >= config.min_flat_area && river_distance > TANK_MIN_DISTANCE {
        Some(ZoneType::Tank)
    } else if vehicle_flatness >= config.min_flat_area {
        Some(ZoneType::Vehicle)
    } else {
        None
    }
}

/// The zone at cell `(x, y)`, if the cell is clear of the river and fits some kind.
pub open spec fn zone_at(
    a: TerrainAnalysis,
    config: EnemyPlacementConfig,
    w: int,
    x: int,
    y: int,
) -> Option<PlacementZone> {
    let k = idx(x, y, w);
    let dist = a.river_analysis.distance_field@[k];
    let slope = a.slope_map@[k];
    if a.river_analysis.exclusion_mask@[k] || dist < config.min_distance_from_river {
        None
    } else {
        match zone_kind(
            config,
            dist,
            slope,
            a.building_flatness_map@[k],
            a.tank_flatness_map@[k],
            a.vehicle_flatness_map@[k],
        ) {
            Some(kind) => {
                let flat = match kind {
                    ZoneType::Building => a.building_flatness_map@[k],
                    ZoneType::Tank => a.tank_flatness_map@[k],
                    ZoneType::Vehicle => a.vehicle_flatness_map@[k],
                };
                Some(
                    PlacementZone {
                        position: GridPos { x: x as usize, y: y as usize },
                        zone_type: kind,
                        suitability_score: suitability(
                            config,
                            dist,
                            slope,
                            flat,
                            a.height_map@[k],
                        ) as i128,
                    },
                )
            },
            None => None,
        }
    }
}

/// Zones of row `y`, columns `ZONE_MARGIN .. x_end`, left to right.
pub open spec fn row_zones(
    a: TerrainAnalysis,
    config: EnemyPlacementConfig,
    w: int,
    y: int,
    x_end: int,
) -> Seq<PlacementZone>
    decreases x_end,
{
    if x_end <= ZONE_MARGIN {
        Seq::empty()
    } else {
        let prev = row_zones(a, config, w, y, x_end - 1);
        match zone_at(a, config, w, x_end - 1, y) {
            Some(z) => prev.push(z),
            None => prev,
        }
    }
}

/// Zones of rows `ZONE_MARGIN .. y_end`, in scan order.
pub open spec fn scan_zones(
    a: TerrainAnalysis,
    config: EnemyPlacementConfig,
    w: int,
    y_end: int,
) -> Seq<PlacementZone>
    decreases y_end,
{
    if y_end <= ZONE_MARGIN {
        Seq::empty()
    } else {
        scan_zones(a, config, w, y_end - 1) + row_zones(a, config, w, y_end - 1, w - ZONE_MARGIN)
    }
}

/// Every zone of the grid away from its border, in scan order.
pub open spec fn candidate_zones(
    a: TerrainAnalysis,
    config: EnemyPlacementConfig,
    w: int,
    h: int,
) -> Seq<PlacementZone> {
    scan_zones(a, config, w, h - ZONE_MARGIN)
}

/// Highest score first.
pub open spec fn higher_first() -> spec_fn(PlacementZone, PlacementZone) -> bool {
    |p: PlacementZone, q: PlacementZone| p.suitability_score >= q.suitability_score
}

/// Relies on `slice::sort_by` with the reversed score order: the same zones, highest
/// score first.
#[verifier::external_body]
fn sort_by_score(zones: &mut Vec<PlacementZone>)
    ensures
        final(zones)@.to_multiset() == old(zones)@.to_multiset(),
        sorted_by(final(zones)@, higher_first()),
{
    zones.sort_by(|p, q| q.suitability_score.cmp(&p.suitability_score));
}

/// Footprint radius in cells: `radius` scaled by `margin` (both in thousandths), rounded
/// down, and capped at the largest grid side (no square that wide fits in a grid).
pub open spec fn footprint_cells(radius: u64, margin: u64) -> int {
    let r = radius * margin / 1000000;
    if r > MAX_SIDE {
        MAX_SIDE as int
    } else {
        r
    }
}

fn footprint(radius: u64, margin: u64) -> (r: usize)
    ensures
        r == footprint_cells(radius, margin),
{
    proof {
        assert((radius as u128) * (margin as u128) <= 0xffff_ffff_ffff_ffffu128 * 0xffff_ffff_ffff_ffffu128)
            by (nonlinear_arith)
            requires
                radius <= 0xffff_ffff_ffff_ffffu64,
                margin <= 0xffff_ffff_ffff_ffffu64,
        ;
    }
    let cells = (radius as u128) * (margin as u128) / 1000000;
    if cells > MAX_SIDE as u128 {
        MAX_SIDE
    } else {
        cells as usize
    }
}

/// What `generate_enemy_placement_map` builds from a height grid and a river effect grid.
pub open spec fn is_terrain_analysis(
    height_map: Seq<i32>,
    river_mask: Seq<i64>,
    config: EnemyPlacementConfig,
    w: int,
    h: int,
    a: TerrainAnalysis,
) -> bool {
    let slope = slope_grid(height_map, w, h);
    let margin = config.flatness_safety_margin;
    &&& a.height_map@ == height_map
    &&& a.slope_map@ == slope
    &&& a.building_flatness_map@ == flatness_grid(
        slope,
        w,
        h,
        footprint_cells(config.building_radius, margin),
        config.max_slope,
    )
    &&& a.tank_flatness_map@ == flatness_grid(
        slope,
        w,
        h,
        footprint_cells(config.tank_radius, margin),
        config.max_slope,
    )
    &&& a.vehicle_flatness_map@ == flatness_grid(
        slope,
        w,
        h,
        footprint_cells(config.vehicle_radius, margin),
        config.max_slope,
    )
    &&& is_river_analysis(river_mask, config, w, h, a.river_analysis)
}

/// Runs the placement analysis with a fixed configuration.
#[derive(Clone, Debug)]
pub struct EnemyPlacementGenerator {
    pub river_config: EnemyPlacementConfig,
}

impl EnemyPlacementGenerator {
    pub fn new() -> (r: Self)
        ensures
            r.river_config == default_placement_config(),
    {
        EnemyPlacementGenerator { river_config: EnemyPlacementConfig::default() }
    }

    /// Water mask, distance field and exclusion mask of a grid of river effect values.
    pub fn analyze_river_exclusion(&self, river_mask: &Vec<i64>, width: usize, height: usize) -> (r:
        RiverAnalysis)
        requires
            river_mask@.len() == width * height,
            width <= MAX_SIDE,
            height <= MAX_SIDE,
        ensures
            is_river_analysis(river_mask@, self.river_config, width as int, height as int, r),
    {
        let n = river_mask.len();
        let threshold = self.river_config.river_threshold;
        let mut water_mask: Vec<bool> = Vec::new();
        let mut i: usize = 0;
        while i < n
            invariant
                n == river_mask@.len(),
                i <= n,
                water_mask@ =~= water_of(river_mask@, threshold).subrange(0, i as int),
            decreases n - i,
        {
            water_mask.push(river_mask[i] >= threshold);
            i += 1;
        }
        assert(water_mask@ =~= water_of(river_mask@, threshold));
        let distance_field = distance_field(&water_mask, width, height);
        let margin = self.river_config.bank_margin;
        let mut exclusion_mask: Vec<bool> = Vec::new();
        let mut i: usize = 0;
        while i < n
            invariant
                n == water_mask@.len(),
                n == distance_field@.len(),
                i <= n,
                exclusion_mask@ =~= exclusion_of(water_mask@, distance_field@, margin).subrange(
                    0,
                    i as int,
                ),
            decreases n - i,
        {
            exclusion_mask.push(water_mask[i] || distance_field[i] < margin);
            i += 1;
        }
        assert(exclusion_mask@ =~= exclusion_of(water_mask@, distance_field@, margin));
        RiverAnalysis { distance_field, water_mask, exclusion_mask }
    }

    /// Distance from every cell to the nearest water cell, in thousandths of a cell.
    pub fn calculate_distance_field(&self, water_mask: &Vec<bool>, width: usize, height: usize) -> (r:
        Vec<u64>)
        requires
            water_mask@.len() == width * height,
            width <= MAX_SIDE,
            height <= MAX_SIDE,
        ensures
            is_distance_field(water_mask@, width as int, height as int, r@),
    {
        distance_field(water_mask, width, height)
    }

    /// Normalised slope of every cell of a height grid.
    pub fn calculate_slope_map(&self, height_map: &Vec<i32>, width: usize, height: usize) -> (r: Vec<
        u64,
    >)
        requires
            height_map@.len() == width * height,
            width <= MAX_SIDE,
            height <= MAX_SIDE,
        ensures
            r@ == slope_grid(height_map@, width as int, height as int),
            forall|k: int| 0 <= k < r@.len() ==> #[trigger] r@[k] <= 1000,
    {
        slope_map(height_map, width, height)
    }

    /// Flatness of every cell for a footprint of `radius` cells, against the configured
    /// maximum slope.
    pub fn calculate_flatness_map(
        &self,
        slope_map: &Vec<u64>,
        radius: usize,
        width: usize,
        height: usize,
    ) -> (r: Vec<u64>)
        requires
            slope_map@.len() == width * height,
            width <= MAX_SIDE,
            height <= MAX_SIDE,
        ensures
            r@ == flatness_grid(
                slope_map@,
                width as int,
                height as int,
                radius as int,
                self.river_config.max_slope,
            ),
            forall|k: int| 0 <= k < r@.len() ==> #[trigger] r@[k] <= 1000,
    {
        flatness_map(slope_map, radius, self.river_config.max_slope, width, height)
    }

    /// Score of a cell, in units of 1/400000.
    pub fn calculate_suitability_score(
        &self,
        river_distance: u64,
        slope: u64,
        flatness: u64,
        height: i32,
    ) -> (r: i128)
        ensures
            r == suitability(self.river_config, river_distance, slope, flatness, height),
    {
        let capped: i128 = if height < 1000 {
            height as i128
        } else {
            1000
        };
        5 * (river_distance as i128 - self.river_config.min_distance_from_river as i128) + 120 * (1000
            - slope as i128) + 120 * (flatness as i128) + 60 * capped
    }

    /// The kind of zone a cell qualifies for, taking Building, then Tank, then Vehicle.
    pub fn classify_zone(
        &self,
        river_distance: u64,
        slope: u64,
        building_flatness: u64,
        tank_flatness: u64,
        vehicle_flatness: u64,
    ) -> (r: Option<ZoneType>)
        ensures
            r == zone_kind(
                self.river_config,
                river_distance,
                slope,
                building_flatness,
                tank_flatness,
                vehicle_flatness,
            ),
    {
        let cfg = &self.river_config;
        if slope > cfg.max_slope {
            None
        } else if building_flatness >= cfg.min_flat_area && river_distance > BUILDING_MIN_DISTANCE {
            Some(ZoneType::Building)
        } else if tank_flatness >= cfg.min_flat_area && river_distance > TANK_MIN_DISTANCE {
            Some(ZoneType::Tank)
        } else if vehicle_flatness >= cfg.min_flat_area {
            Some(ZoneType::Vehicle)
        } else {
            None
        }
    }

    fn zone_for_cell(
        &self,
        terrain_analysis: &TerrainAnalysis,
        width: usize,
        height: usize,
        x: usize,
        y: usize,
    ) -> (r: Option<PlacementZone>)
        requires
            analysis_fits(*terrain_analysis, width as int, height as int),
            x < width,
            y < height,
            width <= MAX_SIDE,
            height <= MAX_SIDE,
            width * height <= usize::MAX,
        ensures
            r == zone_at(*terrain_analysis, self.river_config, width as int, x as int, y as int),
    {
        let a = terrain_analysis;
        let k = cell_index(x, y, width, height);
        let dist = a.river_analysis.distance_field[k];
        if a.river_analysis.exclusion_mask[k] || dist < self.river_config.min_distance_from_river {
            return None;
        }
        let slope = a.slope_map[k];
        let kind = self.classify_zone(
            dist,
            slope,
            a.building_flatness_map[k],
            a.tank_flatness_map[k],
            a.vehicle_flatness_map[k],
        );
        match kind {
            Some(zone_type) => {
                let flat = match zone_type {
                    ZoneType::Building => a.building_flatness_map[k],
                    ZoneType::Tank => a.tank_flatness_map[k],
                    ZoneType::Vehicle => a.vehicle_flatness_map[k],
                };
                let score = self.calculate_suitability_score(dist, slope, flat, a.height_map[k]);
                Some(PlacementZone { position: GridPos { x, y }, zone_type, suitability_score: score })
            },
            None => None,
        }
    }

    /// Every zone at least `ZONE_MARGIN` cells inside the grid, highest score first.
    pub fn find_suitable_zones(
        &self,
        terrain_analysis: &TerrainAnalysis,
        width: usize,
        height: usize,
    ) -> (zones: Vec<PlacementZone>)
        requires
            analysis_fits(*terrain_analysis, width as int, height as int),
            width <= MAX_SIDE,
            height <= MAX_SIDE,
        ensures
            zones@.to_multiset() == candidate_zones(
                *terrain_analysis,
                self.river_config,
                width as int,
                height as int,
            ).to_multiset(),
            sorted_by(zones@, higher_first()),
    {
        let ghost a = *terrain_analysis;
        let ghost cfg = self.river_config;
        let ghost w = width as int;
        let _n = terrain_analysis.height_map.len();
        let mut zones: Vec<PlacementZone> = Vec::new();
        let mut y: usize = ZONE_MARGIN;
        while y + ZONE_MARGIN < height
            invariant
                analysis_fits(a, w, height as int),
                a == *terrain_analysis,
                cfg == self.river_config,
                w == width,
                width <= MAX_SIDE,
                height <= MAX_SIDE,
                width * height <= usize::MAX,
                ZONE_MARGIN <= y <= MAX_SIDE,
                y == ZONE_MARGIN || y + ZONE_MARGIN <= height,
                zones@ == scan_zones(a, cfg, w, y as int),
            decreases height - y,
        {
            let mut x: usize = ZONE_MARGIN;
            while x + ZONE_MARGIN < width
                invariant
                    analysis_fits(a, w, height as int),
                    a == *terrain_analysis,
                    cfg == self.river_config,
                    w == width,
                    width <= MAX_SIDE,
                    height <= MAX_SIDE,
                    width * height <= usize::MAX,
                    ZONE_MARGIN <= x <= MAX_SIDE,
                    x == ZONE_MARGIN || x + ZONE_MARGIN <= width,
                    y + ZONE_MARGIN < height,
                    zones@ == scan_zones(a, cfg, w, y as int) + row_zones(a, cfg, w, y as int, x as int),
                decreases width - x,
            {
                match self.zone_for_cell(terrain_analysis, width, height, x, y) {
                    Some(z) => {
                        zones.push(z);
                    },
                    None => {},
                }
                proof {
                    assert(zones@ =~= scan_zones(a, cfg, w, y as int) + row_zones(
                        a,
                        cfg,
                        w,
                        y as int,
                        x as int + 1,
                    ));
                }
                x += 1;
            }
            proof {
                if x as int != w - ZONE_MARGIN {
                    assert(row_zones(a, cfg, w, y as int, w - ZONE_MARGIN) =~= Seq::<PlacementZone>::empty());
                    assert(row_zones(a, cfg, w, y as int, x as int) =~= Seq::<PlacementZone>::empty());
                }
            }
            y += 1;
        }
        proof {
            if y as int != height - ZONE_MARGIN {
                assert(scan_zones(a, cfg, w, height - ZONE_MARGIN) =~= Seq::<PlacementZone>::empty());
                assert(scan_zones(a, cfg, w, y as int) =~= Seq::<PlacementZone>::empty());
            }
        }
        sort_by_score(&mut zones);
        zones
    }

    /// Full analysis of a height grid (thousandths of a world unit) and a river effect grid
    /// (thousandths): slope, flatness for each footprint, river exclusion, and the zones
    /// found on them, highest score first.
    pub fn generate_enemy_placement_map(
        &self,
        height_map: &Vec<i32>,
        river_mask: &Vec<i64>,
        width: usize,
        height: usize,
    ) -> (r: (Vec<PlacementZone>, TerrainAnalysis))
        requires
            height_map@.len() == width * height,
            river_mask@.len() == width * height,
            width <= MAX_SIDE,
            height <= MAX_SIDE,
        ensures
            is_terrain_analysis(
                height_map@,
                river_mask@,
                self.river_config,
                width as int,
                height as int,
                r.1,
            ),
            r.0@.to_multiset() == candidate_zones(
                r.1,
                self.river_config,
                width as int,
                height as int,
            ).to_multiset(),
            sorted_by(r.0@, higher_first()),
    {
        let river_analysis = self.analyze_river_exclusion(river_mask, width, height);
        let slope_map = self.calculate_slope_map(height_map, width, height);
        let margin = self.river_config.flatness_safety_margin;
        let building_flat_radius = footprint(self.river_config.building_radius, margin);
        let tank_flat_radius = footprint(self.river_config.tank_radius, margin);
        let vehicle_flat_radius = footprint(self.river_config.vehicle_radius, margin);
        let building_flatness_map = self.calculate_flatness_map(
            &slope_map,
            building_flat_radius,
            width,
            height,
        );
        let tank_flatness_map = self.calculate_flatness_map(&slope_map, tank_flat_radius, width, height);
        let vehicle_flatness_map = self.calculate_flatness_map(
            &slope_map,
            vehicle_flat_radius,
            width,
            height,
        );
        let mut heights: Vec<i32> = Vec::new();
        let mut i: usize = 0;
        while i < height_map.len()
            invariant
                i <= height_map@.len(),
                heights@ =~= height_map@.subrange(0, i as int),
            decreases height_map@.len() - i,
        {
            heights.push(height_map[i]);
            i += 1;
        }
        assert(heights@ =~= height_map@);
        let terrain_analysis = TerrainAnalysis {
            height_map: heights,
            slope_map,
            building_flatness_map,
            tank_flatness_map,
            vehicle_flatness_map,
            river_analysis,
        };
        let zones = self.find_suitable_zones(&terrain_analysis, width, height);
        (zones, terrain_analysis)
    }
}

/// Every water cell is excluded, and so is every cell nearer to water than the bank
/// margin.
pub proof fn lemma_exclusion_covers_water_and_margin(
    river_mask: Seq<i64>,
    config: EnemyPlacementConfig,
    width: int,
    height: int,
    a: RiverAnalysis,
)
    requires
        river_mask.len() == width * height,
        is_river_analysis(river_mask, config, width, height, a),
    ensures
        forall|k: int|
            0 <= k < width * height && #[trigger] a.water_mask@[k] ==> a.exclusion_mask@[k],
        forall|k: int|
            0 <= k < width * height && #[trigger] a.distance_field@[k] < config.bank_margin
                ==> a.exclusion_mask@[k],
{
}

/// Every slope and every flatness value of a terrain analysis lies in `0 ..= 1000`, that is
/// in `[0, 1]` once read as thousandths.
pub proof fn lemma_analysis_values_in_unit_range(
    height_map: Seq<i32>,
    river_mask: Seq<i64>,
    config: EnemyPlacementConfig,
    w: int,
    h: int,
    a: TerrainAnalysis,
)
    requires
        w >= 0,
        h >= 0,
        is_terrain_analysis(height_map, river_mask, config, w, h, a),
    ensures
        forall|k: int| 0 <= k < w * h ==> #[trigger] a.slope_map@[k] <= 1000,
        forall|k: int| 0 <= k < w * h ==> #[trigger] a.building_flatness_map@[k] <= 1000,
        forall|k: int| 0 <= k < w * h ==> #[trigger] a.tank_flatness_map@[k] <= 1000,
        forall|k: int| 0 <= k < w * h ==> #[trigger] a.vehicle_flatness_map@[k] <= 1000,
{
    let slope = slope_grid(height_map, w, h);
    let margin = config.flatness_safety_margin;
    lemma_slope_bounded(height_map, w, h);
    lemma_flatness_bounded(slope, w, h, footprint_cells(config.building_radius, margin), config.max_slope);
    lemma_flatness_bounded(slope, w, h, footprint_cells(config.tank_radius, margin), config.max_slope);
    lemma_flatness_bounded(slope, w, h, footprint_cells(config.vehicle_radius, margin), config.max_slope);
}

proof fn lemma_no_row_zones(
    a: TerrainAnalysis,
    config: EnemyPlacementConfig,
    w: int,
    y: int,
    x_end: int,
)
    requires
        forall|x: int| ZONE_MARGIN <= x < x_end ==> #[trigger] zone_at(a, config, w, x, y) is None,
    ensures
        row_zones(a, config, w, y, x_end) =~= Seq::<PlacementZone>::empty(),
    decreases x_end,
{
    if x_end > ZONE_MARGIN {
        lemma_no_row_zones(a, config, w, y, x_end - 1);
        assert(zone_at(a, config, w, x_end - 1, y) is None);
    }
}

proof fn lemma_no_scan_zones(a: TerrainAnalysis, config: EnemyPlacementConfig, w: int, y_end: int)
    requires
        forall|x: int, y: int|
            ZONE_MARGIN <= x < w - ZONE_MARGIN && ZONE_MARGIN <= y < y_end ==> #[trigger] zone_at(
                a,
                config,
                w,
                x,
                y,
            ) is None,
    ensures
        scan_zones(a, config, w, y_end) =~= Seq::<PlacementZone>::empty(),
    decreases y_end,
{
    if y_end > ZONE_MARGIN {
        lemma_no_scan_zones(a, config, w, y_end - 1);
        lemma_no_row_zones(a, config, w, y_end - 1, w - ZONE_MARGIN);
    }
}

/// No cell qualifies when the configuration asks for a flat share above 1000 thousandths,
/// more than any footprint can have.
pub proof fn lemma_unreachable_flat_area_gives_no_zones(
    height_map: Seq<i32>,
    river_mask: Seq<i64>,
    config: EnemyPlacementConfig,
    w: int,
    h: int,
    a: TerrainAnalysis,
)
    requires
        w >= 0,
        h >= 0,
        config.min_flat_area > 1000,
        is_terrain_analysis(height_map, river_mask, config, w, h, a),
    ensures
        candidate_zones(a, config, w, h) =~= Seq::<PlacementZone>::empty(),
{
    lemma_analysis_values_in_unit_range(height_map, river_mask, config, w, h, a);
    assert forall|x: int, y: int|
        ZONE_MARGIN <= x < w - ZONE_MARGIN && ZONE_MARGIN <= y < h - ZONE_MARGIN implies #[trigger] zone_at(
        a,
        config,
        w,
        x,
        y,
    ) is None by {
        lemma_cell(x, y, w, h);
        let k = idx(x, y, w);
        assert(a.building_flatness_map@[k] <= 1000);
        assert(a.tank_flatness_map@[k] <= 1000);
        assert(a.vehicle_flatness_map@[k] <= 1000);
    }
    lemma_no_scan_zones(a, config, w, h - ZONE_MARGIN);
}

} // verus!
