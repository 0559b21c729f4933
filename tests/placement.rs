use river_terrain::distance::UNREACHED;
use river_terrain::placement::{
    ConfigError, EnemyPlacementConfig, EnemyPlacementGenerator, GridPos, PlacementZone,
    RiverAnalysis, TerrainAnalysis, ZoneType,
};

/// River effect grid of a straight river along `z = 0` for a grid whose row `y` sits at
/// world `z = y - height / 2`, one world unit per cell: full effect within `half_width`.
fn straight_river(width: usize, height: usize, half_width: i64) -> Vec<i64> {
    let mut mask = vec![0i64; width * height];
    for y in 0..height {
        let z = y as i64 - (height / 2) as i64;
        for x in 0..width {
            if z.abs() <= half_width {
                mask[y * width + x] = 1000;
            }
        }
    }
    mask
}

#[test]
fn default_configuration() {
    let c = EnemyPlacementConfig::default();
    assert_eq!(c.river_threshold, 300);
    assert_eq!(c.bank_margin, 8000);
    assert_eq!(c.min_distance_from_river, 12000);
    assert_eq!(c.building_radius, 4000);
    assert_eq!(c.tank_radius, 3000);
    assert_eq!(c.vehicle_radius, 2000);
    assert_eq!(c.max_slope, 200);
    assert_eq!(c.min_flat_area, 700);
    assert_eq!(c.flatness_safety_margin, 1500);
    assert_eq!(EnemyPlacementGenerator::new().river_config, c);
}

#[test]
fn validation_reports_each_error() {
    let ok = EnemyPlacementConfig::default();
    assert_eq!(ok.validate(), Ok(()));
    let mut c = ok;
    c.river_threshold = 1001;
    assert_eq!(c.validate(), Err(ConfigError::ThresholdOutOfRange));
    c.river_threshold = -1;
    assert_eq!(c.validate(), Err(ConfigError::ThresholdOutOfRange));
    let mut c = ok;
    c.tank_radius = 0;
    assert_eq!(c.validate(), Err(ConfigError::NonPositiveRadius));
    let mut c = ok;
    c.flatness_safety_margin = 0;
    assert_eq!(c.validate(), Err(ConfigError::NonPositiveSafetyMargin));
}

#[test]
fn exclusion_covers_water_and_bank_margin() {
    let g = EnemyPlacementGenerator::new();
    let width = 20;
    let height = 20;
    let mut mask = vec![0i64; width * height];
    mask[10 * width + 3] = 300;
    mask[4 * width + 15] = 5000;
    mask[0] = 299;
    let a = g.analyze_river_exclusion(&mask, width, height);
    for k in 0..width * height {
        assert_eq!(a.water_mask[k], mask[k] >= 300);
        if a.water_mask[k] {
            assert!(a.exclusion_mask[k]);
            assert_eq!(a.distance_field[k], 0);
        }
        if a.distance_field[k] < 8000 {
            assert!(a.exclusion_mask[k]);
        } else {
            assert!(!a.exclusion_mask[k]);
        }
    }
}

#[test]
fn straight_river_scenario() {
    let g = EnemyPlacementGenerator::new();
    let width = 64;
    let height = 64;
    let mask = straight_river(width, height, 5);
    let a = g.analyze_river_exclusion(&mask, width, height);
    for y in 0..height {
        let z = y as i64 - 32;
        for x in 0..width {
            let k = y * width + x;
            if z.abs() <= 5 {
                assert!(a.water_mask[k]);
            }
            // beyond bank margin (8) plus half the river width (5)
            if z.abs() > 13 {
                assert!(!a.exclusion_mask[k]);
            }
            assert_eq!(a.distance_field[k], 1000 * (z.abs() - 5).max(0) as u64);
        }
    }
}

#[test]
fn suitability_score_formula() {
    let g = EnemyPlacementGenerator::new();
    // 0.25 * 1 + 0.3 * 0.9 + 0.3 * 0.9 + 0.15 * 0.5 = 0.865
    assert_eq!(g.calculate_suitability_score(32000, 100, 900, 500), 346000);
    // height capped at one unit, distance below the minimum scores negative
    assert_eq!(g.calculate_suitability_score(12000, 0, 0, 90000), 120000 + 60000);
    assert_eq!(g.calculate_suitability_score(0, 1000, 0, -1000), -60000 - 60000);
}

#[test]
fn zone_priority_order() {
    let g = EnemyPlacementGenerator::new();
    assert_eq!(g.classify_zone(20001, 200, 700, 700, 700), Some(ZoneType::Building));
    assert_eq!(g.classify_zone(20000, 200, 700, 700, 700), Some(ZoneType::Tank));
    assert_eq!(g.classify_zone(15000, 200, 700, 700, 700), Some(ZoneType::Vehicle));
    assert_eq!(g.classify_zone(30000, 200, 699, 700, 0), Some(ZoneType::Tank));
    assert_eq!(g.classify_zone(30000, 201, 1000, 1000, 1000), None);
    assert_eq!(g.classify_zone(30000, 0, 0, 0, 699), None);
}

#[test]
fn flat_terrain_yields_buildings_beyond_thresholds() {
    let g = EnemyPlacementGenerator::new();
    let width = 64;
    let height = 64;
    let hm = vec![0i32; width * height];
    let mask = straight_river(width, height, 5);
    let (zones, analysis) = g.generate_enemy_placement_map(&hm, &mask, width, height);
    assert!(analysis.slope_map.iter().all(|&v| v == 0));
    // the building footprint (4 * 1.5 = 6 cells) fits from column and row 6 on
    for y in 6..height - 6 {
        for x in 6..width - 6 {
            let k = y * width + x;
            let d = analysis.river_analysis.distance_field[k];
            let qualifies = !analysis.river_analysis.exclusion_mask[k] && d >= 12000 && d > 20000;
            let found = zones.iter().find(|z| z.position == GridPos { x, y });
            if qualifies {
                assert_eq!(found.map(|z| z.zone_type), Some(ZoneType::Building));
            }
        }
    }
    assert!(!zones.is_empty());
}

#[test]
fn impossible_flat_area_gives_no_zones() {
    let mut g = EnemyPlacementGenerator::new();
    g.river_config.min_flat_area = 1100;
    let width = 40;
    let height = 40;
    let hm = vec![0i32; width * height];
    let mask = straight_river(width, height, 3);
    let (zones, _) = g.generate_enemy_placement_map(&hm, &mask, width, height);
    assert!(zones.is_empty());
}

#[test]
fn zones_come_highest_score_first() {
    let g = EnemyPlacementGenerator::new();
    let width = 48;
    let height = 48;
    // on flat ground the distance to the river alone makes scores differ between rows
    let hm = vec![0i32; width * height];
    let mask = straight_river(width, height, 2);
    let (zones, analysis) = g.generate_enemy_placement_map(&hm, &mask, width, height);
    assert!(zones.len() > 1);
    for pair in zones.windows(2) {
        assert!(pair[0].suitability_score >= pair[1].suitability_score);
    }
    assert!(zones[0].suitability_score > zones[zones.len() - 1].suitability_score);
    for z in &zones {
        assert!(z.position.x >= 5 && z.position.x < width - 5);
        assert!(z.position.y >= 5 && z.position.y < height - 5);
        let k = z.position.y * width + z.position.x;
        assert!(!analysis.river_analysis.exclusion_mask[k]);
    }
}

#[test]
fn find_suitable_zones_sorts_candidates() {
    let g = EnemyPlacementGenerator::new();
    let width = 12;
    let height = 11;
    let n = width * height;
    let mut heights = vec![0i32; n];
    // scan order puts (5, 5) first; give the later cell the higher score
    heights[5 * width + 6] = 900;
    let analysis = TerrainAnalysis {
        height_map: heights,
        slope_map: vec![0; n],
        building_flatness_map: vec![1000; n],
        tank_flatness_map: vec![1000; n],
        vehicle_flatness_map: vec![1000; n],
        river_analysis: RiverAnalysis {
            distance_field: vec![UNREACHED; n],
            water_mask: vec![false; n],
            exclusion_mask: vec![false; n],
        },
    };
    let zones = g.find_suitable_zones(&analysis, width, height);
    // columns 5..7, row 5
    assert_eq!(zones.len(), 2);
    assert_eq!(zones[0].position, GridPos { x: 6, y: 5 });
    assert_eq!(zones[1].position, GridPos { x: 5, y: 5 });
    let expected = PlacementZone {
        position: GridPos { x: 5, y: 5 },
        zone_type: ZoneType::Building,
        suitability_score: 5 * (UNREACHED as i128 - 12000) + 120 * 1000 + 120 * 1000,
    };
    assert_eq!(zones[1], expected);
}

#[test]
fn grids_too_small_for_the_margin_give_no_zones() {
    let g = EnemyPlacementGenerator::new();
    let hm = vec![0i32; 10 * 10];
    let mask = vec![0i64; 10 * 10];
    let (zones, _) = g.generate_enemy_placement_map(&hm, &mask, 10, 10);
    assert!(zones.is_empty());
}
