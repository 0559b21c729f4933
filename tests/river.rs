use river_terrain::export::{analysis_colors, height_bytes, river_mask_colors, zone_overlay};
use river_terrain::placement::{
    EnemyPlacementConfig, GridPos, PlacementZone, RiverAnalysis, TerrainAnalysis, ZoneType,
};
use river_terrain::river::{erosion_factor, water_from_carve};

#[test]
fn erosion_falls_off_quadratically() {
    // strength 0.8, river 20 units wide, erosion radius 120 units
    assert_eq!(erosion_factor(5000, 20000, 800, 120000), 800);
    assert_eq!(erosion_factor(10000, 20000, 800, 120000), 800);
    // halfway across the radius: (1 - 0.5)^2 = 0.25
    assert_eq!(erosion_factor(70000, 20000, 800, 120000), 200);
    assert_eq!(erosion_factor(130000, 20000, 800, 120000), 0);
    assert_eq!(erosion_factor(200000, 20000, 800, 120000), 0);
    // no radius: nothing beyond the water edge
    assert_eq!(erosion_factor(10001, 20000, 800, 0), 0);
}

#[test]
fn only_deep_carving_is_water() {
    let carve = vec![-8000i64, -701, -700, -100, 0, 50];
    assert_eq!(water_from_carve(&carve), vec![true, true, false, false, false, false]);
}

#[test]
fn heights_spread_over_grey_levels() {
    assert_eq!(height_bytes(&vec![0, 500, 1000]), vec![0, 127, 255]);
    assert_eq!(height_bytes(&vec![-2000, 2000, 0]), vec![0, 255, 127]);
    assert_eq!(height_bytes(&vec![7, 7, 7]), vec![0, 0, 0]);
    assert_eq!(height_bytes(&Vec::new()), Vec::<u8>::new());
}

#[test]
fn analysis_picture_colours() {
    let a = TerrainAnalysis {
        height_map: vec![0; 3],
        slope_map: vec![0, 0, 500],
        building_flatness_map: vec![0, 0, 1000],
        tank_flatness_map: vec![0; 3],
        vehicle_flatness_map: vec![0; 3],
        river_analysis: RiverAnalysis {
            distance_field: vec![0, 1000, 9000],
            water_mask: vec![true, false, false],
            exclusion_mask: vec![true, true, false],
        },
    };
    let rgb = analysis_colors(&a, 3);
    assert_eq!(rgb, vec![0, 0, 255, 255, 200, 200, 127, 255, 100]);
}

fn zone(x: usize, y: usize, zone_type: ZoneType) -> PlacementZone {
    PlacementZone { position: GridPos { x, y }, zone_type, suitability_score: 0 }
}

fn rgb(img: &[u8], width: usize, x: usize, y: usize) -> (u8, u8, u8) {
    let k = 3 * (y * width + x);
    (img[k], img[k + 1], img[k + 2])
}

#[test]
fn zone_discs_follow_the_radius() {
    let config = EnemyPlacementConfig::default();
    // vehicle radius 2 cells
    let img = zone_overlay(&vec![zone(5, 5, ZoneType::Vehicle)], &config, 11, 11);
    assert_eq!(img.len(), 3 * 121);
    for y in 0..11usize {
        for x in 0..11usize {
            let dx = x as i64 - 5;
            let dy = y as i64 - 5;
            let inside = dx * dx + dy * dy <= 4;
            let expected = if inside { (255, 255, 0) } else { (0, 0, 0) };
            assert_eq!(rgb(&img, 11, x, y), expected);
        }
    }
}

#[test]
fn later_zones_draw_over_earlier_ones() {
    let config = EnemyPlacementConfig::default();
    let zones = vec![zone(4, 4, ZoneType::Building), zone(6, 4, ZoneType::Tank)];
    let img = zone_overlay(&zones, &config, 12, 9);
    assert_eq!(rgb(&img, 12, 1, 4), (255, 0, 0));
    assert_eq!(rgb(&img, 12, 5, 4), (255, 165, 0));
    assert_eq!(rgb(&img, 12, 9, 4), (255, 165, 0));
    assert_eq!(rgb(&img, 12, 10, 4), (0, 0, 0));
    assert_eq!(rgb(&img, 12, 0, 4), (255, 0, 0));
}

#[test]
fn zone_centred_outside_still_reaches_in() {
    let config = EnemyPlacementConfig::default();
    // building radius 4: centre two columns right of the grid
    let img = zone_overlay(&vec![zone(7, 2, ZoneType::Building)], &config, 6, 5);
    assert_eq!(rgb(&img, 6, 5, 2), (255, 0, 0));
    assert_eq!(rgb(&img, 6, 3, 2), (255, 0, 0));
    assert_eq!(rgb(&img, 6, 2, 2), (0, 0, 0));
    let far = zone_overlay(&vec![zone(usize::MAX, usize::MAX, ZoneType::Tank)], &config, 6, 5);
    assert!(far.iter().all(|&b| b == 0));
}

#[test]
fn river_picture_colours() {
    // river depth 8 units
    let carve = vec![-8000i64, -4000, -100, -50, 0, 300, -20000];
    let rgb = river_mask_colors(&carve, 8000);
    assert_eq!(
        rgb,
        vec![
            0, 127, 255, // deepest channel
            0, 63, 127, // half depth
            255, 127, 0, // bank, carve 0.1 saturates
            127, 63, 0, // shallow bank
            255, 255, 255, // untouched
            255, 255, 255, // raised ground
            0, 127, 255, // deeper than the river depth
        ]
    );
    assert_eq!(river_mask_colors(&vec![-5000], 0), vec![0, 127, 255]);
}
