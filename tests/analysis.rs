use river_terrain::flatness::flatness_map;
use river_terrain::placement::EnemyPlacementGenerator;
use river_terrain::slope::{gradient_magnitudes, integer_sqrt, percentile_reference, slope_map};

#[test]
fn integer_square_roots() {
    assert_eq!(integer_sqrt(0), 0);
    assert_eq!(integer_sqrt(1), 1);
    assert_eq!(integer_sqrt(15), 3);
    assert_eq!(integer_sqrt(16), 4);
    assert_eq!(integer_sqrt(17), 4);
    assert_eq!(integer_sqrt(1u128 << 68), 1u64 << 34);
    assert_eq!(integer_sqrt((1u128 << 68) - 1), (1u64 << 34) - 1);
}

#[test]
fn sobel_on_a_ramp() {
    // heights rise by one world unit (1000 thousandths) per column
    let width = 5;
    let height = 4;
    let hm: Vec<i32> = (0..width * height).map(|k| 1000 * (k % width) as i32).collect();
    let g = gradient_magnitudes(&hm, width, height);
    for y in 0..height {
        for x in 0..width {
            let interior = x >= 1 && x + 1 < width && y >= 1 && y + 1 < height;
            assert_eq!(g[y * width + x], if interior { 8000 } else { 0 });
        }
    }
    let s = slope_map(&hm, width, height);
    for y in 0..height {
        for x in 0..width {
            let interior = x >= 1 && x + 1 < width && y >= 1 && y + 1 < height;
            assert_eq!(s[y * width + x], if interior { 1000 } else { 0 });
        }
    }
}

#[test]
fn percentile_ignores_border_and_sorts() {
    // 4x4 grid: interior cells are indices 5, 6, 9, 10
    let mut m = vec![999u64; 16];
    m[5] = 40;
    m[6] = 10;
    m[9] = 30;
    m[10] = 20;
    // four values, rank 4 * 95 / 100 = 3: the largest
    assert_eq!(percentile_reference(&m, 4, 4), 40);
    m[5] = 5;
    assert_eq!(percentile_reference(&m, 4, 4), 30);
    assert_eq!(percentile_reference(&m, 2, 8), 0);
}

#[test]
fn slope_normalised_against_percentile() {
    // one spike: most interior magnitudes are small, the spike saturates at 1000
    let width = 6;
    let height = 6;
    let mut hm = vec![0i32; 36];
    hm[2 * width + 2] = 4000;
    let g = gradient_magnitudes(&hm, width, height);
    let s = slope_map(&hm, width, height);
    let mut interior: Vec<u64> = Vec::new();
    for y in 1..height - 1 {
        for x in 1..width - 1 {
            interior.push(g[y * width + x]);
        }
    }
    interior.sort();
    let p = interior[interior.len() * 95 / 100];
    assert!(p > 0);
    for k in 0..36 {
        let expected = std::cmp::min(1000, g[k] as u128 * 1000 / p as u128) as u64;
        assert_eq!(s[k], expected);
    }
}

#[test]
fn slope_and_flatness_stay_in_unit_range() {
    let width = 10;
    let height = 9;
    let hm: Vec<i32> = (0..width * height)
        .map(|k| ((k * 7919) % 23) as i32 * 311 - 3000)
        .collect();
    let s = slope_map(&hm, width, height);
    assert!(s.iter().all(|&v| v <= 1000));
    for r in 0..4 {
        let f = flatness_map(&s, r, 300, width, height);
        assert!(f.iter().all(|&v| v <= 1000));
    }
}

#[test]
fn flat_terrain_has_zero_slope() {
    let hm = vec![0i32; 64 * 64];
    let s = slope_map(&hm, 64, 64);
    assert!(s.iter().all(|&v| v == 0));
    let hm = vec![12345i32; 20 * 30];
    let s = slope_map(&hm, 20, 30);
    assert!(s.iter().all(|&v| v == 0));
}

#[test]
fn small_grids_have_no_interior() {
    let hm = vec![5i32, -9, 100, 7];
    assert_eq!(slope_map(&hm, 2, 2), vec![0, 0, 0, 0]);
    assert_eq!(slope_map(&Vec::new(), 0, 0), Vec::<u64>::new());
}

#[test]
fn flatness_counts_the_window() {
    // 5x5 slope grid, one steep cell at (2, 2)
    let mut s = vec![0u64; 25];
    s[2 * 5 + 2] = 900;
    let f = flatness_map(&s, 1, 200, 5, 5);
    // windows of radius 1 fit at columns and rows 1..=3
    assert_eq!(f[1 * 5 + 1], 888);
    assert_eq!(f[2 * 5 + 2], 888);
    assert_eq!(f[3 * 5 + 1], 888);
    assert_eq!(f[0], 0);
    assert_eq!(f[4 * 5 + 4], 0);
    let f2 = flatness_map(&s, 2, 200, 5, 5);
    assert_eq!(f2[2 * 5 + 2], 960);
    assert_eq!(f2[1 * 5 + 1], 0);
    let f0 = flatness_map(&s, 0, 200, 5, 5);
    assert_eq!(f0[2 * 5 + 2], 0);
    assert_eq!(f0[0], 1000);
}

#[test]
fn radius_wider_than_grid_gives_zero_flatness() {
    let s = vec![0u64; 9];
    let f = flatness_map(&s, 2, 200, 3, 3);
    assert_eq!(f, vec![0u64; 9]);
}

#[test]
fn generator_methods_match_free_functions() {
    let g = EnemyPlacementGenerator::new();
    let hm: Vec<i32> = (0..49).map(|k| (k * k % 13) as i32 * 100).collect();
    let s = g.calculate_slope_map(&hm, 7, 7);
    assert_eq!(s, slope_map(&hm, 7, 7));
    assert_eq!(g.calculate_flatness_map(&s, 1, 7, 7), flatness_map(&s, 1, 200, 7, 7));
}
