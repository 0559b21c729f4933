use river_terrain::distance::{distance_field, UNREACHED};
use river_terrain::grid::{cell_index, neighbor};

fn octile(ax: usize, ay: usize, bx: usize, by: usize) -> u64 {
    let dx = ax.abs_diff(bx) as u64;
    let dy = ay.abs_diff(by) as u64;
    let (lo, hi) = if dx < dy { (dx, dy) } else { (dy, dx) };
    1414 * lo + 1000 * (hi - lo)
}

fn brute_force(mask: &[bool], width: usize, height: usize) -> Vec<u64> {
    let mut out = vec![UNREACHED; width * height];
    for y in 0..height {
        for x in 0..width {
            for wy in 0..height {
                for wx in 0..width {
                    if mask[wy * width + wx] {
                        let d = octile(x, y, wx, wy);
                        if d < out[y * width + x] {
                            out[y * width + x] = d;
                        }
                    }
                }
            }
        }
    }
    out
}

#[test]
fn single_water_cell_gives_octile_distances() {
    let mut mask = vec![false; 25];
    mask[2 * 5 + 2] = true;
    let d = distance_field(&mask, 5, 5);
    assert_eq!(d[2 * 5 + 2], 0);
    assert_eq!(d[0], 2828);
    assert_eq!(d[2], 2000);
    assert_eq!(d[2 * 5 + 1], 1000);
    assert_eq!(d[3 * 5 + 4], 2414);
    assert_eq!(d[4 * 5 + 4], 2828);
}

#[test]
fn no_water_leaves_every_cell_unreached() {
    let mask = vec![false; 12];
    let d = distance_field(&mask, 4, 3);
    assert!(d.iter().all(|&v| v == UNREACHED));
}

#[test]
fn empty_grid_gives_empty_field() {
    let d = distance_field(&Vec::new(), 0, 7);
    assert!(d.is_empty());
}

#[test]
fn distance_is_zero_exactly_on_water() {
    let width = 9;
    let height = 7;
    let mut mask = vec![false; width * height];
    for &(x, y) in &[(0usize, 0usize), (4, 3), (8, 6), (7, 1)] {
        mask[y * width + x] = true;
    }
    let d = distance_field(&mask, width, height);
    for k in 0..width * height {
        assert_eq!(d[k] == 0, mask[k]);
        if !mask[k] {
            assert!(d[k] > 0);
        }
    }
}

#[test]
fn distance_matches_nearest_water_by_brute_force() {
    let width = 11;
    let height = 8;
    let mut mask = vec![false; width * height];
    for k in 0..width * height {
        if (k * 7 + 3) % 17 == 0 {
            mask[k] = true;
        }
    }
    let d = distance_field(&mask, width, height);
    assert_eq!(d, brute_force(&mask, width, height));
}

#[test]
fn distance_never_decreases_away_from_water() {
    let width = 12;
    let height = 1;
    let mut mask = vec![false; width];
    mask[0] = true;
    let d = distance_field(&mask, width, height);
    for x in 1..width {
        assert!(d[x - 1] <= d[x]);
        assert_eq!(d[x], 1000 * x as u64);
    }
}

#[test]
fn distance_grows_along_a_diagonal_path() {
    let width = 6;
    let height = 6;
    let mut mask = vec![false; 36];
    mask[0] = true;
    let d = distance_field(&mask, width, height);
    for i in 1..6 {
        assert!(d[(i - 1) * width + (i - 1)] <= d[i * width + i]);
        assert_eq!(d[i * width + i], 1414 * i as u64);
    }
}

#[test]
fn neighbors_stay_inside_the_grid() {
    assert_eq!(neighbor(0, 0, 3, 3, 0), Some((0, 1)));
    assert_eq!(neighbor(0, 0, 3, 3, 3), None);
    assert_eq!(neighbor(2, 2, 3, 3, 4), None);
    assert_eq!(neighbor(1, 1, 3, 3, 5), Some((0, 0)));
    assert_eq!(cell_index(2, 1, 4, 3), 6);
}
