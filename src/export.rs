use vstd::prelude::*;
use crate::grid::{cell_index, col, lemma_cell_of, row, MAX_SIDE};
use crate::placement::{EnemyPlacementConfig, PlacementZone, TerrainAnalysis, ZoneType};

verus! {

/// Smallest height of a non-empty sequence.
pub open spec fn lowest(s: Seq<i32>) -> int
    decreases s.len(),
{
    if s.len() == 0 {
        0
    } else if s.len() == 1 {
        s[0] as int
    } else if s.last() < lowest(s.drop_last()) {
        s.last() as int
    } else {
        lowest(s.drop_last())
    }
}

/// Largest height of a non-empty sequence.
pub open spec fn highest(s: Seq<i32>) -> int
    decreases s.len(),
{
    if s.len() == 0 {
        0
    } else if s.len() == 1 {
        s[0] as int
    } else if s.last() > highest(s.drop_last()) {
        s.last() as int
    } else {
        highest(s.drop_last())
    }
}

/// Grey level of height `h` when `lo ..= hi` spans `0 ..= 255`; a flat grid is black.
pub open spec fn grey_of(h: int, lo: int, hi: int) -> int {
    if hi == lo {
        0
    } else {
        (h - lo) * 255 / (hi - lo)
    }
}

/// One grey level per height, the lowest height black and the highest white.
pub fn height_bytes(heights: &Vec<i32>) -> (r: Vec<u8>)
    ensures
        r@.len() == heights@.len(),
        forall|k: int|
            0 <= k < heights@.len() ==> #[trigger] r@[k] == grey_of(
                heights@[k] as int,
                lowest(heights@),
                highest(heights@),
            ),
{
    let n = heights.len();
    if n == 0 {
        return Vec::new();
    }
    let mut lo = heights[0];
    let mut hi = heights[0];
    let mut k: usize = 1;
    while k < n
        invariant
            n == heights@.len(),
            1 <= k <= n,
            lo == lowest(heights@.subrange(0, k as int)),
            hi == highest(heights@.subrange(0, k as int)),
            forall|j: int| 0 <= j < k ==> lo <= #[trigger] heights@[j] <= hi,
        decreases n - k,
    {
        assert(heights@.subrange(0, k as int + 1).drop_last() =~= heights@.subrange(0, k as int));
        if heights[k] < lo {
            lo = heights[k];
        }
        if heights[k] > hi {
            hi = heights[k];
        }
        k += 1;
    }
    assert(heights@.subrange(0, n as int) =~= heights@);
    let mut r: Vec<u8> = Vec::new();
    let mut k: usize = 0;
    while k < n
        invariant
            n == heights@.len(),
            k <= n,
            lo == lowest(heights@),
            hi == highest(heights@),
            forall|j: int| 0 <= j < n ==> lo <= #[trigger] heights@[j] <= hi,
            r@.len() == k,
            forall|j: int|
                0 <= j < k ==> #[trigger] r@[j] == grey_of(heights@[j] as int, lo as int, hi as int),
        decreases n - k,
    {
        let v: u8 = if hi == lo {
            0
        } else {
            let num = (heights[k] as i64 - lo as i64) * 255;
            let den = hi as i64 - lo as i64;
            proof {
                let h = heights@[k as int] as int;
                assert(0 <= (h - lo) * 255 / (hi - lo) <= 255) by (nonlinear_arith)
                    requires
                        lo <= h <= hi,
                        lo < hi,
                ;
            }
            (num / den) as u8
        };
        r.push(v);
        k += 1;
    }
    r
}

/// Share in thousandths scaled to a colour channel, saturating at 255.
pub open spec fn intensity(v: u64) -> int {
    if v >= 1000 {
        255
    } else {
        v * 255 / 1000
    }
}

fn channel(v: u64) -> (r: u8)
    ensures
        r == intensity(v),
{
    if v >= 1000 {
        255
    } else {
        (v * 255 / 1000) as u8
    }
}

/// Colour of a cell in the analysis picture: water blue, excluded cells pale red, the
/// others mixing slope (red) and building flatness (green).
pub open spec fn analysis_color(a: TerrainAnalysis, k: int) -> (int, int, int) {
    if a.river_analysis.water_mask@[k] {
        (0, 0, 255)
    } else if a.river_analysis.exclusion_mask@[k] {
        (255, 200, 200)
    } else {
        (intensity(a.slope_map@[k]), intensity(a.building_flatness_map@[k]), 100)
    }
}

/// Position of colour channel `c` of cell `k` in an RGB byte buffer.
pub open spec fn rgb_at(k: int, c: int) -> int {
    3 * k + c
}

/// The three bytes of cell `k` in `r` hold its analysis colour.
pub open spec fn pixel_matches(r: Seq<u8>, a: TerrainAnalysis, k: int) -> bool {
    &&& r[rgb_at(k, 0)] == analysis_color(a, k).0
    &&& r[rgb_at(k, 1)] == analysis_color(a, k).1
    &&& r[rgb_at(k, 2)] == analysis_color(a, k).2
}

/// The analysis picture as RGB bytes, three per cell in row-major order.
pub fn analysis_colors(a: &TerrainAnalysis, n: usize) -> (r: Vec<u8>)
    requires
        a.river_analysis.water_mask@.len() == n,
        a.river_analysis.exclusion_mask@.len() == n,
        a.slope_map@.len() == n,
        a.building_flatness_map@.len() == n,
        3 * n <= usize::MAX,
    ensures
        r@.len() == 3 * n,
        forall|k: int| 0 <= k < n ==> #[trigger] pixel_matches(r@, *a, k),
{
    let mut r: Vec<u8> = Vec::new();
    let mut k: usize = 0;
    while k < n
        invariant
            a.river_analysis.water_mask@.len() == n,
            a.river_analysis.exclusion_mask@.len() == n,
            a.slope_map@.len() == n,
            a.building_flatness_map@.len() == n,
            k <= n,
            r@.len() == 3 * k,
            forall|j: int| 0 <= j < k ==> #[trigger] pixel_matches(r@, *a, j),
        decreases n - k,
    {
        let (red, green, blue): (u8, u8, u8) = if a.river_analysis.water_mask[k] {
            (0, 0, 255)
        } else if a.river_analysis.exclusion_mask[k] {
            (255, 200, 200)
        } else {
            (channel(a.slope_map[k]), channel(a.building_flatness_map[k]), 100)
        };
        let ghost before = r@;
        r.push(red);
        r.push(green);
        r.push(blue);
        assert forall|j: int| 0 <= j <= k implies #[trigger] pixel_matches(r@, *a, j) by {
            if j < k {
                assert(pixel_matches(before, *a, j));
                assert(r@[rgb_at(j, 0)] == before[rgb_at(j, 0)]);
                assert(r@[rgb_at(j, 1)] == before[rgb_at(j, 1)]);
                assert(r@[rgb_at(j, 2)] == before[rgb_at(j, 2)]);
            } else {
                assert(rgb_at(j, 0) == before.len());
                assert(r@[rgb_at(j, 0)] == red);
                assert(r@[rgb_at(j, 1)] == green);
                assert(r@[rgb_at(j, 2)] == blue);
            }
        }
        k += 1;
    }
    r
}

/// Marker colour of a zone kind.
pub open spec fn zone_color(t: ZoneType) -> (int, int, int) {
    match t {
        ZoneType::Building => (255, 0, 0),
        ZoneType::Tank => (255, 165, 0),
        ZoneType::Vehicle => (255, 255, 0),
    }
}

/// Footprint radius of a zone kind, in thousandths of a cell.
pub open spec fn zone_radius(c: EnemyPlacementConfig, t: ZoneType) -> u64 {
    match t {
        ZoneType::Building => c.building_radius,
        ZoneType::Tank => c.tank_radius,
        ZoneType::Vehicle => c.vehicle_radius,
    }
}

/// Cell `(x, y)` lies within `radius` thousandths of a cell of the zone's centre.
pub open spec fn covers(z: PlacementZone, radius: u64, x: int, y: int) -> bool {
    let dx = x - z.position.x;
    let dy = y - z.position.y;
    (dx * dx + dy * dy) * 1000000 <= radius * radius
}

/// Colour of cell `(x, y)` once the zones are drawn in order, each over the ones before;
/// black where no zone reaches.
pub open spec fn overlay_color(zs: Seq<PlacementZone>, c: EnemyPlacementConfig, x: int, y: int) -> (
    int,
    int,
    int,
)
    decreases zs.len(),
{
    if zs.len() == 0 {
        (0, 0, 0)
    } else if covers(zs.last(), zone_radius(c, zs.last().zone_type), x, y) {
        zone_color(zs.last().zone_type)
    } else {
        overlay_color(zs.drop_last(), c, x, y)
    }
}

/// The three bytes of cell `p` in an RGB buffer.
pub open spec fn pixel(img: Seq<u8>, p: int) -> (int, int, int) {
    (img[rgb_at(p, 0)] as int, img[rgb_at(p, 1)] as int, img[rgb_at(p, 2)] as int)
}

/// A covered cell lies within `radius / 1000` cells of the centre on each axis.
proof fn lemma_covered_in_window(z: PlacementZone, radius: u64, x: int, y: int)
    requires
        covers(z, radius, x, y),
    ensures
        z.position.x - radius / 1000 <= x <= z.position.x + radius / 1000,
        z.position.y - radius / 1000 <= y <= z.position.y + radius / 1000,
{
    let dx = x - z.position.x;
    let dy = y - z.position.y;
    let r = radius as int;
    assert(dx * dx >= 0 && dy * dy >= 0) by (nonlinear_arith);
    assert(dx * dx * 1000000 <= r * r) by (nonlinear_arith)
        requires
            (dx * dx + dy * dy) * 1000000 <= r * r,
            dy * dy >= 0,
    ;
    assert(dy * dy * 1000000 <= r * r) by (nonlinear_arith)
        requires
            (dx * dx + dy * dy) * 1000000 <= r * r,
            dx * dx >= 0,
    ;
    lemma_square_bound(dx, r);
    lemma_square_bound(dy, r);
}

proof fn lemma_square_bound(d: int, r: int)
    requires
        r >= 0,
        d * d * 1000000 <= r * r,
    ensures
        -(r / 1000) <= d <= r / 1000,
{
    let q = r / 1000;
    assert(r < (q + 1) * 1000);
    if d > q || d < -q {
        assert(d * d >= (q + 1) * (q + 1)) by (nonlinear_arith)
            requires
                d > q || d < -q,
                q >= 0,
        ;
        assert((q + 1) * (q + 1) * 1000000 > r * r) by (nonlinear_arith)
            requires
                0 <= r < (q + 1) * 1000,
        ;
        assert(d * d * 1000000 >= (q + 1) * (q + 1) * 1000000) by (nonlinear_arith)
            requires
                d * d >= (q + 1) * (q + 1),
        ;
    }
}

fn covers_cell(z: &PlacementZone, radius: u64, x: usize, y: usize) -> (r: bool)
    ensures
        r == covers(*z, radius, x as int, y as int),
{
    let dx: u128 = if x >= z.position.x {
        (x - z.position.x) as u128
    } else {
        (z.position.x - x) as u128
    };
    let dy: u128 = if y >= z.position.y {
        (y - z.position.y) as u128
    } else {
        (z.position.y - y) as u128
    };
    let reach: u128 = (radius / 1000) as u128;
    let ghost ex = x as int - z.position.x as int;
    let ghost ey = y as int - z.position.y as int;
    if dx > reach || dy > reach {
        proof {
            if covers(*z, radius, x as int, y as int) {
                lemma_covered_in_window(*z, radius, x as int, y as int);
            }
        }
        return false;
    }
    proof {
        assert((radius as int) * (radius as int) <= 0xffff_ffff_ffff_ffff * 0xffff_ffff_ffff_ffff)
            by (nonlinear_arith)
            requires
                radius <= 0xffff_ffff_ffff_ffffu64,
        ;
    }
    let rr: u128 = (radius as u128) * (radius as u128);
    proof {
        assert(dx * dx <= reach * reach && dy * dy <= reach * reach) by (nonlinear_arith)
            requires
                dx <= reach,
                dy <= reach,
        ;
        assert(reach * reach <= 0x80_0000_0000_0000u128 * 0x80_0000_0000_0000u128) by (nonlinear_arith)
            requires
                reach <= 0x80_0000_0000_0000u128,
        ;
        assert(dx * dx == ex * ex) by (nonlinear_arith)
            requires
                dx == ex || dx == -ex,
        ;
        assert(dy * dy == ey * ey) by (nonlinear_arith)
            requires
                dy == ey || dy == -ey,
        ;
        let sq = (dx * dx + dy * dy) as int;
        assert(sq * 1000000 <= rr <==> sq <= rr / 1000000) by (nonlinear_arith)
            requires
                sq >= 0,
                rr >= 0,
        ;
    }
    dx * dx + dy * dy <= rr / 1000000
}

/// Draws one zone's disc over `img`.
fn paint_zone(
    img: &mut Vec<u8>,
    z: &PlacementZone,
    radius: u64,
    color: (u8, u8, u8),
    width: usize,
    height: usize,
)
    requires
        old(img)@.len() == 3 * (width * height),
        width <= MAX_SIDE,
        height <= MAX_SIDE,
        3 * (width * height) <= usize::MAX,
    ensures
        final(img)@.len() == old(img)@.len(),
        forall|p: int|
            0 <= p < width * height ==> #[trigger] pixel(final(img)@, p) == if covers(
                *z,
                radius,
                col(p, width as int),
                row(p, width as int),
            ) {
                (color.0 as int, color.1 as int, color.2 as int)
            } else {
                pixel(old(img)@, p)
            },
{
    let ghost w = width as int;
    let ghost prev = img@;
    proof {
        assert(width * height <= usize::MAX) by (nonlinear_arith)
            requires
                3 * (width * height) <= usize::MAX,
        ;
    }
    let ghost c = (color.0 as int, color.1 as int, color.2 as int);
    let reach: u128 = (radius / 1000) as u128;
    let zx = z.position.x as u128;
    let zy = z.position.y as u128;
    let y0: usize = if zy < reach {
        0
    } else if zy - reach < height as u128 {
        (zy - reach) as usize
    } else {
        height
    };
    let y1: usize = if zy + reach + 1 < height as u128 {
        (zy + reach + 1) as usize
    } else {
        height
    };
    let x0: usize = if zx < reach {
        0
    } else if zx - reach < width as u128 {
        (zx - reach) as usize
    } else {
        width
    };
    let x1: usize = if zx + reach + 1 < width as u128 {
        (zx + reach + 1) as usize
    } else {
        width
    };
    let mut y = y0;
    while y < y1
        invariant
            img@.len() == 3 * (width * height),
            width <= MAX_SIDE,
            height <= MAX_SIDE,
            3 * (width * height) <= usize::MAX,
            w == width,
            y0 <= y <= y1 <= height,
            x0 <= x1 <= width,
            width * height <= usize::MAX,
            c == (color.0 as int, color.1 as int, color.2 as int),
            forall|p: int|
                0 <= p < width * height ==> #[trigger] pixel(img@, p) == if y0 <= row(p, w) < y
                    && x0 <= col(p, w) < x1 && covers(*z, radius, col(p, w), row(p, w)) {
                    c
                } else {
                    pixel(prev, p)
                },
        decreases y1 - y,
    {
        let mut x = x0;
        while x < x1
            invariant
                img@.len() == 3 * (width * height),
                width <= MAX_SIDE,
                height <= MAX_SIDE,
                3 * (width * height) <= usize::MAX,
                w == width,
                y0 <= y < y1 <= height,
                x0 <= x <= x1 <= width,
                width * height <= usize::MAX,
                c == (color.0 as int, color.1 as int, color.2 as int),
                forall|p: int|
                    0 <= p < width * height ==> #[trigger] pixel(img@, p) == if ((y0 <= row(p, w) < y
                        && x0 <= col(p, w) < x1) || (row(p, w) == y && x0 <= col(p, w) < x))
                        && covers(*z, radius, col(p, w), row(p, w)) {
                        c
                    } else {
                        pixel(prev, p)
                    },
            decreases x1 - x,
        {
            let q = cell_index(x, y, width, height);
            if covers_cell(z, radius, x, y) {
                let ghost before = img@;
                proof {
                    assert(3 * q + 2 < 3 * (width * height));
                }
                img.set(3 * q, color.0);
                img.set(3 * q + 1, color.1);
                img.set(3 * q + 2, color.2);
                proof {
                    assert(img@[3 * q] == color.0);
                    assert(img@[3 * q + 1] == color.1);
                    assert(img@[3 * q + 2] == color.2);
                    assert forall|p: int| 0 <= p < width * height && p != q implies #[trigger] pixel(
                        img@,
                        p,
                    ) == pixel(before, p) by {
                        assert(img@[rgb_at(p, 0)] == before[rgb_at(p, 0)]);
                        assert(img@[rgb_at(p, 1)] == before[rgb_at(p, 1)]);
                        assert(img@[rgb_at(p, 2)] == before[rgb_at(p, 2)]);
                    }
                    assert(rgb_at(q as int, 0) == 3 * q);
                    assert(rgb_at(q as int, 1) == 3 * q + 1);
                    assert(rgb_at(q as int, 2) == 3 * q + 2);
                    assert(pixel(img@, q as int) == c);
                }
            }
            proof {
                assert forall|p: int| 0 <= p < width * height && p != q implies (row(p, w) == y && col(
                    p,
                    w,
                ) == x) == false by {
                    lemma_cell_of(p, w, height as int);
                }
            }
            x += 1;
        }
        y += 1;
    }
    proof {
        assert forall|p: int| 0 <= p < width * height implies #[trigger] pixel(img@, p) == if covers(
            *z,
            radius,
            col(p, w),
            row(p, w),
        ) {
            c
        } else {
            pixel(prev, p)
        } by {
            if covers(*z, radius, col(p, w), row(p, w)) {
                lemma_cell_of(p, w, height as int);
                lemma_covered_in_window(*z, radius, col(p, w), row(p, w));
            }
        }
    }
}

/// The zone picture as RGB bytes: each zone's disc in its kind's colour, later zones
/// drawn over earlier ones, black elsewhere.
pub fn zone_overlay(
    zones: &Vec<PlacementZone>,
    config: &EnemyPlacementConfig,
    width: usize,
    height: usize,
) -> (img: Vec<u8>)
    requires
        width <= MAX_SIDE,
        height <= MAX_SIDE,
        3 * (width * height) <= usize::MAX,
    ensures
        img@.len() == 3 * (width * height),
        forall|p: int|
            0 <= p < width * height ==> #[trigger] pixel(img@, p) == overlay_color(
                zones@,
                *config,
                col(p, width as int),
                row(p, width as int),
            ),
{
    let ghost w = width as int;
    proof {
        assert(width * height <= usize::MAX) by (nonlinear_arith)
            requires
                3 * (width * height) <= usize::MAX,
        ;
    }
    let total = 3 * (width * height);
    let mut img: Vec<u8> = Vec::new();
    let mut k: usize = 0;
    while k < total
        invariant
            total == 3 * (width * height),
            k <= total,
            img@.len() == k,
            forall|j: int| 0 <= j < k ==> #[trigger] img@[j] == 0,
        decreases total - k,
    {
        img.push(0);
        k += 1;
    }
    let mut i: usize = 0;
    while i < zones.len()
        invariant
            img@.len() == 3 * (width * height),
            width <= MAX_SIDE,
            height <= MAX_SIDE,
            3 * (width * height) <= usize::MAX,
            w == width,
            i <= zones@.len(),
            forall|p: int|
                0 <= p < width * height ==> #[trigger] pixel(img@, p) == overlay_color(
                    zones@.subrange(0, i as int),
                    *config,
                    col(p, w),
                    row(p, w),
                ),
        decreases zones@.len() - i,
    {
        let z = &zones[i];
        let (radius, color): (u64, (u8, u8, u8)) = match z.zone_type {
            ZoneType::Building => (config.building_radius, (255, 0, 0)),
            ZoneType::Tank => (config.tank_radius, (255, 165, 0)),
            ZoneType::Vehicle => (config.vehicle_radius, (255, 255, 0)),
        };
        proof {
            assert(zones@.subrange(0, i as int + 1).drop_last() =~= zones@.subrange(0, i as int));
        }
        paint_zone(&mut img, z, radius, color, width, height);
        i += 1;
    }
    proof {
        assert(zones@.subrange(0, zones@.len() as int) =~= zones@);
    }
    img
}

/// Colour of a cell in the river picture, from its carve depth and the river depth (both
/// in thousandths of a world unit): the channel in blue growing with depth, the banks in
/// brown growing with carve, untouched land white.
pub open spec fn carve_color(carve: i64, depth: u64) -> (int, int, int) {
    if carve < -100 {
        let i = if depth == 0 || -carve >= depth {
            255
        } else {
            -carve * 255 / (depth as int)
        };
        (0, i / 2, i)
    } else if carve < 0 {
        let i = if -carve >= 100 {
            255
        } else {
            -carve * 255 / 100
        };
        (i, i / 2, 0)
    } else {
        (255, 255, 255)
    }
}

fn carve_pixel(carve: i64, depth: u64) -> (r: (u8, u8, u8))
    ensures
        (r.0 as int, r.1 as int, r.2 as int) == carve_color(carve, depth),
{
    if carve < -100 {
        let d = -(carve as i128);
        let i: u8 = if depth == 0 || d >= depth as i128 {
            255
        } else {
            proof {
                assert(0 <= d * 255 / (depth as int) <= 255) by (nonlinear_arith)
                    requires
                        0 < d < depth,
                ;
            }
            (d * 255 / (depth as i128)) as u8
        };
        (0, i / 2, i)
    } else if carve < 0 {
        let d = -(carve as i128);
        let i: u8 = if d >= 100 {
            255
        } else {
            (d * 255 / 100) as u8
        };
        (i, i / 2, 0)
    } else {
        (255, 255, 255)
    }
}

/// The river picture as RGB bytes, three per cell.
pub fn river_mask_colors(carve: &Vec<i64>, depth: u64) -> (r: Vec<u8>)
    requires
        3 * carve@.len() <= usize::MAX,
    ensures
        r@.len() == 3 * carve@.len(),
        forall|k: int| 0 <= k < carve@.len() ==> #[trigger] pixel(r@, k) == carve_color(carve@[k], depth),
{
    let n = carve.len();
    let mut r: Vec<u8> = Vec::new();
    let mut k: usize = 0;
    while k < n
        invariant
            n == carve@.len(),
            k <= n,
            r@.len() == 3 * k,
            forall|j: int| 0 <= j < k ==> #[trigger] pixel(r@, j) == carve_color(carve@[j], depth),
        decreases n - k,
    {
        let (red, green, blue) = carve_pixel(carve[k], depth);
        let ghost before = r@;
        r.push(red);
        r.push(green);
        r.push(blue);
        assert forall|j: int| 0 <= j <= k implies #[trigger] pixel(r@, j) == carve_color(
            carve@[j],
            depth,
        ) by {
            if j < k {
                assert(pixel(before, j) == carve_color(carve@[j], depth));
                assert(r@[rgb_at(j, 0)] == before[rgb_at(j, 0)]);
                assert(r@[rgb_at(j, 1)] == before[rgb_at(j, 1)]);
                assert(r@[rgb_at(j, 2)] == before[rgb_at(j, 2)]);
            } else {
                assert(rgb_at(j, 0) == before.len());
                assert(r@[rgb_at(j, 0)] == red);
                assert(r@[rgb_at(j, 1)] == green);
                assert(r@[rgb_at(j, 2)] == blue);
            }
        }
        k += 1;
    }
    r
}

} // verus!
