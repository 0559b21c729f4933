use vstd::prelude::*;
use crate::grid::{cell_index, col, idx, lemma_cell_of, row, MAX_SIDE};

verus! {

/// Number of cells of row `y`, columns `x0 .. x1`, whose slope is at most `max_slope`.
pub open spec fn count_row(s: Seq<u64>, w: int, y: int, x0: int, x1: int, max_slope: u64) -> int
    decreases x1 - x0,
{
    if x1 <= x0 {
        0
    } else {
        count_row(s, w, y, x0, x1 - 1, max_slope) + if s[idx(x1 - 1, y, w)] <= max_slope {
            1int
        } else {
            0int
        }
    }
}

/// Number of cells of the window `x0 .. x1` by `y0 .. y1` whose slope is at most
/// `max_slope`.
pub open spec fn count_window(
    s: Seq<u64>,
    w: int,
    x0: int,
    x1: int,
    y0: int,
    y1: int,
    max_slope: u64,
) -> int
    decreases y1 - y0,
{
    if y1 <= y0 {
        0
    } else {
        count_window(s, w, x0, x1, y0, y1 - 1, max_slope) + count_row(
            s,
            w,
            y1 - 1,
            x0,
            x1,
            max_slope,
        )
    }
}

/// The square of side `2 * r + 1` centred on the cell stored at `k` fits in the grid.
pub open spec fn window_fits(k: int, w: int, h: int, r: int) -> bool {
    &&& r <= col(k, w) < w - r
    &&& r <= row(k, w) < h - r
}

/// Flatness of the cell stored at `k`: the fraction, in thousandths rounded down, of the
/// square of radius `r` around it whose slope is at most `max_slope`; 0 where the square
/// leaves the grid.
pub open spec fn flatness_at(s: Seq<u64>, w: int, h: int, r: int, max_slope: u64, k: int) -> int {
    if window_fits(k, w, h, r) {
        let x = col(k, w);
        let y = row(k, w);
        count_window(s, w, x - r, x + r + 1, y - r, y + r + 1, max_slope) * 1000 / ((2 * r + 1) * (
        2 * r + 1))
    } else {
        0
    }
}

/// Flatness of every cell of a slope grid.
pub open spec fn flatness_grid(s: Seq<u64>, w: int, h: int, r: int, max_slope: u64) -> Seq<u64> {
    Seq::new((w * h) as nat, |k: int| flatness_at(s, w, h, r, max_slope, k) as u64)
}

proof fn lemma_count_row_bound(s: Seq<u64>, w: int, y: int, x0: int, x1: int, max_slope: u64)
    requires
        x0 <= x1,
    ensures
        0 <= count_row(s, w, y, x0, x1, max_slope) <= x1 - x0,
    decreases x1 - x0,
{
    if x1 > x0 {
        lemma_count_row_bound(s, w, y, x0, x1 - 1, max_slope);
    }
}

proof fn lemma_count_window_bound(
    s: Seq<u64>,
    w: int,
    x0: int,
    x1: int,
    y0: int,
    y1: int,
    max_slope: u64,
)
    requires
        x0 <= x1,
        y0 <= y1,
    ensures
        0 <= count_window(s, w, x0, x1, y0, y1, max_slope) <= (x1 - x0) * (y1 - y0),
    decreases y1 - y0,
{
    if y1 > y0 {
        lemma_count_window_bound(s, w, x0, x1, y0, y1 - 1, max_slope);
        lemma_count_row_bound(s, w, y1 - 1, x0, x1, max_slope);
        assert((x1 - x0) * (y1 - 1 - y0) + (x1 - x0) == (x1 - x0) * (y1 - y0)) by (nonlinear_arith);
    }
}

/// Counts the cells of the window `x0 .. x1` by `y0 .. y1` whose slope is at most
/// `max_slope`.
fn window_count(
    s: &Vec<u64>,
    width: usize,
    height: usize,
    x0: usize,
    x1: usize,
    y0: usize,
    y1: usize,
    max_slope: u64,
) -> (c: u64)
    requires
        s@.len() == width * height,
        x0 <= x1 <= width,
        y0 <= y1 <= height,
        width <= MAX_SIDE,
        height <= MAX_SIDE,
        width * height <= usize::MAX,
    ensures
        c == count_window(s@, width as int, x0 as int, x1 as int, y0 as int, y1 as int, max_slope),
{
    let mut c: u64 = 0;
    let mut y = y0;
    while y < y1
        invariant
            s@.len() == width * height,
            x0 <= x1 <= width,
            y0 <= y <= y1 <= height,
            width <= MAX_SIDE,
            height <= MAX_SIDE,
            width * height <= usize::MAX,
            c == count_window(s@, width as int, x0 as int, x1 as int, y0 as int, y as int, max_slope),
        decreases y1 - y,
    {
        proof {
            lemma_count_window_bound(s@, width as int, x0 as int, x1 as int, y0 as int, y as int + 1, max_slope);
            lemma_count_row_bound(s@, width as int, y as int, x0 as int, x1 as int, max_slope);
            assert((x1 - x0) * (y + 1 - y0) <= MAX_SIDE * MAX_SIDE) by (nonlinear_arith)
                requires
                    x1 - x0 <= MAX_SIDE,
                    y + 1 - y0 <= MAX_SIDE,
                    x0 <= x1,
                    y0 <= y,
            ;
        }
        let mut x = x0;
        while x < x1
            invariant
                s@.len() == width * height,
                x0 <= x <= x1 <= width,
                y0 <= y < y1 <= height,
                width <= MAX_SIDE,
                height <= MAX_SIDE,
                width * height <= usize::MAX,
                c == count_window(s@, width as int, x0 as int, x1 as int, y0 as int, y as int, max_slope)
                    + count_row(s@, width as int, y as int, x0 as int, x as int, max_slope),
                count_window(s@, width as int, x0 as int, x1 as int, y0 as int, y as int + 1, max_slope)
                    <= MAX_SIDE * MAX_SIDE,
            decreases x1 - x,
        {
            proof {
                lemma_count_row_bound(s@, width as int, y as int, x as int + 1, x1 as int, max_slope);
                lemma_count_row_bound(s@, width as int, y as int, x0 as int, x as int + 1, max_slope);
                lemma_count_row_split(s@, width as int, y as int, x0 as int, x as int + 1, x1 as int, max_slope);
                assert(count_window(s@, width as int, x0 as int, x1 as int, y0 as int, y as int + 1, max_slope)
                    == count_window(s@, width as int, x0 as int, x1 as int, y0 as int, y as int, max_slope)
                    + count_row(s@, width as int, y as int, x0 as int, x1 as int, max_slope));
            }
            let i = cell_index(x, y, width, height);
            if s[i] <= max_slope {
                proof {
                    assert(count_row(s@, width as int, y as int, x0 as int, x as int + 1, max_slope)
                        == count_row(s@, width as int, y as int, x0 as int, x as int, max_slope) + 1);
                    assert(MAX_SIDE * MAX_SIDE == 18446744065119617025);
                }
                c = c + 1;
            }
            x += 1;
        }
        y += 1;
    }
    c
}

proof fn lemma_count_row_split(
    s: Seq<u64>,
    w: int,
    y: int,
    x0: int,
    xm: int,
    x1: int,
    max_slope: u64,
)
    requires
        x0 <= xm <= x1,
    ensures
        count_row(s, w, y, x0, x1, max_slope) == count_row(s, w, y, x0, xm, max_slope) + count_row(
            s,
            w,
            y,
            xm,
            x1,
            max_slope,
        ),
    decreases x1 - xm,
{
    if x1 > xm {
        lemma_count_row_split(s, w, y, x0, xm, x1 - 1, max_slope);
    }
}

/// Flatness of every cell of a slope grid for a footprint of radius `radius` cells: the
/// share, in thousandths, of the surrounding `(2 * radius + 1)`-wide square whose slope is
/// at most `max_slope`. Cells whose square leaves the grid get 0.
pub fn flatness_map(slope_map: &Vec<u64>, radius: usize, max_slope: u64, width: usize, height: usize) -> (f:
    Vec<u64>)
    requires
        slope_map@.len() == width * height,
        width <= MAX_SIDE,
        height <= MAX_SIDE,
    ensures
        f@ == flatness_grid(slope_map@, width as int, height as int, radius as int, max_slope),
        forall|k: int| 0 <= k < f@.len() ==> #[trigger] f@[k] <= 1000,
{
    let n = slope_map.len();
    let mut f: Vec<u64> = Vec::new();
    let mut k: usize = 0;
    while k < n
        invariant
            n == width * height,
            slope_map@.len() == n,
            width <= MAX_SIDE,
            height <= MAX_SIDE,
            k <= n,
            f@.len() == k,
            forall|j: int|
                0 <= j < k ==> #[trigger] f@[j] == flatness_at(
                    slope_map@,
                    width as int,
                    height as int,
                    radius as int,
                    max_slope,
                    j,
                ) as u64,
            forall|j: int| 0 <= j < k ==> #[trigger] f@[j] <= 1000,
        decreases n - k,
    {
        proof {
            lemma_cell_of(k as int, width as int, height as int);
            reveal(col);
            reveal(row);
        }
        let x = k % width;
        let y = k / width;
        if radius <= x && radius < width - x && radius <= y && radius < height - y {
            let c = window_count(
                slope_map,
                width,
                height,
                x - radius,
                x + radius + 1,
                y - radius,
                y + radius + 1,
                max_slope,
            );
            let side: u128 = 2 * (radius as u128) + 1;
            proof {
                lemma_count_window_bound(
                    slope_map@,
                    width as int,
                    x - radius,
                    x + radius + 1,
                    y - radius,
                    y + radius + 1,
                    max_slope,
                );
                assert(1 <= side * side <= MAX_SIDE * MAX_SIDE) by (nonlinear_arith)
                    requires
                        1 <= side <= MAX_SIDE,
                ;
                assert((c as u128) * 1000 / (side * side) <= 1000) by (nonlinear_arith)
                    requires
                        c <= side * side,
                        side >= 1,
                ;
            }
            let v = ((c as u128) * 1000 / (side * side)) as u64;
            f.push(v);
        } else {
            f.push(0);
        }
        k += 1;
    }
    assert(f@ =~= flatness_grid(slope_map@, width as int, height as int, radius as int, max_slope));
    f
}

/// Every flatness value lies in `0 ..= 1000`.
pub proof fn lemma_flatness_bounded(s: Seq<u64>, w: int, h: int, r: int, max_slope: u64)
    requires
        w >= 0,
        h >= 0,
        r >= 0,
    ensures
        forall|k: int| 0 <= k < w * h ==> #[trigger] flatness_grid(s, w, h, r, max_slope)[k] <= 1000,
{
    assert forall|k: int| 0 <= k < w * h implies #[trigger] flatness_grid(s, w, h, r, max_slope)[k]
        <= 1000 by {
        if window_fits(k, w, h, r) {
            let x = col(k, w);
            let y = row(k, w);
            let c = count_window(s, w, x - r, x + r + 1, y - r, y + r + 1, max_slope);
            let side = 2 * r + 1;
            lemma_count_window_bound(s, w, x - r, x + r + 1, y - r, y + r + 1, max_slope);
            assert(side * side >= 1) by (nonlinear_arith)
                requires
                    side >= 1,
            ;
            assert(c * 1000 / (side * side) <= 1000) by (nonlinear_arith)
                requires
                    0 <= c <= side * side,
                    side * side >= 1,
            ;
            assert(c * 1000 / (side * side) >= 0) by (nonlinear_arith)
                requires
                    0 <= c,
                    side * side >= 1,
            ;
        }
    }
}

} // verus!
