use vstd::prelude::*;
use vstd::relations::{sorted_by, total_ordering};
use vstd::seq_lib::lemma_sorted_unique;
use crate::grid::{cell_index, col, idx, interior_idx, lemma_cell, lemma_cell_of, row, MAX_SIDE};

verus! {

/// Integer square root, one base-4 digit at a time.
pub open spec fn isqrt(n: nat) -> nat
    decreases n,
{
    if n == 0 {
        0
    } else {
        let r = 2 * isqrt(n / 4);
        if (r + 1) * (r + 1) <= n {
            (r + 1) as nat
        } else {
            r
        }
    }
}

/// `isqrt(n)` is the largest integer whose square does not pass `n`.
pub proof fn lemma_isqrt(n: nat)
    ensures
        isqrt(n) * isqrt(n) <= n,
        n < (isqrt(n) + 1) * (isqrt(n) + 1),
    decreases n,
{
    if n > 0 {
        let q = isqrt(n / 4);
        lemma_isqrt(n / 4);
        let r = 2 * q;
        assert(r * r <= n) by (nonlinear_arith)
            requires
                q * q <= n / 4,
                r == 2 * q,
        ;
        assert(n < (r + 2) * (r + 2)) by (nonlinear_arith)
            requires
                n / 4 < (q + 1) * (q + 1),
                r == 2 * q,
                n < 4 * (n / 4) + 4,
        ;
        let s = isqrt(n);
        if (r + 1) * (r + 1) <= n {
            assert(s == r + 1);
            assert((s + 1) * (s + 1) == (r + 2) * (r + 2));
            assert(s * s == (r + 1) * (r + 1));
        } else {
            assert(s == r);
            assert(s * s == r * r);
            assert((s + 1) * (s + 1) == (r + 1) * (r + 1));
        }
        assert(s * s <= n);
        assert(n < (s + 1) * (s + 1));
        assert(n < (isqrt(n) + 1) * (isqrt(n) + 1));
    } else {
        let s = isqrt(n);
        assert(s == 0);
        assert((s + 1) * (s + 1) == 1) by (nonlinear_arith)
            requires
                s == 0,
        ;
    }
}

/// Integer square root of `n`.
pub fn integer_sqrt(n: u128) -> (r: u64)
    requires
        n < 0x1000_0000_0000_0000_0000_0000_0000_0000u128,
    ensures
        r == isqrt(n as nat),
    decreases n,
{
    if n == 0 {
        0
    } else {
        let q = integer_sqrt(n / 4);
        proof {
            lemma_isqrt((n / 4) as nat);
            assert(q < 0x1_0000_0000_0000_0000u128) by (nonlinear_arith)
                requires
                    q * q <= n / 4,
                    n < 0x1000_0000_0000_0000_0000_0000_0000_0000u128,
            ;
            assert(q <= 0x1_0000_0000_0000_0000u128 / 4) by (nonlinear_arith)
                requires
                    q * q <= n / 4,
                    n < 0x1000_0000_0000_0000_0000_0000_0000_0000u128,
            ;
        }
        let r: u128 = 2 * (q as u128);
        proof {
            assert((r + 1) * (r + 1) <= 0xffff_ffff_ffff_ffff_ffff_ffff_ffff_ffffu128) by (nonlinear_arith)
                requires
                    r <= 0x8000_0000_0000_0000u128,
            ;
        }
        if (r + 1) * (r + 1) <= n {
            proof {
                lemma_isqrt(n as nat);
            }
            (r + 1) as u64
        } else {
            r as u64
        }
    }
}

/// Height of cell `(x, y)`.
pub open spec fn height_at(hm: Seq<i32>, w: int, x: int, y: int) -> int {
    hm[idx(x, y, w)] as int
}

/// Horizontal Sobel response at `(x, y)`: eight times the height gradient along x.
pub open spec fn sobel_x(hm: Seq<i32>, w: int, x: int, y: int) -> int {
    (height_at(hm, w, x + 1, y - 1) - height_at(hm, w, x - 1, y - 1)) + 2 * (height_at(
        hm,
        w,
        x + 1,
        y,
    ) - height_at(hm, w, x - 1, y)) + (height_at(hm, w, x + 1, y + 1) - height_at(
        hm,
        w,
        x - 1,
        y + 1,
    ))
}

/// Vertical Sobel response at `(x, y)`: eight times the height gradient along y.
pub open spec fn sobel_y(hm: Seq<i32>, w: int, x: int, y: int) -> int {
    (height_at(hm, w, x - 1, y + 1) - height_at(hm, w, x - 1, y - 1)) + 2 * (height_at(
        hm,
        w,
        x,
        y + 1,
    ) - height_at(hm, w, x, y - 1)) + (height_at(hm, w, x + 1, y + 1) - height_at(
        hm,
        w,
        x + 1,
        y - 1,
    ))
}

/// Gradient magnitude (eight times the true one, rounded down) at the cell stored at
/// index `k`; border cells have none.
pub open spec fn gradient_at(hm: Seq<i32>, w: int, h: int, k: int) -> int {
    if interior_idx(k, w, h) {
        let x = col(k, w);
        let y = row(k, w);
        isqrt((sobel_x(hm, w, x, y) * sobel_x(hm, w, x, y) + sobel_y(hm, w, x, y) * sobel_y(
            hm,
            w,
            x,
            y,
        )) as nat) as int
    } else {
        0
    }
}

/// Gradient magnitudes of a whole height grid.
pub open spec fn gradient_grid(hm: Seq<i32>, w: int, h: int) -> Seq<u64> {
    Seq::new((w * h) as nat, |k: int| gradient_at(hm, w, h, k) as u64)
}

fn sobel_at(hm: &Vec<i32>, width: usize, height: usize, x: usize, y: usize) -> (r: u64)
    requires
        hm@.len() == width * height,
        1 <= x < width - 1,
        1 <= y < height - 1,
        width * height <= usize::MAX,
        width <= MAX_SIDE,
        height <= MAX_SIDE,
    ensures
        r == isqrt(
            (sobel_x(hm@, width as int, x as int, y as int) * sobel_x(
                hm@,
                width as int,
                x as int,
                y as int,
            ) + sobel_y(hm@, width as int, x as int, y as int) * sobel_y(
                hm@,
                width as int,
                x as int,
                y as int,
            )) as nat,
        ),
{
    let nw = hm[cell_index(x - 1, y - 1, width, height)] as i64;
    let n = hm[cell_index(x, y - 1, width, height)] as i64;
    let ne = hm[cell_index(x + 1, y - 1, width, height)] as i64;
    let we = hm[cell_index(x - 1, y, width, height)] as i64;
    let ea = hm[cell_index(x + 1, y, width, height)] as i64;
    let sw = hm[cell_index(x - 1, y + 1, width, height)] as i64;
    let s = hm[cell_index(x, y + 1, width, height)] as i64;
    let se = hm[cell_index(x + 1, y + 1, width, height)] as i64;
    let gx: i64 = (ne - nw) + 2 * (ea - we) + (se - sw);
    let gy: i64 = (sw - nw) + 2 * (s - n) + (se - ne);
    let ax: u128 = if gx < 0 {
        (-gx) as u128
    } else {
        gx as u128
    };
    let ay: u128 = if gy < 0 {
        (-gy) as u128
    } else {
        gy as u128
    };
    proof {
        assert(ax * ax <= 0x10_0000_0000_0000_0000u128 * 0x4_0000_0000u128) by (nonlinear_arith)
            requires
                ax <= 0x4_0000_0000u128,
        ;
        assert(ay * ay <= 0x10_0000_0000_0000_0000u128 * 0x4_0000_0000u128) by (nonlinear_arith)
            requires
                ay <= 0x4_0000_0000u128,
        ;
        assert(ax * ax == gx * gx) by (nonlinear_arith)
            requires
                ax == gx || ax == -gx,
        ;
        assert(ay * ay == gy * gy) by (nonlinear_arith)
            requires
                ay == gy || ay == -gy,
        ;
    }
    integer_sqrt(ax * ax + ay * ay)
}

/// Gradient magnitude of every cell of a height grid (row-major, `width` cells wide);
/// the border cells, which lack a full neighbourhood, stay 0.
pub fn gradient_magnitudes(hm: &Vec<i32>, width: usize, height: usize) -> (m: Vec<u64>)
    requires
        hm@.len() == width * height,
        width <= MAX_SIDE,
        height <= MAX_SIDE,
    ensures
        m@ == gradient_grid(hm@, width as int, height as int),
{
    let n = hm.len();
    let mut m: Vec<u64> = Vec::new();
    let mut k: usize = 0;
    while k < n
        invariant
            n == width * height,
            hm@.len() == n,
            width <= MAX_SIDE,
            height <= MAX_SIDE,
            k <= n,
            m@.len() == k,
            forall|j: int|
                0 <= j < k ==> #[trigger] m@[j] == gradient_at(
                    hm@,
                    width as int,
                    height as int,
                    j,
                ) as u64,
        decreases n - k,
    {
        proof {
            lemma_cell_of(k as int, width as int, height as int);
            vstd::arithmetic::div_mod::lemma_fundamental_div_mod(k as int, width as int);
            reveal(col);
            reveal(row);
        }
        let x = k % width;
        let y = k / width;
        if 1 <= x && x + 1 < width && 1 <= y && y + 1 < height {
            let g = sobel_at(hm, width, height, x, y);
            m.push(g);
        } else {
            m.push(0);
        }
        k += 1;
    }
    assert(m@ =~= gradient_grid(hm@, width as int, height as int));
    m
}

/// Order in which the percentile is taken.
pub open spec fn ascending() -> spec_fn(u64, u64) -> bool {
    |a: u64, b: u64| a <= b
}

/// Gradient magnitudes of the interior cells among the first `k` cells, in index order.
pub open spec fn interior_values(m: Seq<u64>, w: int, h: int, k: int) -> Seq<u64>
    decreases k,
{
    if k <= 0 {
        Seq::empty()
    } else {
        let prev = interior_values(m, w, h, k - 1);
        if interior_idx(k - 1, w, h) {
            prev.push(m[k - 1])
        } else {
            prev
        }
    }
}

/// The 95th percentile of the interior gradient magnitudes (0 when there is no interior
/// cell): the value at rank `len * 95 / 100` once they are sorted.
pub open spec fn slope_reference(m: Seq<u64>, w: int, h: int) -> u64 {
    let v = interior_values(m, w, h, w * h);
    if v.len() == 0 {
        0
    } else {
        v.sort_by(ascending())[(v.len() * 95 / 100) as int]
    }
}

/// A magnitude scaled against the reference `p` to thousandths and clamped to 1000; with
/// a reference of 0, any gradient at all counts as the steepest.
pub open spec fn normalized(g: int, p: int) -> int {
    if p == 0 {
        if g == 0 {
            0
        } else {
            1000
        }
    } else if g * 1000 / p >= 1000 {
        1000
    } else {
        g * 1000 / p
    }
}

/// Normalised slope of every cell of a height grid.
pub open spec fn slope_grid(hm: Seq<i32>, w: int, h: int) -> Seq<u64> {
    let m = gradient_grid(hm, w, h);
    let p = slope_reference(m, w, h);
    Seq::new((w * h) as nat, |k: int| normalized(m[k] as int, p as int) as u64)
}

/// Relies on `slice::sort_unstable`: the same values, in ascending order.
#[verifier::external_body]
fn sort_ascending(v: &mut Vec<u64>)
    ensures
        final(v)@.to_multiset() == old(v)@.to_multiset(),
        sorted_by(final(v)@, ascending()),
{
    v.sort_unstable();
}

proof fn lemma_ascending_total()
    ensures
        total_ordering(ascending()),
{
    let r = ascending();
    assert(vstd::relations::reflexive(r));
    assert(vstd::relations::antisymmetric(r));
    assert(vstd::relations::transitive(r));
    assert(vstd::relations::strongly_connected(r));
}

fn is_interior(k: usize, width: usize, height: usize) -> (r: bool)
    requires
        k < width * height,
    ensures
        r == interior_idx(k as int, width as int, height as int),
{
    proof {
        lemma_cell_of(k as int, width as int, height as int);
        reveal(col);
        reveal(row);
    }
    let x = k % width;
    let y = k / width;
    1 <= x && x + 1 < width && 1 <= y && y + 1 < height
}

/// The 95th percentile of the interior magnitudes of `m`.
pub fn percentile_reference(m: &Vec<u64>, width: usize, height: usize) -> (p: u64)
    requires
        m@.len() == width * height,
    ensures
        p == slope_reference(m@, width as int, height as int),
{
    let n = m.len();
    let mut vals: Vec<u64> = Vec::new();
    let mut k: usize = 0;
    while k < n
        invariant
            n == width * height,
            m@.len() == n,
            k <= n,
            vals@ == interior_values(m@, width as int, height as int, k as int),
        decreases n - k,
    {
        if is_interior(k, width, height) {
            vals.push(m[k]);
        }
        k += 1;
    }
    if vals.len() == 0 {
        return 0;
    }
    let ghost unsorted = vals@;
    sort_ascending(&mut vals);
    proof {
        broadcast use vstd::seq_lib::group_to_multiset_ensures;

        assert(vals@.len() == vals@.to_multiset().len());
        assert(unsorted.len() == unsorted.to_multiset().len());
        lemma_ascending_total();
        unsorted.lemma_sort_by_ensures(ascending());
        lemma_sorted_unique(vals@, unsorted.sort_by(ascending()), ascending());
    }
    let rank = ((vals.len() as u128) * 95 / 100) as usize;
    vals[rank]
}

fn normalize(g: u64, p: u64) -> (r: u64)
    ensures
        r == normalized(g as int, p as int),
{
    if p == 0 {
        if g == 0 {
            0
        } else {
            1000
        }
    } else {
        let q = (g as u128) * 1000 / (p as u128);
        if q >= 1000 {
            1000
        } else {
            q as u64
        }
    }
}

/// Slope of every cell of a height grid: its gradient magnitude against the 95th
/// percentile of the interior magnitudes, in thousandths, at most 1000. Border cells
/// have slope 0.
pub fn slope_map(hm: &Vec<i32>, width: usize, height: usize) -> (s: Vec<u64>)
    requires
        hm@.len() == width * height,
        width <= MAX_SIDE,
        height <= MAX_SIDE,
    ensures
        s@ == slope_grid(hm@, width as int, height as int),
        forall|k: int| 0 <= k < s@.len() ==> #[trigger] s@[k] <= 1000,
{
    let m = gradient_magnitudes(hm, width, height);
    let p = percentile_reference(&m, width, height);
    let n = m.len();
    let mut s: Vec<u64> = Vec::new();
    let mut k: usize = 0;
    while k < n
        invariant
            n == m@.len(),
            k <= n,
            s@.len() == k,
            forall|j: int|
                0 <= j < k ==> #[trigger] s@[j] == normalized(m@[j] as int, p as int) as u64,
            forall|j: int| 0 <= j < k ==> #[trigger] s@[j] <= 1000,
        decreases n - k,
    {
        s.push(normalize(m[k], p));
        k += 1;
    }
    assert(s@ =~= slope_grid(hm@, width as int, height as int));
    s
}

/// Every normalised slope lies in `0 ..= 1000`.
pub proof fn lemma_slope_bounded(hm: Seq<i32>, w: int, h: int)
    requires
        w >= 0,
        h >= 0,
    ensures
        forall|k: int| 0 <= k < w * h ==> #[trigger] slope_grid(hm, w, h)[k] <= 1000,
{
    let m = gradient_grid(hm, w, h);
    let p = slope_reference(m, w, h);
    assert forall|k: int| 0 <= k < w * h implies #[trigger] slope_grid(hm, w, h)[k] <= 1000 by {
        let g = m[k] as int;
        if p != 0 {
            assert(g * 1000 / (p as int) >= 0) by (nonlinear_arith)
                requires
                    g >= 0,
                    p > 0,
            ;
        }
    }
}

proof fn lemma_level_at(hm: Seq<i32>, w: int, h: int, level: i32, x: int, y: int)
    requires
        0 <= x < w,
        0 <= y < h,
        hm.len() == w * h,
        forall|k: int| 0 <= k < w * h ==> #[trigger] hm[k] == level,
    ensures
        height_at(hm, w, x, y) == level,
{
    lemma_cell(x, y, w, h);
}

/// Level ground, every height the same, has slope 0 everywhere.
pub proof fn lemma_level_ground_has_no_slope(hm: Seq<i32>, w: int, h: int, level: i32)
    requires
        w >= 0,
        h >= 0,
        hm.len() == w * h,
        forall|k: int| 0 <= k < w * h ==> #[trigger] hm[k] == level,
    ensures
        forall|k: int| 0 <= k < w * h ==> #[trigger] slope_grid(hm, w, h)[k] == 0,
{
    let m = gradient_grid(hm, w, h);
    assert forall|k: int| 0 <= k < w * h implies #[trigger] m[k] == 0 by {
        if interior_idx(k, w, h) {
            let x = col(k, w);
            let y = row(k, w);
            lemma_level_at(hm, w, h, level, x + 1, y - 1);
            lemma_level_at(hm, w, h, level, x - 1, y - 1);
            lemma_level_at(hm, w, h, level, x + 1, y);
            lemma_level_at(hm, w, h, level, x - 1, y);
            lemma_level_at(hm, w, h, level, x + 1, y + 1);
            lemma_level_at(hm, w, h, level, x - 1, y + 1);
            lemma_level_at(hm, w, h, level, x, y + 1);
            lemma_level_at(hm, w, h, level, x, y - 1);
            assert(sobel_x(hm, w, x, y) == 0);
            assert(sobel_y(hm, w, x, y) == 0);
            assert(isqrt(0) == 0);
        }
    }
}

} // verus!
