use vstd::prelude::*;
use crate::grid::{
    adjacent_idx, cell_index, col, dir_dx, dir_dy, dir_of, gap, lemma_cell, lemma_cell_of, lemma_dir_of,
    lemma_octile_basics, lemma_octile_triangle, neighbor, octile, octile_idx, row, AXIS_STEP,
    DIAGONAL_STEP, MAX_SIDE,
};

verus! {

/// Distance of a cell that no water cell reaches (there is no water at all).
pub const UNREACHED: u64 = 18446744073709551615;

/// Some cell of the grid is water.
pub open spec fn has_water(mask: Seq<bool>, n: int) -> bool {
    exists|k: int| 0 <= k < n && #[trigger] mask[k]
}

/// `d` is the octile distance from cell `i` to the nearest water cell.
pub open spec fn is_nearest_water(mask: Seq<bool>, w: int, n: int, i: int, d: int) -> bool {
    &&& forall|k: int| 0 <= k < n && #[trigger] mask[k] ==> d <= octile_idx(i, k, w)
    &&& exists|k: int| 0 <= k < n && #[trigger] mask[k] && d == octile_idx(i, k, w)
}

/// `dist` holds, for every cell, the octile distance (in thousandths of a cell) to the
/// nearest water cell of `mask`, or `UNREACHED` everywhere when the mask holds no water.
pub open spec fn is_distance_field(mask: Seq<bool>, w: int, h: int, dist: Seq<u64>) -> bool {
    &&& dist.len() == w * h
    &&& forall|i: int|
        0 <= i < w * h ==> if has_water(mask, w * h) {
            is_nearest_water(mask, w, w * h, i, #[trigger] dist[i] as int)
        } else {
            dist[i] == UNREACHED
        }
}

/// Sum of all entries, used to measure the progress of the propagation.
pub open spec fn total(s: Seq<u64>) -> int
    decreases s.len(),
{
    if s.len() == 0 {
        0
    } else {
        total(s.drop_last()) + s.last()
    }
}

proof fn lemma_total_update(s: Seq<u64>, i: int, v: u64)
    requires
        0 <= i < s.len(),
    ensures
        total(s.update(i, v)) == total(s) - s[i] + v,
    decreases s.len(),
{
    if i == s.len() - 1 {
        assert(s.update(i, v).drop_last() =~= s.drop_last());
    } else {
        lemma_total_update(s.drop_last(), i, v);
        assert(s.update(i, v).drop_last() =~= s.drop_last().update(i, v));
    }
}

proof fn lemma_total_nonneg(s: Seq<u64>)
    ensures
        total(s) >= 0,
    decreases s.len(),
{
    if s.len() > 0 {
        lemma_total_nonneg(s.drop_last());
    }
}

/// Cell `k` waits in the queue, at or after position `head`.
pub open spec fn in_queue(q: Seq<usize>, head: int, k: int) -> bool {
    exists|p: int| head <= p < q.len() && #[trigger] q[p] == k
}

/// No neighbour of cell `k` could be improved by a step from `k`.
pub open spec fn settled(dist: Seq<u64>, w: int, n: int, k: int) -> bool {
    forall|j: int|
        0 <= j < n && #[trigger] adjacent_idx(k, j, w) ==> dist[j] as int <= dist[k] as int
            + octile_idx(k, j, w)
}

/// Index of the neighbour of `(x, y)` in direction `e`.
#[verifier::opaque]
pub open spec fn toward(x: int, y: int, e: int, w: int) -> int {
    (y + dir_dy(e)) * w + (x + dir_dx(e))
}

/// Every finite distance is at least as long as the way to some water cell.
#[verifier::opaque]
pub open spec fn sound(mask: Seq<bool>, dist: Seq<u64>, w: int, n: int) -> bool {
    forall|k: int|
        0 <= k < n && #[trigger] dist[k] != UNREACHED ==> exists|j: int|
            0 <= j < n && #[trigger] mask[j] && octile_idx(k, j, w) <= dist[k]
}

/// Once the queue is empty every cell is settled; then no cell is farther than the
/// octile distance to any water cell.
proof fn lemma_reach(mask: Seq<bool>, dist: Seq<u64>, w: int, h: int, k: int, j: int)
    requires
        0 < w <= MAX_SIDE,
        0 < h <= MAX_SIDE,
        mask.len() == w * h,
        dist.len() == w * h,
        0 <= k < w * h,
        0 <= j < w * h,
        mask[j],
        forall|i: int| 0 <= i < w * h && #[trigger] mask[i] ==> dist[i] == 0,
        forall|i: int|
            0 <= i < w * h && #[trigger] dist[i] != UNREACHED ==> settled(dist, w, w * h, i),
    ensures
        dist[k] as int <= octile_idx(k, j, w),
    decreases
            if gap(col(k, w), col(j, w)) >= gap(row(k, w), row(j, w)) {
                gap(col(k, w), col(j, w))
            } else {
                gap(row(k, w), row(j, w))
            },
{
    lemma_cell_of(k, w, h);
    lemma_cell_of(j, w, h);
    reveal(octile);
    let kx = col(k, w);
    let ky = row(k, w);
    let jx = col(j, w);
    let jy = row(j, w);
    if kx == jx && ky == jy {
        assert(k == j);
    } else {
        let sx = if jx > kx {
            kx + 1
        } else if jx < kx {
            kx - 1
        } else {
            kx
        };
        let sy = if jy > ky {
            ky + 1
        } else if jy < ky {
            ky - 1
        } else {
            ky
        };
        lemma_cell(sx, sy, w, h);
        let s = sy * w + sx;
        lemma_reach(mask, dist, w, h, s, j);
        assert(octile(sx, sy, jx, jy) <= 1414 * MAX_SIDE + 1414 * MAX_SIDE);
        assert(dist[s] != UNREACHED);
        assert(adjacent_idx(s, k, w));
        assert(settled(dist, w, w * h, s));
        assert(octile_idx(s, k, w) + octile_idx(s, j, w) == octile_idx(k, j, w));
    }
}

/// Water cells at distance 0, each queued; every other cell unreached.
fn seed_water(water_mask: &Vec<bool>) -> (r: (Vec<u64>, Vec<usize>))
    ensures
        r.0@.len() == water_mask@.len(),
        forall|k: int|
            0 <= k < water_mask@.len() ==> #[trigger] r.0@[k] == (if water_mask@[k] {
                0
            } else {
                UNREACHED
            }),
        forall|k: int|
            0 <= k < water_mask@.len() && #[trigger] water_mask@[k] ==> in_queue(r.1@, 0, k),
        forall|p: int| 0 <= p < r.1@.len() ==> #[trigger] r.1@[p] < water_mask@.len(),
{
    let n: usize = water_mask.len();
    let mut dist: Vec<u64> = Vec::new();
    let mut queue: Vec<usize> = Vec::new();
    let mut i: usize = 0;
    while i < n
        invariant
            n == water_mask@.len(),
            i <= n,
            dist@.len() == i,
            forall|k: int|
                0 <= k < i ==> #[trigger] dist@[k] == (if water_mask@[k] {
                    0
                } else {
                    UNREACHED
                }),
            forall|k: int| 0 <= k < i && #[trigger] water_mask@[k] ==> in_queue(queue@, 0, k),
            forall|p: int| 0 <= p < queue@.len() ==> #[trigger] queue@[p] < i,
        decreases n - i,
    {
        let ghost q0 = queue@;
        if water_mask[i] {
            dist.push(0);
            queue.push(i);
        } else {
            dist.push(UNREACHED);
        }
        assert forall|k: int| 0 <= k <= i && #[trigger] water_mask@[k] implies in_queue(
            queue@,
            0,
            k,
        ) by {
            if k < i {
                let p = choose|p: int| 0 <= p < q0.len() && #[trigger] q0[p] == k;
                assert(queue@[p] == k);
            } else {
                assert(queue@[queue@.len() - 1] == k);
            }
        }
        i += 1;
    }
    (dist, queue)
}

/// One relaxation: when a step of length `step` from `u` improves `v`, `v` takes the
/// shorter distance and joins the queue.
fn relax(
    dist: &mut Vec<u64>,
    queue: &mut Vec<usize>,
    u: usize,
    v: usize,
    step: u64,
    Ghost(mask): Ghost<Seq<bool>>,
    Ghost(w): Ghost<int>,
)
    requires
        mask.len() == old(dist)@.len(),
        u < old(dist)@.len(),
        v < old(dist)@.len(),
        u != v,
        octile_idx(u as int, v as int, w) == step,
        forall|k: int| 0 <= k < mask.len() && #[trigger] mask[k] ==> old(dist)@[k] == 0,
        sound(mask, old(dist)@, w, mask.len() as int),
    ensures
        final(dist)@.len() == old(dist)@.len(),
        final(dist)@[v as int] as int <= old(dist)@[u as int] + step,
        final(dist)@[v as int] <= old(dist)@[v as int],
        forall|k: int| 0 <= k < old(dist)@.len() && k != v ==> #[trigger] final(dist)@[k] == old(dist)@[k],
        final(queue)@ == if final(dist)@[v as int] == old(dist)@[v as int] {
            old(queue)@
        } else {
            old(queue)@.push(v)
        },
        forall|k: int| 0 <= k < mask.len() && #[trigger] mask[k] ==> final(dist)@[k] == 0,
        sound(mask, final(dist)@, w, mask.len() as int),
        2 * total(final(dist)@) + final(queue)@.len() <= 2 * total(old(dist)@) + old(queue)@.len(),
{
    let cur = dist[u];
    if cur <= UNREACHED - step && cur + step < dist[v] {
        let nd = cur + step;
        let ghost before = dist@;
        proof {
            reveal(sound);
            lemma_total_update(dist@, v as int, nd);
            let n = mask.len() as int;
            let j0 = choose|j: int|
                0 <= j < n && #[trigger] mask[j] && octile_idx(u as int, j, w) <= cur;
            lemma_octile_triangle(
                col(v as int, w),
                row(v as int, w),
                col(u as int, w),
                row(u as int, w),
                col(j0, w),
                row(j0, w),
            );
            lemma_octile_basics(col(v as int, w), row(v as int, w), col(u as int, w), row(u as int, w));
        }
        dist.set(v, nd);
        queue.push(v);
        proof {
            reveal(sound);
            let n = mask.len() as int;
            assert forall|k: int| 0 <= k < n && #[trigger] dist@[k] != UNREACHED implies exists|j: int|
                0 <= j < n && #[trigger] mask[j] && octile_idx(k, j, w) <= dist@[k] by {
                if k != v {
                    assert(before[k] == dist@[k]);
                } else {
                    let j0 = choose|j: int|
                        0 <= j < n && #[trigger] mask[j] && octile_idx(u as int, j, w) <= cur;
                    assert(octile_idx(k, j0, w) <= dist@[k]);
                }
            }
        }
    }
}

/// The neighbour of cell `u` in direction `d` is another cell, one step away.
proof fn lemma_step(u: int, x: int, y: int, d: int, w: int, h: int)
    requires
        0 <= u < w * h,
        x == col(u, w),
        y == row(u, w),
        0 <= d < 8,
        0 <= x + dir_dx(d) < w,
        0 <= y + dir_dy(d) < h,
    ensures
        toward(x, y, d, w) == (y + dir_dy(d)) * w + (x + dir_dx(d)),
        toward(x, y, d, w) != u,
        0 <= toward(x, y, d, w) < w * h,
        octile_idx(u, toward(x, y, d, w), w) == if d >= 4 {
            DIAGONAL_STEP
        } else {
            AXIS_STEP
        },
{
    reveal(toward);
    reveal(octile);
    let v = (y + dir_dy(d)) * w + (x + dir_dx(d));
    lemma_cell(x + dir_dx(d), y + dir_dy(d), w, h);
}

/// A relaxation keeps settled every cell other than `u` that is not waiting in the queue.
proof fn lemma_relax_keeps_settled(
    d0: Seq<u64>,
    d1: Seq<u64>,
    q0: Seq<usize>,
    q1: Seq<usize>,
    head: int,
    u: int,
    v: usize,
    w: int,
)
    requires
        d1.len() == d0.len(),
        0 <= v < d0.len(),
        0 <= head <= q0.len(),
        forall|k: int| 0 <= k < d0.len() ==> #[trigger] d1[k] <= d0[k],
        forall|k: int| 0 <= k < d0.len() && k != v ==> #[trigger] d1[k] == d0[k],
        q1 == if d1[v as int] == d0[v as int] {
            q0
        } else {
            q0.push(v)
        },
        forall|k: int|
            0 <= k < d0.len() && k != u && #[trigger] d0[k] != UNREACHED && !in_queue(q0, head, k)
                ==> settled(d0, w, d0.len() as int, k),
    ensures
        forall|k: int|
            0 <= k < d1.len() && k != u && #[trigger] d1[k] != UNREACHED && !in_queue(q1, head, k)
                ==> settled(d1, w, d1.len() as int, k),
{
    let n = d0.len() as int;
    assert forall|k: int|
        0 <= k < n && k != u && #[trigger] d1[k] != UNREACHED && !in_queue(q1, head, k) implies settled(
        d1,
        w,
        n,
        k,
    ) by {
        if in_queue(q0, head, k) {
            let p = choose|p: int| head <= p < q0.len() && #[trigger] q0[p] == k;
            assert(q1[p] == k);
        }
        if d1[v as int] != d0[v as int] {
            assert(q1[q1.len() - 1] == v);
            assert(k != v);
        }
        assert(d0[k] == d1[k]);
        assert(settled(d0, w, n, k));
    }
}

/// Multi-source propagation over the 8-connected grid: every water cell starts at
/// distance 0, and a neighbour is relaxed (and queued again) whenever a step of 1000
/// (side) or 1414 (corner) thousandths improves it.
pub fn distance_field(water_mask: &Vec<bool>, width: usize, height: usize) -> (dist: Vec<u64>)
    requires
        water_mask@.len() == width * height,
        width <= MAX_SIDE,
        height <= MAX_SIDE,
    ensures
        is_distance_field(water_mask@, width as int, height as int, dist@),
{
    let ghost w = width as int;
    let ghost h = height as int;
    let ghost mask = water_mask@;
    let n: usize = water_mask.len();
    let (mut dist, mut queue) = seed_water(water_mask);
    let mut head: usize = 0;
    proof {
        lemma_total_nonneg(dist@);
        reveal(sound);
        assert forall|k: int| 0 <= k < n && #[trigger] dist@[k] != UNREACHED implies exists|j: int|
            0 <= j < n && #[trigger] mask[j] && octile_idx(k, j, w) <= dist@[k] by {
            assert(mask[k]);
            lemma_cell_of(k, w, h);
            lemma_octile_basics(col(k, w), row(k, w), col(k, w), row(k, w));
        }
    }
    while head < queue.len()
        invariant
            n == w * h,
            w == width,
            h == height,
            width <= MAX_SIDE,
            height <= MAX_SIDE,
            mask == water_mask@,
            mask.len() == n,
            dist@.len() == n,
            head <= queue@.len(),
            forall|p: int| 0 <= p < queue@.len() ==> #[trigger] queue@[p] < n,
            forall|k: int| 0 <= k < n && #[trigger] mask[k] ==> dist@[k] == 0,
            sound(mask, dist@, w, n as int),
            forall|k: int|
                0 <= k < n && #[trigger] dist@[k] != UNREACHED && !in_queue(queue@, head as int, k)
                    ==> settled(dist@, w, n as int, k),
        decreases 2 * total(dist@) + queue@.len() - head,
    {
        let u = queue[head];
        let ghost old_head = head as int;
        head += 1;
        let cur = dist[u];
        let x = u % width;
        let y = u / width;
        proof {
            lemma_cell_of(u as int, w, h);
            reveal(col);
            reveal(row);
        }
        let ghost dist0 = dist@;
        let ghost q0 = queue@;
        proof {
            lemma_total_nonneg(dist@);
            assert forall|k: int|
                0 <= k < n && k != u && #[trigger] dist@[k] != UNREACHED && !in_queue(
                    queue@,
                    head as int,
                    k,
                ) implies settled(dist@, w, n as int, k) by {
                if in_queue(queue@, old_head, k) {
                    let p = choose|p: int| old_head <= p < queue@.len() && #[trigger] queue@[p] == k;
                    assert(p != old_head);
                    assert(in_queue(queue@, head as int, k));
                }
            }
        }
        let mut d: usize = 0;
        while d < 8
            invariant
                n == w * h,
                w == width,
                h == height,
                width <= MAX_SIDE,
                height <= MAX_SIDE,
                mask == water_mask@,
                mask.len() == n,
                dist@.len() == n,
                u < n,
                x == col(u as int, w),
                y == row(u as int, w),
                x < width,
                y < height,
                d <= 8,
                head <= queue@.len(),
                dist@[u as int] == cur,
                q0.len() <= queue@.len(),
                forall|p: int| 0 <= p < queue@.len() ==> #[trigger] queue@[p] < n,
                forall|k: int| 0 <= k < n && #[trigger] mask[k] ==> dist@[k] == 0,
                sound(mask, dist@, w, n as int),
                forall|e: int|
                    0 <= e < d && 0 <= x + dir_dx(e) < width && 0 <= y + dir_dy(e) < height
                        ==> 0 <= #[trigger] toward(x as int, y as int, e, w) < n && dist@[toward(
                        x as int,
                        y as int,
                        e,
                        w,
                    )] as int <= cur + octile_idx(u as int, toward(x as int, y as int, e, w), w),
                forall|k: int|
                    0 <= k < n && k != u && #[trigger] dist@[k] != UNREACHED && !in_queue(
                        queue@,
                        head as int,
                        k,
                    ) ==> settled(dist@, w, n as int, k),
                2 * total(dist@) + queue@.len() <= 2 * total(dist0) + q0.len(),
            decreases 8 - d,
        {
            match neighbor(x, y, width, height, d) {
                Some((nx, ny)) => {
                    let v = cell_index(nx, ny, width, height);
                    let step = if d >= 4 {
                        DIAGONAL_STEP
                    } else {
                        AXIS_STEP
                    };
                    let ghost before = dist@;
                    let ghost qb = queue@;
                    proof {
                        lemma_step(u as int, x as int, y as int, d as int, w, h);
                    }
                    relax(&mut dist, &mut queue, u, v, step, Ghost(mask), Ghost(w));
                    proof {
                        lemma_relax_keeps_settled(before, dist@, qb, queue@, head as int, u as int, v, w);
                    }
                },
                None => {},
            }
            d += 1;
        }
        proof {
            assert forall|j: int|
                0 <= j < n && #[trigger] adjacent_idx(u as int, j, w) implies dist@[j] as int
                <= dist@[u as int] as int + octile_idx(u as int, j, w) by {
                lemma_cell_of(j, w, h);
                let e = dir_of(col(j, w) - x, row(j, w) - y);
                lemma_dir_of(col(j, w) - x, row(j, w) - y);
                reveal(toward);
                assert(toward(x as int, y as int, e, w) == j);
            }
            assert(settled(dist@, w, n as int, u as int));
            lemma_total_nonneg(dist@);
        }
    }
    proof {
        lemma_conclude(mask, dist@, queue@, head as int, w, h);
    }
    dist
}

/// With the queue drained, the propagation's invariants pin down the distance field.
proof fn lemma_conclude(mask: Seq<bool>, dist: Seq<u64>, q: Seq<usize>, head: int, w: int, h: int)
    requires
        0 <= w <= MAX_SIDE,
        0 <= h <= MAX_SIDE,
        mask.len() == w * h,
        dist.len() == w * h,
        head == q.len(),
        forall|k: int| 0 <= k < w * h && #[trigger] mask[k] ==> dist[k] == 0,
        sound(mask, dist, w, w * h),
        forall|k: int|
            0 <= k < w * h && #[trigger] dist[k] != UNREACHED && !in_queue(q, head, k) ==> settled(
                dist,
                w,
                w * h,
                k,
            ),
    ensures
        is_distance_field(mask, w, h, dist),
{
    reveal(sound);
    let n = w * h;
    assert forall|k: int| 0 <= k < n && #[trigger] dist[k] != UNREACHED implies settled(
        dist,
        w,
        n,
        k,
    ) by {
        assert(!in_queue(q, head, k));
    }
    assert forall|i: int| 0 <= i < n implies if has_water(mask, n) {
        is_nearest_water(mask, w, n, i, #[trigger] dist[i] as int)
    } else {
        dist[i] == UNREACHED
    } by {
        if has_water(mask, n) {
            lemma_nearest(mask, dist, w, h, i);
        }
    }
}

proof fn lemma_nearest(mask: Seq<bool>, dist: Seq<u64>, w: int, h: int, i: int)
    requires
        0 <= w <= MAX_SIDE,
        0 <= h <= MAX_SIDE,
        mask.len() == w * h,
        dist.len() == w * h,
        0 <= i < w * h,
        has_water(mask, w * h),
        forall|k: int| 0 <= k < w * h && #[trigger] mask[k] ==> dist[k] == 0,
        sound(mask, dist, w, w * h),
        forall|k: int|
            0 <= k < w * h && #[trigger] dist[k] != UNREACHED ==> settled(dist, w, w * h, k),
    ensures
        is_nearest_water(mask, w, w * h, i, dist[i] as int),
{
    reveal(sound);
    let n = w * h;
    let j = choose|j: int| 0 <= j < n && #[trigger] mask[j];
    lemma_cell_of(i, w, h);
    lemma_cell_of(j, w, h);
    lemma_reach(mask, dist, w, h, i, j);
    assert(octile_idx(i, j, w) <= 1414 * MAX_SIDE + 1414 * MAX_SIDE) by {
        reveal(octile);
    }
    assert(dist[i] != UNREACHED);
    assert forall|k: int| 0 <= k < n && #[trigger] mask[k] implies dist[i] <= octile_idx(
        i,
        k,
        w,
    ) by {
        lemma_reach(mask, dist, w, h, i, k);
    }
}

/// A distance field is zero on the water cells and positive everywhere else.
pub proof fn lemma_zero_exactly_on_water(mask: Seq<bool>, w: int, h: int, dist: Seq<u64>)
    requires
        w >= 0,
        h >= 0,
        mask.len() == w * h,
        is_distance_field(mask, w, h, dist),
    ensures
        forall|k: int| 0 <= k < w * h ==> (#[trigger] dist[k] == 0 <==> mask[k]),
        forall|k: int| 0 <= k < w * h && !mask[k] ==> #[trigger] dist[k] > 0,
{
    assert forall|k: int| 0 <= k < w * h implies (#[trigger] dist[k] == 0 <==> mask[k]) by {
        if has_water(mask, w * h) {
            assert(is_nearest_water(mask, w, w * h, k, dist[k] as int));
            if mask[k] {
                lemma_octile_basics(col(k, w), row(k, w), col(k, w), row(k, w));
                assert(dist[k] <= octile_idx(k, k, w));
            }
            if dist[k] == 0 {
                let j = choose|j: int|
                    0 <= j < w * h && #[trigger] mask[j] && dist[k] == octile_idx(k, j, w);
                lemma_octile_basics(col(k, w), row(k, w), col(j, w), row(j, w));
                lemma_cell_of(k, w, h);
                lemma_cell_of(j, w, h);
                assert(k == j);
            }
        } else {
            assert(!mask[k]);
        }
    }
}

/// Walking away from a water cell along a shortest path to a cell it is nearest to, the
/// distance never decreases: every cell `p` on such a path from water cell `j` to cell `q`
/// is at most as far from water as `q`, and exactly as far as its own way from `j`.
pub proof fn lemma_distance_grows_away_from_water(
    mask: Seq<bool>,
    w: int,
    h: int,
    dist: Seq<u64>,
    j: int,
    p: int,
    q: int,
)
    requires
        w >= 0,
        h >= 0,
        mask.len() == w * h,
        is_distance_field(mask, w, h, dist),
        0 <= j < w * h,
        0 <= p < w * h,
        0 <= q < w * h,
        mask[j],
        dist[q] == octile_idx(q, j, w),
        octile_idx(j, p, w) + octile_idx(p, q, w) == octile_idx(j, q, w),
    ensures
        dist[p] == octile_idx(p, j, w),
        dist[p] <= dist[q],
{
    assert(has_water(mask, w * h));
    assert(is_nearest_water(mask, w, w * h, p, dist[p] as int));
    assert(is_nearest_water(mask, w, w * h, q, dist[q] as int));
    let jx = col(j, w);
    let jy = row(j, w);
    let px = col(p, w);
    let py = row(p, w);
    let qx = col(q, w);
    let qy = row(q, w);
    lemma_octile_basics(jx, jy, px, py);
    lemma_octile_basics(px, py, qx, qy);
    lemma_octile_basics(jx, jy, qx, qy);
    let i = choose|i: int| 0 <= i < w * h && #[trigger] mask[i] && dist[p] == octile_idx(p, i, w);
    lemma_octile_triangle(qx, qy, px, py, col(i, w), row(i, w));
    assert(dist[q] <= octile_idx(q, i, w));
}

} // verus!
