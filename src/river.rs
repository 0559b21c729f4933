use vstd::prelude::*;

verus! {

/// Carve depth, in thousandths of a world unit, below which a cell counts as water: only
/// the deepest part of the channel is water, the banks stay dry land.
pub const WATER_CARVE_LIMIT: i64 = -700;

/// Erosion intensity, in thousandths, at `distance` from the river centreline for a river
/// `river_width` wide (both in thousandths of a world unit): the full `strength` up to the
/// water edge, a falloff of `(1 - t)^2` across `radius` beyond it, none further out.
pub open spec fn erosion_at(distance: int, river_width: int, strength: int, radius: int) -> int {
    let edge = river_width / 2;
    if distance <= edge {
        strength
    } else if distance <= edge + radius {
        let rest = radius - (distance - edge);
        strength * rest * rest / (radius * radius)
    } else {
        0
    }
}

/// Erosion intensity at `distance` from the river centreline.
pub fn erosion_factor(distance: u32, river_width: u32, strength: u32, radius: u32) -> (r: u32)
    ensures
        r == erosion_at(distance as int, river_width as int, strength as int, radius as int),
        r <= strength,
{
    let edge = river_width / 2;
    if distance <= edge {
        strength
    } else if (distance as u64) <= (edge as u64) + (radius as u64) {
        let rest = (radius - (distance - edge)) as u128;
        proof {
            assert((radius as int) * (radius as int) <= 0xffff_ffff_ffff_ffff) by (nonlinear_arith)
                requires
                    0 <= radius <= 0xffff_ffff,
            ;
        }
        let rr = (radius as u128) * (radius as u128);
        proof {
            let st = strength as int;
            let re = rest as int;
            let q = rr as int;
            assert(re * re <= q) by (nonlinear_arith)
                requires
                    0 <= re <= radius,
                    q == radius * radius,
            ;
            assert(q >= 1) by (nonlinear_arith)
                requires
                    q == radius * radius,
                    radius >= 1,
            ;
            assert(st * re * re <= st * q) by (nonlinear_arith)
                requires
                    re * re <= q,
                    st >= 0,
            ;
            assert(q <= 0xffff_ffff_ffff_ffff);
            assert(st * re <= 0xffff_ffff * 0xffff_ffff) by (nonlinear_arith)
                requires
                    0 <= st <= 0xffff_ffff,
                    0 <= re <= 0xffff_ffff,
            ;
            assert(st * q <= 0xffff_ffff * 0xffff_ffff_ffff_ffff) by (nonlinear_arith)
                requires
                    0 <= st <= 0xffff_ffff,
                    0 <= q <= 0xffff_ffff_ffff_ffff,
            ;
            assert(st * re * re / q <= st) by (nonlinear_arith)
                requires
                    0 <= st * re * re <= st * q,
                    q >= 1,
            ;
            assert(st * re * re >= 0) by (nonlinear_arith)
                requires
                    st >= 0,
            ;
            assert(q <= 0xffff_ffff_ffff_ffff) by (nonlinear_arith)
                requires
                    q == radius * radius,
                    0 <= radius <= 0xffff_ffff,
            ;
        }
        ((strength as u128) * rest * rest / rr) as u32
    } else {
        0
    }
}

/// Water cells of a grid of carve depths: those carved deeper than `WATER_CARVE_LIMIT`.
pub fn water_from_carve(carve: &Vec<i64>) -> (water: Vec<bool>)
    ensures
        water@.len() == carve@.len(),
        forall|k: int| 0 <= k < carve@.len() ==> #[trigger] water@[k] == (carve@[k] < WATER_CARVE_LIMIT),
{
    let mut water: Vec<bool> = Vec::new();
    let mut k: usize = 0;
    while k < carve.len()
        invariant
            k <= carve@.len(),
            water@.len() == k,
            forall|j: int| 0 <= j < k ==> #[trigger] water@[j] == (carve@[j] < WATER_CARVE_LIMIT),
        decreases carve@.len() - k,
    {
        water.push(carve[k] < WATER_CARVE_LIMIT);
        k += 1;
    }
    water
}

} // verus!
