use vstd::prelude::*;
use vstd::arithmetic::div_mod::lemma_fundamental_div_mod_converse;

verus! {

/// Cost of an axis-aligned step between neighbouring cells, in thousandths of a cell.
pub const AXIS_STEP: u64 = 1000;

/// Cost of a diagonal step between neighbouring cells, in thousandths of a cell.
pub const DIAGONAL_STEP: u64 = 1414;

/// Largest grid side the analysis accepts; keeps every path length far below `u64::MAX`.
pub const MAX_SIDE: usize = 4294967295;

/// Absolute difference of two coordinates.
pub open spec fn gap(a: int, b: int) -> int {
    if a >= b {
        a - b
    } else {
        b - a
    }
}

/// Length of the cheapest 8-connected path between cells `(ax, ay)` and `(bx, by)` on an
/// unobstructed grid: diagonal steps cover the smaller gap, axis steps the rest.
#[verifier::opaque]
pub open spec fn octile(ax: int, ay: int, bx: int, by: int) -> int {
    let dx = gap(ax, bx);
    let dy = gap(ay, by);
    if dx <= dy {
        DIAGONAL_STEP * dx + AXIS_STEP * (dy - dx)
    } else {
        DIAGONAL_STEP * dy + AXIS_STEP * (dx - dy)
    }
}

/// Row-major index of cell `(x, y)`.
pub open spec fn idx(x: int, y: int, w: int) -> int {
    y * w + x
}

/// The cell stored at index `i` lies at least one cell away from every border.
pub open spec fn interior_idx(i: int, w: int, h: int) -> bool {
    &&& 1 <= col(i, w) < w - 1
    &&& 1 <= row(i, w) < h - 1
}

/// Column of the cell stored at row-major index `i`.
#[verifier::opaque]
pub open spec fn col(i: int, w: int) -> int {
    i % w
}

/// Row of the cell stored at row-major index `i`.
#[verifier::opaque]
pub open spec fn row(i: int, w: int) -> int {
    i / w
}

/// Octile distance between the cells stored at indices `i` and `j`.
pub open spec fn octile_idx(i: int, j: int, w: int) -> int {
    octile(col(i, w), row(i, w), col(j, w), row(j, w))
}

/// The cells stored at `i` and `j` touch, by a side or a corner, and differ.
pub open spec fn adjacent_idx(i: int, j: int, w: int) -> bool {
    &&& gap(col(i, w), col(j, w)) <= 1
    &&& gap(row(i, w), row(j, w)) <= 1
    &&& i != j
}

/// Column offset of neighbour direction `d`, in the order
/// down, right, up, left, then the four diagonals.
pub open spec fn dir_dx(d: int) -> int {
    if d == 1 || d == 4 || d == 6 {
        1
    } else if d == 3 || d == 5 || d == 7 {
        -1
    } else {
        0
    }
}

/// Row offset of neighbour direction `d`.
pub open spec fn dir_dy(d: int) -> int {
    if d == 0 || d == 4 || d == 7 {
        1
    } else if d == 2 || d == 5 || d == 6 {
        -1
    } else {
        0
    }
}

/// The direction whose offsets are `(dx, dy)`.
pub open spec fn dir_of(dx: int, dy: int) -> int {
    if dx == 0 && dy == 1 {
        0
    } else if dx == 1 && dy == 0 {
        1
    } else if dx == 0 && dy == -1 {
        2
    } else if dx == -1 && dy == 0 {
        3
    } else if dx == 1 && dy == 1 {
        4
    } else if dx == -1 && dy == -1 {
        5
    } else if dx == 1 && dy == -1 {
        6
    } else {
        7
    }
}

pub proof fn lemma_dir_of(dx: int, dy: int)
    requires
        -1 <= dx <= 1,
        -1 <= dy <= 1,
        dx != 0 || dy != 0,
    ensures
        0 <= dir_of(dx, dy) < 8,
        dir_dx(dir_of(dx, dy)) == dx,
        dir_dy(dir_of(dx, dy)) == dy,
{
}

/// The index of cell `(x, y)` lies in the grid and maps back to its column and row.
pub proof fn lemma_cell(x: int, y: int, w: int, h: int)
    requires
        0 <= x < w,
        0 <= y < h,
    ensures
        0 <= y * w + x < w * h,
        col(y * w + x, w) == x,
        row(y * w + x, w) == y,
{
    assert(0 <= y * w + x < w * h) by (nonlinear_arith)
        requires
            0 <= x < w,
            0 <= y < h,
    ;
    lemma_fundamental_div_mod_converse(y * w + x, w, y, x);
    reveal(col);
    reveal(row);
}

/// Every index of the grid names a cell inside it.
pub proof fn lemma_cell_of(i: int, w: int, h: int)
    requires
        0 <= i < w * h,
        w >= 0,
        h >= 0,
    ensures
        0 <= col(i, w) < w,
        0 <= row(i, w) < h,
        i == row(i, w) * w + col(i, w),
{
    assert(w > 0) by (nonlinear_arith)
        requires
            0 <= i < w * h,
            w >= 0,
            h >= 0,
    ;
    reveal(col);
    reveal(row);
    vstd::arithmetic::div_mod::lemma_fundamental_div_mod(i, w);
    vstd::arithmetic::div_mod::lemma_mod_pos_bound(i, w);
    let r = i / w;
    assert(r < h) by (nonlinear_arith)
        requires
            0 <= i < w * h,
            w > 0,
            r == i / w,
            i == w * r + i % w,
            0 <= i % w,
    ;
    assert(r >= 0) by (nonlinear_arith)
        requires
            0 <= i,
            w > 0,
            r == i / w,
    ;
    assert(i == r * w + i % w) by (nonlinear_arith)
        requires
            i == w * r + i % w,
    ;
}

/// Octile distance is symmetric and zero exactly between a cell and itself.
pub proof fn lemma_octile_basics(ax: int, ay: int, bx: int, by: int)
    ensures
        octile(ax, ay, bx, by) == octile(bx, by, ax, ay),
        octile(ax, ay, bx, by) >= 0,
        octile(ax, ay, bx, by) == 0 <==> (ax == bx && ay == by),
{
    reveal(octile);
}

/// Octile distance obeys the triangle inequality.
pub proof fn lemma_octile_triangle(ax: int, ay: int, bx: int, by: int, cx: int, cy: int)
    ensures
        octile(ax, ay, cx, cy) <= octile(ax, ay, bx, by) + octile(bx, by, cx, cy),
{
    reveal(octile);
}

/// Row-major index of cell `(x, y)` in a grid `width` cells wide.
pub fn cell_index(x: usize, y: usize, width: usize, height: usize) -> (r: usize)
    requires
        x < width,
        y < height,
        width * height <= usize::MAX,
    ensures
        r == y * width + x,
        r < width * height,
        col(r as int, width as int) == x,
        row(r as int, width as int) == y,
{
    proof {
        lemma_cell(x as int, y as int, width as int, height as int);
    }
    y * width + x
}

/// The neighbour of `(x, y)` in direction `d`, when it lies inside the grid.
pub fn neighbor(x: usize, y: usize, width: usize, height: usize, d: usize) -> (r: Option<
    (usize, usize),
>)
    requires
        x < width,
        y < height,
        d < 8,
    ensures
        match r {
            Some((nx, ny)) => {
                &&& nx == x + dir_dx(d as int)
                &&& ny == y + dir_dy(d as int)
                &&& nx < width
                &&& ny < height
            },
            None => {
                let nx = x + dir_dx(d as int);
                let ny = y + dir_dy(d as int);
                !(0 <= nx < width && 0 <= ny < height)
            },
        },
{
    let right = x + 1 < width;
    let down = y + 1 < height;
    let left = x > 0;
    let up = y > 0;
    if d == 0 {
        if down {
            Some((x, y + 1))
        } else {
            None
        }
    } else if d == 1 {
        if right {
            Some((x + 1, y))
        } else {
            None
        }
    } else if d == 2 {
        if up {
            Some((x, y - 1))
        } else {
            None
        }
    } else if d == 3 {
        if left {
            Some((x - 1, y))
        } else {
            None
        }
    } else if d == 4 {
        if right && down {
            Some((x + 1, y + 1))
        } else {
            None
        }
    } else if d == 5 {
        if left && up {
            Some((x - 1, y - 1))
        } else {
            None
        }
    } else if d == 6 {
        if right && up {
            Some((x + 1, y - 1))
        } else {
            None
        }
    } else {
        if left && down {
            Some((x - 1, y + 1))
        } else {
            None
        }
    }
}

} // verus!
