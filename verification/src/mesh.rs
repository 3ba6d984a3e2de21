//! The index buffer that triangulates the grid of traced dots: every ghost
//! has a `side` by `side` grid of dots, and each cell of the grid becomes
//! two triangles.

use vstd::prelude::*;

verus! {

/// The six indices of the two triangles of cell `(x, y)` of ghost `g`.
pub open spec fn quad_indices(side: int, g: int, y: int, x: int) -> Seq<int> {
    let base = x + y * side + g * (side * side);
    seq![base, base + 1, base + side, base + 1, base + side, base + 1 + side]
}

/// The cells `0..n` of row `y` of ghost `g`.
pub open spec fn quad_row(side: int, g: int, y: int, n: int) -> Seq<int>
    decreases n,
{
    if n <= 0 {
        Seq::empty()
    } else {
        quad_row(side, g, y, n - 1) + quad_indices(side, g, y, n - 1)
    }
}

/// The rows `0..n` of ghost `g`.
pub open spec fn ghost_quads(side: int, g: int, n: int) -> Seq<int>
    decreases n,
{
    if n <= 0 {
        Seq::empty()
    } else {
        ghost_quads(side, g, n - 1) + quad_row(side, g, n - 1, side - 1)
    }
}

/// The triangle indices of ghosts `0..n`.
pub open spec fn tri_indices(side: int, n: int) -> Seq<int>
    decreases n,
{
    if n <= 0 {
        Seq::empty()
    } else {
        tri_indices(side, n - 1) + ghost_quads(side, n - 1, side - 1)
    }
}

/// Building the index buffer computes only values within `u32`.
pub open spec fn tri_index_defined(side: int, num_ghosts: int) -> bool {
    num_ghosts > 0 ==> {
        &&& side >= 1
        &&& side * side <= u32::MAX
        &&& (num_ghosts - 1) * (side * side) <= u32::MAX
        &&& side >= 2 ==> num_ghosts * (side * side) - 1 <= u32::MAX
    }
}

proof fn lemma_cell_bounds(side: int, n: int, g: int, y: int, x: int)
    requires
        side >= 2,
        0 <= g < n,
        0 <= y < side - 1,
        0 <= x < side - 1,
    ensures
        0 <= y * side,
        0 <= g * (side * side),
        x + 1 + side + y * side <= side * side - 1,
        g * (side * side) + side * side <= n * (side * side),
{
    assert(0 <= y * side) by (nonlinear_arith)
        requires
            0 <= y,
            0 <= side,
    ;
    assert(0 <= g * (side * side)) by (nonlinear_arith)
        requires
            0 <= g,
    ;
    assert(y * side <= (side - 2) * side) by (nonlinear_arith)
        requires
            y <= side - 2,
            side >= 0,
    ;
    assert((side - 2) * side == side * side - 2 * side) by (nonlinear_arith);
    assert(g * (side * side) + side * side == (g + 1) * (side * side)) by (nonlinear_arith);
    assert((g + 1) * (side * side) <= n * (side * side)) by (nonlinear_arith)
        requires
            g + 1 <= n,
    ;
}

/// The triangle index buffer: for each ghost, row and cell of the grid,
/// the indices of the cell's two triangles.
pub fn tri_index_data(dot_side_len: u32, num_ghosts: u32) -> (r: Vec<u32>)
    requires
        tri_index_defined(dot_side_len as int, num_ghosts as int),
    ensures
        r@.len() == tri_indices(dot_side_len as int, num_ghosts as int).len(),
        forall|k: int|
            0 <= k < r@.len() ==> r@[k] == tri_indices(dot_side_len as int, num_ghosts as int)[k],
{
    let ghost s = dot_side_len as int;
    let mut data: Vec<u32> = Vec::new();
    let mut i: u32 = 0;
    while i < num_ghosts
        invariant
            s == dot_side_len,
            i <= num_ghosts,
            tri_index_defined(s, num_ghosts as int),
            data@.len() == tri_indices(s, i as int).len(),
            forall|k: int| 0 <= k < data@.len() ==> data@[k] == tri_indices(s, i as int)[k],
        decreases num_ghosts - i,
    {
        proof {
            assert(i * (s * s) <= (num_ghosts - 1) * (s * s)) by (nonlinear_arith)
                requires
                    i <= num_ghosts - 1,
                    s * s >= 0,
            ;
            assert(s * s >= 0) by (nonlinear_arith);
        }
        let offset = i * (dot_side_len * dot_side_len);
        let ghost before_ghost = tri_indices(s, i as int);
        let mut y: u32 = 0;
        while y < dot_side_len - 1
            invariant
                s == dot_side_len,
                i < num_ghosts,
                s >= 1,
                y <= s - 1,
                tri_index_defined(s, num_ghosts as int),
                offset == i * (s * s),
                before_ghost == tri_indices(s, i as int),
                data@.len() == (before_ghost + ghost_quads(s, i as int, y as int)).len(),
                forall|k: int|
                    0 <= k < data@.len() ==> data@[k] == (before_ghost + ghost_quads(
                        s,
                        i as int,
                        y as int,
                    ))[k],
            decreases s - 1 - y,
        {
            let ghost before_row = before_ghost + ghost_quads(s, i as int, y as int);
            let mut x: u32 = 0;
            while x < dot_side_len - 1
                invariant
                    s == dot_side_len,
                    i < num_ghosts,
                    s >= 2,
                    y < s - 1,
                    x <= s - 1,
                    tri_index_defined(s, num_ghosts as int),
                    offset == i * (s * s),
                    before_row == before_ghost + ghost_quads(s, i as int, y as int),
                    data@.len() == (before_row + quad_row(s, i as int, y as int, x as int)).len(),
                    forall|k: int|
                        0 <= k < data@.len() ==> data@[k] == (before_row + quad_row(
                            s,
                            i as int,
                            y as int,
                            x as int,
                        ))[k],
                decreases s - 1 - x,
            {
                proof {
                    lemma_cell_bounds(s, num_ghosts as int, i as int, y as int, x as int);
                }
                let ghost old_data = data@;
                let row = y * dot_side_len;
                data.push(x + row + offset);
                data.push(x + 1 + row + offset);
                data.push(x + dot_side_len + row + offset);
                data.push(x + 1 + row + offset);
                data.push(x + dot_side_len + row + offset);
                data.push(x + 1 + dot_side_len + row + offset);
                proof {
                    let q = quad_indices(s, i as int, y as int, x as int);
                    let prev = before_row + quad_row(s, i as int, y as int, x as int);
                    assert(before_row + quad_row(s, i as int, y as int, x + 1) =~= prev + q);
                    assert forall|k: int| 0 <= k < data@.len() implies data@[k] == (prev + q)[k] by {
                        if k < old_data.len() {
                            assert(data@[k] == old_data[k]);
                        }
                    }
                }
                x = x + 1;
            }
            proof {
                assert(before_ghost + ghost_quads(s, i as int, y + 1) =~= before_row + quad_row(
                    s,
                    i as int,
                    y as int,
                    s - 1,
                ));
            }
            y = y + 1;
        }
        proof {
            assert(tri_indices(s, i + 1) =~= before_ghost + ghost_quads(s, i as int, s - 1));
        }
        i = i + 1;
    }
    data
}

proof fn lemma_quad_row_len(side: int, g: int, y: int, n: int)
    requires
        n >= 0,
    ensures
        quad_row(side, g, y, n).len() == 6 * n,
    decreases n,
{
    if n > 0 {
        lemma_quad_row_len(side, g, y, n - 1);
    }
}

proof fn lemma_ghost_quads_len(side: int, g: int, n: int)
    requires
        n >= 0,
        side >= 1,
    ensures
        ghost_quads(side, g, n).len() == 6 * (side - 1) * n,
    decreases n,
{
    if n > 0 {
        lemma_ghost_quads_len(side, g, n - 1);
        lemma_quad_row_len(side, g, n - 1, side - 1);
        assert(6 * (side - 1) * (n - 1) + 6 * (side - 1) == 6 * (side - 1) * n)
            by (nonlinear_arith);
    } else {
        assert(6 * (side - 1) * n == 0) by (nonlinear_arith)
            requires
                n == 0,
        ;
    }
}

/// Each ghost contributes two triangles, six indices, per grid cell.
pub proof fn lemma_tri_indices_len(side: int, n: int)
    requires
        n >= 0,
        side >= 1,
    ensures
        tri_indices(side, n).len() == 6 * n * ((side - 1) * (side - 1)),
    decreases n,
{
    if n > 0 {
        lemma_tri_indices_len(side, n - 1);
        lemma_ghost_quads_len(side, n - 1, side - 1);
        assert(6 * (n - 1) * ((side - 1) * (side - 1)) + 6 * (side - 1) * (side - 1) == 6 * n * ((
        side - 1) * (side - 1))) by (nonlinear_arith);
    } else {
        assert(6 * n * ((side - 1) * (side - 1)) == 0) by (nonlinear_arith)
            requires
                n == 0,
        ;
    }
}

proof fn lemma_ghost_quads_bound(side: int, total: int, g: int, n: int)
    requires
        side >= 2,
        0 <= g < total,
        0 <= n <= side - 1,
    ensures
        forall|k: int|
            0 <= k < ghost_quads(side, g, n).len() ==> 0 <= #[trigger] ghost_quads(side, g, n)[k]
                < total * (side * side),
    decreases n,
{
    if n > 0 {
        lemma_ghost_quads_bound(side, total, g, n - 1);
        lemma_quad_row_bound(side, total, g, n - 1, side - 1);
        let a = ghost_quads(side, g, n - 1);
        let b = quad_row(side, g, n - 1, side - 1);
        assert forall|k: int| 0 <= k < (a + b).len() implies 0 <= #[trigger] (a + b)[k] < total * (
        side * side) by {
            if k < a.len() {
                assert((a + b)[k] == a[k]);
            } else {
                assert((a + b)[k] == b[k - a.len()]);
            }
        }
    }
}

proof fn lemma_quad_row_bound(side: int, total: int, g: int, y: int, n: int)
    requires
        side >= 2,
        0 <= g < total,
        0 <= y < side - 1,
        0 <= n <= side - 1,
    ensures
        forall|k: int|
            0 <= k < quad_row(side, g, y, n).len() ==> 0 <= #[trigger] quad_row(side, g, y, n)[k]
                < total * (side * side),
    decreases n,
{
    if n > 0 {
        lemma_quad_row_bound(side, total, g, y, n - 1);
        lemma_cell_bounds(side, total, g, y, n - 1);
        let a = quad_row(side, g, y, n - 1);
        let b = quad_indices(side, g, y, n - 1);
        assert forall|k: int| 0 <= k < (a + b).len() implies 0 <= #[trigger] (a + b)[k] < total * (
        side * side) by {
            if k < a.len() {
                assert((a + b)[k] == a[k]);
            } else {
                assert((a + b)[k] == b[k - a.len()]);
            }
        }
    }
}

/// Every index points at a dot: it is below `n * side * side`.
pub proof fn lemma_tri_indices_bound(side: int, total: int, n: int)
    requires
        side >= 2,
        0 <= n <= total,
    ensures
        forall|k: int|
            0 <= k < tri_indices(side, n).len() ==> 0 <= #[trigger] tri_indices(side, n)[k] < total
                * (side * side),
    decreases n,
{
    if n > 0 {
        lemma_tri_indices_bound(side, total, n - 1);
        lemma_ghost_quads_bound(side, total, n - 1, side - 1);
        let a = tri_indices(side, n - 1);
        let b = ghost_quads(side, n - 1, side - 1);
        assert forall|k: int| 0 <= k < (a + b).len() implies 0 <= #[trigger] (a + b)[k] < total * (
        side * side) by {
            if k < a.len() {
                assert((a + b)[k] == a[k]);
            } else {
                assert((a + b)[k] == b[k - a.len()]);
            }
        }
    }
}

/// The number of grid cells of one ghost, `(dot_side_len - 1)^2`.
pub fn num_tris(dot_side_len: u32) -> (r: u32)
    requires
        dot_side_len >= 1,
        (dot_side_len - 1) * (dot_side_len - 1) <= u32::MAX,
    ensures
        r == (dot_side_len - 1) * (dot_side_len - 1),
{
    (dot_side_len - 1) * (dot_side_len - 1)
}

proof fn lemma_quad_row_at(side: int, g: int, y: int, n: int, x: int, r: int)
    requires
        0 <= x < n,
        0 <= r < 6,
    ensures
        quad_row(side, g, y, n)[6 * x + r] == quad_indices(side, g, y, x)[r],
    decreases n,
{
    lemma_quad_row_len(side, g, y, n - 1);
    let a = quad_row(side, g, y, n - 1);
    let b = quad_indices(side, g, y, n - 1);
    if x < n - 1 {
        lemma_quad_row_at(side, g, y, n - 1, x, r);
        assert((a + b)[6 * x + r] == a[6 * x + r]);
    } else {
        assert((a + b)[6 * x + r] == b[r]);
    }
}

proof fn lemma_ghost_quads_at(side: int, g: int, m: int, y: int, x: int, r: int)
    requires
        side >= 2,
        0 <= y < m,
        0 <= x < side - 1,
        0 <= r < 6,
    ensures
        ghost_quads(side, g, m)[6 * (side - 1) * y + 6 * x + r] == quad_indices(side, g, y, x)[r],
    decreases m,
{
    lemma_ghost_quads_len(side, g, m - 1);
    lemma_quad_row_len(side, g, m - 1, side - 1);
    let a = ghost_quads(side, g, m - 1);
    let b = quad_row(side, g, m - 1, side - 1);
    let pos = 6 * (side - 1) * y + 6 * x + r;
    if y < m - 1 {
        lemma_ghost_quads_at(side, g, m - 1, y, x, r);
        assert(6 * (side - 1) * y <= 6 * (side - 1) * (m - 2)) by (nonlinear_arith)
            requires
                y <= m - 2,
                side >= 2,
        ;
        assert(6 * (side - 1) * (m - 2) + 6 * (side - 1) == 6 * (side - 1) * (m - 1))
            by (nonlinear_arith);
        assert(pos < a.len());
        assert((a + b)[pos] == a[pos]);
    } else {
        lemma_quad_row_at(side, g, m - 1, side - 1, x, r);
        assert(pos - a.len() == 6 * x + r) by (nonlinear_arith)
            requires
                a.len() == 6 * (side - 1) * (m - 1),
                pos == 6 * (side - 1) * y + 6 * x + r,
                y == m - 1,
        ;
        assert((a + b)[pos] == b[6 * x + r]);
    }
}

proof fn lemma_tri_indices_at(side: int, n: int, g: int, y: int, x: int, r: int)
    requires
        side >= 2,
        0 <= g < n,
        0 <= y < side - 1,
        0 <= x < side - 1,
        0 <= r < 6,
    ensures
        tri_indices(side, n)[6 * ((side - 1) * (side - 1)) * g + 6 * (side - 1) * y + 6 * x + r]
            == quad_indices(side, g, y, x)[r],
        0 <= 6 * ((side - 1) * (side - 1)) * g + 6 * (side - 1) * y + 6 * x + r < tri_indices(
            side,
            n,
        ).len(),
    decreases n,
{
    lemma_tri_indices_len(side, n - 1);
    lemma_ghost_quads_len(side, n - 1, side - 1);
    let a = tri_indices(side, n - 1);
    let b = ghost_quads(side, n - 1, side - 1);
    let inner = 6 * (side - 1) * y + 6 * x + r;
    let pos = 6 * ((side - 1) * (side - 1)) * g + inner;
    assert(0 <= inner < 6 * (side - 1) * (side - 1)) by (nonlinear_arith)
        requires
            side >= 2,
            0 <= y < side - 1,
            0 <= x < side - 1,
            0 <= r < 6,
            inner == 6 * (side - 1) * y + 6 * x + r,
    ;
    assert(0 <= 6 * ((side - 1) * (side - 1)) * g) by (nonlinear_arith)
        requires
            g >= 0,
    ;
    if g < n - 1 {
        lemma_tri_indices_at(side, n - 1, g, y, x, r);
        assert(pos < a.len()) by (nonlinear_arith)
            requires
                a.len() == 6 * (n - 1) * ((side - 1) * (side - 1)),
                pos == 6 * ((side - 1) * (side - 1)) * g + inner,
                inner < 6 * (side - 1) * (side - 1),
                0 <= g < n - 1,
        ;
        assert((a + b)[pos] == a[pos]);
    } else {
        lemma_ghost_quads_at(side, g, side - 1, y, x, r);
        assert(pos - a.len() == inner) by (nonlinear_arith)
            requires
                a.len() == 6 * (n - 1) * ((side - 1) * (side - 1)),
                pos == 6 * ((side - 1) * (side - 1)) * g + inner,
                g == n - 1,
        ;
        assert(0 <= inner < b.len());
        assert((a + b)[pos] == b[inner]);
    }
}

/// The two triangles of cell `(x, y)` of ghost `g`: starting at position
/// `6 * ((g * (side - 1) + y) * (side - 1) + x)` the index buffer holds
/// the dots `base`, `base + 1`, `base + side` and `base + 1`,
/// `base + side`, `base + side + 1`, where `base = x + y * side + g * side * side`
/// is the cell's top-left dot.
pub proof fn lemma_tri_indices_cell(side: int, n: int, g: int, y: int, x: int)
    requires
        side >= 2,
        0 <= g < n,
        0 <= y < side - 1,
        0 <= x < side - 1,
    ensures
        ({
            let c = 6 * ((g * (side - 1) + y) * (side - 1) + x);
            let base = x + y * side + g * (side * side);
            let t = tri_indices(side, n);
            &&& 0 <= c && c + 5 < t.len()
            &&& t[c] == base
            &&& t[c + 1] == base + 1
            &&& t[c + 2] == base + side
            &&& t[c + 3] == base + 1
            &&& t[c + 4] == base + side
            &&& t[c + 5] == base + side + 1
        }),
{
    let c = 6 * ((g * (side - 1) + y) * (side - 1) + x);
    assert(c == 6 * ((side - 1) * (side - 1)) * g + 6 * (side - 1) * y + 6 * x)
        by (nonlinear_arith)
        requires
            c == 6 * ((g * (side - 1) + y) * (side - 1) + x),
    ;
    lemma_tri_indices_at(side, n, g, y, x, 0);
    lemma_tri_indices_at(side, n, g, y, x, 1);
    lemma_tri_indices_at(side, n, g, y, x, 2);
    lemma_tri_indices_at(side, n, g, y, x, 3);
    lemma_tri_indices_at(side, n, g, y, x, 4);
    lemma_tri_indices_at(side, n, g, y, x, 5);
}

} // verus!
