//! The exponent tuples of dense polynomials of bounded total degree, in
//! the order in which the nested loops over them visit them.

use vstd::prelude::*;

verus! {

/// The pairs `(i, j)` for one `i`: `j` runs over `0..d - i`.
pub open spec fn row2(d: int, i: int) -> Seq<(usize, usize)> {
    Seq::new((d - i) as nat, |j: int| (i as usize, j as usize))
}

/// The pairs with first component below `n`, row by row.
pub open spec fn terms2_upto(d: int, n: int) -> Seq<(usize, usize)>
    decreases n,
{
    if n <= 0 {
        Seq::empty()
    } else {
        terms2_upto(d, n - 1) + row2(d, n - 1)
    }
}

/// All pairs `(i, j)` with `i + j < d`, in lexicographic order.
pub open spec fn terms2(d: int) -> Seq<(usize, usize)> {
    terms2_upto(d, d)
}

/// The quadruples `(i, j, k, l)` for one `(i, j, k)`: `l` runs over
/// `0..d - (i + j + k)`.
pub open spec fn row4(d: int, i: int, j: int, k: int) -> Seq<(usize, usize, usize, usize)> {
    Seq::new(
        (d - (i + j + k)) as nat,
        |l: int| (i as usize, j as usize, k as usize, l as usize),
    )
}

/// The quadruples for one `(i, j)` with third component below `n`.
pub open spec fn block3(d: int, i: int, j: int, n: int) -> Seq<(usize, usize, usize, usize)>
    decreases n,
{
    if n <= 0 {
        Seq::empty()
    } else {
        block3(d, i, j, n - 1) + row4(d, i, j, n - 1)
    }
}

/// The quadruples for one `i` with second component below `n`.
pub open spec fn block2(d: int, i: int, n: int) -> Seq<(usize, usize, usize, usize)>
    decreases n,
{
    if n <= 0 {
        Seq::empty()
    } else {
        block2(d, i, n - 1) + block3(d, i, n - 1, d - (i + (n - 1)))
    }
}

/// The quadruples with first component below `n`.
pub open spec fn block1(d: int, n: int) -> Seq<(usize, usize, usize, usize)>
    decreases n,
{
    if n <= 0 {
        Seq::empty()
    } else {
        block1(d, n - 1) + block2(d, n - 1, d - (n - 1))
    }
}

/// All quadruples `(i, j, k, l)` with `i + j + k + l < d`, in
/// lexicographic order.
pub open spec fn terms4(d: int) -> Seq<(usize, usize, usize, usize)> {
    block1(d, d)
}

/// The triangular numbers: `tri(t) = 1 + 2 + ... + t`.
pub open spec fn tri(t: int) -> int
    decreases t,
{
    if t <= 0 {
        0
    } else {
        tri(t - 1) + t
    }
}

/// The tetrahedral numbers: `tet(t) = tri(1) + ... + tri(t)`.
pub open spec fn tet(t: int) -> int
    decreases t,
{
    if t <= 0 {
        0
    } else {
        tet(t - 1) + tri(t)
    }
}

/// The pentatope numbers: `pen(t) = tet(1) + ... + tet(t)`.
pub open spec fn pen(t: int) -> int
    decreases t,
{
    if t <= 0 {
        0
    } else {
        pen(t - 1) + tet(t)
    }
}

pub proof fn lemma_tri_closed(t: int)
    requires
        t >= 0,
    ensures
        2 * tri(t) == t * (t + 1),
        tri(t) >= 0,
    decreases t,
{
    if t > 0 {
        lemma_tri_closed(t - 1);
        assert((t - 1) * t + 2 * t == t * (t + 1)) by (nonlinear_arith);
    }
}

pub proof fn lemma_tet_closed(t: int)
    requires
        t >= 0,
    ensures
        6 * tet(t) == t * (t + 1) * (t + 2),
        tet(t) >= 0,
    decreases t,
{
    if t > 0 {
        lemma_tet_closed(t - 1);
        lemma_tri_closed(t);
        let u = t - 1;
        assert(u * (u + 1) * (u + 2) == (t - 1) * t * (t + 1));
        assert(tet(t) == tet(t - 1) + tri(t));
        assert(6 * tet(t - 1) == (t - 1) * t * (t + 1));
        assert(6 * tri(t) == 3 * (t * (t + 1)));
        assert((t - 1) * t * (t + 1) + 3 * (t * (t + 1)) == t * (t + 1) * (t + 2))
            by (nonlinear_arith);
        assert(6 * tet(t) == t * (t + 1) * (t + 2));
    } else {
        assert(t == 0);
        assert(t * (t + 1) * (t + 2) == 0);
    }
}

pub proof fn lemma_pen_closed(t: int)
    requires
        t >= 0,
    ensures
        24 * pen(t) == t * (t + 1) * (t + 2) * (t + 3),
        pen(t) >= 0,
    decreases t,
{
    if t > 0 {
        lemma_pen_closed(t - 1);
        lemma_tet_closed(t);
        assert((t - 1) * t * (t + 1) * (t + 2) + 4 * (t * (t + 1) * (t + 2)) == t * (t + 1) * (t
            + 2) * (t + 3)) by (nonlinear_arith);
    }
}

pub proof fn lemma_terms2_upto_len(d: int, n: int)
    requires
        0 <= n <= d,
    ensures
        terms2_upto(d, n).len() == tri(d) - tri(d - n),
    decreases n,
{
    if n > 0 {
        lemma_terms2_upto_len(d, n - 1);
        assert(tri(d - (n - 1)) == tri(d - n) + (d - n + 1));
    }
}

/// There are `tri(d)` pairs with `i + j < d`.
pub proof fn lemma_terms2_len(d: int)
    requires
        d >= 0,
    ensures
        terms2(d).len() == tri(d),
        2 * terms2(d).len() == d * (d + 1),
{
    lemma_terms2_upto_len(d, d);
    lemma_tri_closed(d);
}

pub proof fn lemma_block3_len(d: int, i: int, j: int, n: int)
    requires
        0 <= n <= d - (i + j),
    ensures
        block3(d, i, j, n).len() == tri(d - (i + j)) - tri(d - (i + j) - n),
    decreases n,
{
    if n > 0 {
        lemma_block3_len(d, i, j, n - 1);
        assert(tri(d - (i + j) - (n - 1)) == tri(d - (i + j) - n) + (d - (i + j) - n + 1));
    }
}

pub proof fn lemma_block2_len(d: int, i: int, n: int)
    requires
        0 <= n <= d - i,
    ensures
        block2(d, i, n).len() == tet(d - i) - tet(d - i - n),
    decreases n,
{
    if n > 0 {
        lemma_block2_len(d, i, n - 1);
        lemma_block3_len(d, i, n - 1, d - (i + (n - 1)));
        assert(tet(d - i - (n - 1)) == tet(d - i - n) + tri(d - i - n + 1));
    }
}

pub proof fn lemma_block1_len(d: int, n: int)
    requires
        0 <= n <= d,
    ensures
        block1(d, n).len() == pen(d) - pen(d - n),
    decreases n,
{
    if n > 0 {
        lemma_block1_len(d, n - 1);
        lemma_block2_len(d, n - 1, d - (n - 1));
        assert(pen(d - (n - 1)) == pen(d - n) + tet(d - n + 1));
    }
}

/// There are `pen(d)` quadruples with `i + j + k + l < d`.
pub proof fn lemma_terms4_len(d: int)
    requires
        d >= 0,
    ensures
        terms4(d).len() == pen(d),
        24 * terms4(d).len() == d * (d + 1) * (d + 2) * (d + 3),
{
    lemma_block1_len(d, d);
    lemma_pen_closed(d);
}

proof fn lemma_tri_nonneg(t: int)
    ensures
        tri(t) >= 0,
        t >= 1 ==> tri(t) >= t,
    decreases t,
{
    if t > 0 {
        lemma_tri_nonneg(t - 1);
    }
}

proof fn lemma_tet_nonneg(t: int)
    ensures
        tet(t) >= 0,
    decreases t,
{
    if t > 0 {
        lemma_tet_nonneg(t - 1);
        lemma_tri_nonneg(t);
    }
}

proof fn lemma_pen_nonneg(t: int)
    ensures
        pen(t) >= 0,
    decreases t,
{
    if t > 0 {
        lemma_pen_nonneg(t - 1);
        lemma_tet_nonneg(t);
    }
}

/// While the nested loops over `terms4(d)` stand at `(i, j, k, l)`, the
/// number of quadruples visited so far, plus one, is at most `pen(d)`.
pub proof fn lemma_count4_bound(d: int, i: int, j: int, k: int, l: int)
    requires
        0 <= i < d,
        0 <= j < d - i,
        0 <= k < d - (i + j),
        0 <= l < d - (i + j + k),
    ensures
        (pen(d) - pen(d - i)) + (tet(d - i) - tet(d - i - j)) + (tri(d - (i + j)) - tri(d - (i
            + j) - k)) + l + 1 <= pen(d),
{
    let n = d - (i + j);
    lemma_tri_nonneg(n - k);
    assert(tet(d - i - j) == tet(d - i - j - 1) + tri(d - i - j));
    lemma_tet_nonneg(d - i - j - 1);
    assert(pen(d - i) == pen(d - i - 1) + tet(d - i));
    lemma_pen_nonneg(d - i - 1);
}

proof fn lemma_block3_prefix(d: int, i: int, j: int, n: int, m: int)
    requires
        0 <= n <= m,
    ensures
        block3(d, i, j, m).take(block3(d, i, j, n).len() as int) == block3(d, i, j, n),
        block3(d, i, j, n).len() <= block3(d, i, j, m).len(),
    decreases m - n,
{
    if n < m {
        lemma_block3_prefix(d, i, j, n, m - 1);
        assert(block3(d, i, j, m).take(block3(d, i, j, n).len() as int) =~= block3(
            d,
            i,
            j,
            m - 1,
        ).take(block3(d, i, j, n).len() as int));
    } else {
        assert(block3(d, i, j, m).take(block3(d, i, j, n).len() as int) =~= block3(d, i, j, n));
    }
}

proof fn lemma_block2_prefix(d: int, i: int, n: int, m: int)
    requires
        0 <= n <= m,
    ensures
        block2(d, i, m).take(block2(d, i, n).len() as int) == block2(d, i, n),
        block2(d, i, n).len() <= block2(d, i, m).len(),
    decreases m - n,
{
    if n < m {
        lemma_block2_prefix(d, i, n, m - 1);
        assert(block2(d, i, m).take(block2(d, i, n).len() as int) =~= block2(d, i, m - 1).take(
            block2(d, i, n).len() as int,
        ));
    } else {
        assert(block2(d, i, m).take(block2(d, i, n).len() as int) =~= block2(d, i, n));
    }
}

proof fn lemma_block1_prefix(d: int, n: int, m: int)
    requires
        0 <= n <= m,
    ensures
        block1(d, m).take(block1(d, n).len() as int) == block1(d, n),
        block1(d, n).len() <= block1(d, m).len(),
    decreases m - n,
{
    if n < m {
        lemma_block1_prefix(d, n, m - 1);
        assert(block1(d, m).take(block1(d, n).len() as int) =~= block1(d, m - 1).take(
            block1(d, n).len() as int,
        ));
    } else {
        assert(block1(d, m).take(block1(d, n).len() as int) =~= block1(d, n));
    }
}

/// The position of `(i, j, k, l)` in `terms4(d)`: the quadruples that the
/// nested loops visit before it.
pub open spec fn position4(d: int, i: int, j: int, k: int, l: int) -> int {
    block1(d, i).len() + block2(d, i, j).len() + block3(d, i, j, k).len() + l
}

/// A quadruple in the ranges of the nested loops.
pub open spec fn in_loops4(d: int, i: int, j: int, k: int, l: int) -> bool {
    0 <= i < d && 0 <= j < d - i && 0 <= k < d - (i + j) && 0 <= l < d - (i + j + k)
}

/// The nested loops visit `(i, j, k, l)` at `position4(d, i, j, k, l)`, and
/// everything before it in `terms4(d)` is what they visited before.
pub proof fn lemma_position4(d: int, i: int, j: int, k: int, l: int)
    requires
        in_loops4(d, i, j, k, l),
    ensures
        0 <= position4(d, i, j, k, l) < terms4(d).len(),
        terms4(d)[position4(d, i, j, k, l)] == (i as usize, j as usize, k as usize, l as usize),
        terms4(d).take(position4(d, i, j, k, l)) == block1(d, i) + block2(d, i, j) + block3(
            d,
            i,
            j,
            k,
        ) + row4(d, i, j, k).take(l),
{
    let b1 = block1(d, i);
    let b2 = block2(d, i, j);
    let b3 = block3(d, i, j, k);
    let r = row4(d, i, j, k);
    let pre = b1 + b2 + b3 + r;
    let pos = position4(d, i, j, k, l);
    // pre is a prefix of terms4(d)
    lemma_block3_prefix(d, i, j, k + 1, d - (i + j));
    let b3full = block3(d, i, j, d - (i + j));
    assert(block3(d, i, j, k + 1) == b3 + r);
    lemma_block2_prefix(d, i, j + 1, d - i);
    assert(block2(d, i, j + 1) == b2 + b3full);
    let b2full = block2(d, i, d - i);
    lemma_block1_prefix(d, i + 1, d);
    assert(block1(d, i + 1) == b1 + b2full);
    let all = terms4(d);
    let b3r = b3 + r;
    assert(b3full.take(b3r.len() as int) == b3r);
    assert(b3r.len() <= b3full.len());
    let mid = b2 + b3r;
    assert((b2 + b3full).take(mid.len() as int) =~= mid);
    assert(b2full.take((b2 + b3full).len() as int) == b2 + b3full);
    assert(b2full.take(mid.len() as int) =~= mid);
    assert((b1 + b2full).take((b1 + mid).len() as int) =~= b1 + mid);
    assert(all.take((b1 + b2full).len() as int) == b1 + b2full);
    assert(all.take((b1 + mid).len() as int) =~= b1 + mid);
    assert(pre =~= b1 + mid);
    assert(pos < pre.len());
    assert(all[pos] == pre[pos]);
    assert(pre[pos] == r[l]);
    assert(all.take(pos) =~= b1 + b2 + b3 + r.take(l));
}

/// No quadruple occurs twice in `terms4(d)`.
pub proof fn lemma_terms4_distinct(d: int, a: int, b: int)
    requires
        d <= usize::MAX + 1,
        0 <= a < b < terms4(d).len(),
    ensures
        terms4(d)[a] != terms4(d)[b],
{
    lemma_block1_sorted(d, d);
    assert(quad_lt(terms4(d)[a], terms4(d)[b]));
}

/// Strict lexicographic order of quadruples.
pub open spec fn quad_lt(a: (usize, usize, usize, usize), b: (usize, usize, usize, usize)) -> bool {
    a.0 < b.0 || (a.0 == b.0 && (a.1 < b.1 || (a.1 == b.1 && (a.2 < b.2 || (a.2 == b.2 && a.3
        < b.3)))))
}

pub open spec fn strictly_increasing4(s: Seq<(usize, usize, usize, usize)>) -> bool {
    forall|a: int, b: int| 0 <= a < b < s.len() ==> quad_lt(s[a], s[b])
}

proof fn lemma_concat_increasing4(
    s: Seq<(usize, usize, usize, usize)>,
    t: Seq<(usize, usize, usize, usize)>,
)
    requires
        strictly_increasing4(s),
        strictly_increasing4(t),
        forall|a: int, b: int| 0 <= a < s.len() && 0 <= b < t.len() ==> quad_lt(s[a], t[b]),
    ensures
        strictly_increasing4(s + t),
{
    assert forall|a: int, b: int| 0 <= a < b < (s + t).len() implies quad_lt(
        (s + t)[a],
        (s + t)[b],
    ) by {
        if b < s.len() {
        } else if a < s.len() {
            assert(quad_lt(s[a], t[b - s.len()]));
        } else {
            assert(quad_lt(t[a - s.len()], t[b - s.len()]));
        }
    }
}

proof fn lemma_block3_sorted(d: int, i: int, j: int, n: int)
    requires
        0 <= i,
        0 <= j,
        i < d,
        n <= d - (i + j),
        d <= usize::MAX + 1,
    ensures
        strictly_increasing4(block3(d, i, j, n)),
        forall|a: int|
            0 <= a < block3(d, i, j, n).len() ==> (#[trigger] block3(d, i, j, n)[a]).0 == i
                && block3(d, i, j, n)[a].1 == j && block3(d, i, j, n)[a].2 < n && in_loops4(
                d,
                block3(d, i, j, n)[a].0 as int,
                block3(d, i, j, n)[a].1 as int,
                block3(d, i, j, n)[a].2 as int,
                block3(d, i, j, n)[a].3 as int,
            ),
    decreases n,
{
    if n > 0 {
        lemma_block3_sorted(d, i, j, n - 1);
        let s = block3(d, i, j, n - 1);
        let t = row4(d, i, j, n - 1);
        assert forall|a: int| 0 <= a < t.len() implies (#[trigger] t[a]).0 == i && t[a].1 == j
            && t[a].2 == n - 1 && t[a].3 == a by {}
        lemma_concat_increasing4(s, t);
        let c = block3(d, i, j, n);
        assert forall|a: int| 0 <= a < c.len() implies (#[trigger] c[a]).0 == i && c[a].1 == j
            && c[a].2 < n && in_loops4(d, c[a].0 as int, c[a].1 as int, c[a].2 as int, c[a].3 as int) by {
            if a < s.len() {
                assert(c[a] == s[a]);
            } else {
                assert(c[a] == t[a - s.len()]);
            }
        }
    }
}

proof fn lemma_block2_sorted(d: int, i: int, n: int)
    requires
        0 <= i < d,
        n <= d - i,
        d <= usize::MAX + 1,
    ensures
        strictly_increasing4(block2(d, i, n)),
        forall|a: int|
            0 <= a < block2(d, i, n).len() ==> (#[trigger] block2(d, i, n)[a]).0 == i && block2(
                d,
                i,
                n,
            )[a].1 < n && in_loops4(
                d,
                block2(d, i, n)[a].0 as int,
                block2(d, i, n)[a].1 as int,
                block2(d, i, n)[a].2 as int,
                block2(d, i, n)[a].3 as int,
            ),
    decreases n,
{
    if n > 0 {
        lemma_block2_sorted(d, i, n - 1);
        lemma_block3_sorted(d, i, n - 1, d - (i + (n - 1)));
        let s = block2(d, i, n - 1);
        let t = block3(d, i, n - 1, d - (i + (n - 1)));
        lemma_concat_increasing4(s, t);
        let c = block2(d, i, n);
        assert forall|a: int| 0 <= a < c.len() implies (#[trigger] c[a]).0 == i && c[a].1 < n
            && in_loops4(d, c[a].0 as int, c[a].1 as int, c[a].2 as int, c[a].3 as int) by {
            if a < s.len() {
                assert(c[a] == s[a]);
            } else {
                assert(c[a] == t[a - s.len()]);
            }
        }
    }
}

proof fn lemma_block1_sorted(d: int, n: int)
    requires
        n <= d,
        d <= usize::MAX + 1,
    ensures
        strictly_increasing4(block1(d, n)),
        forall|a: int|
            0 <= a < block1(d, n).len() ==> (#[trigger] block1(d, n)[a]).0 < n && in_loops4(
                d,
                block1(d, n)[a].0 as int,
                block1(d, n)[a].1 as int,
                block1(d, n)[a].2 as int,
                block1(d, n)[a].3 as int,
            ),
    decreases n,
{
    if n > 0 {
        lemma_block1_sorted(d, n - 1);
        lemma_block2_sorted(d, n - 1, d - (n - 1));
        let s = block1(d, n - 1);
        let t = block2(d, n - 1, d - (n - 1));
        lemma_concat_increasing4(s, t);
        let c = block1(d, n);
        assert forall|a: int| 0 <= a < c.len() implies (#[trigger] c[a]).0 < n && in_loops4(
            d,
            c[a].0 as int,
            c[a].1 as int,
            c[a].2 as int,
            c[a].3 as int,
        ) by {
            if a < s.len() {
                assert(c[a] == s[a]);
            } else {
                assert(c[a] == t[a - s.len()]);
            }
        }
    }
}

/// Finishing a row, a block of rows, or a block of blocks moves the
/// position on to the start of the next one.
pub proof fn lemma_position4_steps(d: int, i: int, j: int, k: int)
    requires
        0 <= i,
        0 <= j,
        0 <= k,
    ensures
        position4(d, i, j, k, d - (i + j + k)) == position4(d, i, j, k + 1, 0) || d - (i + j + k)
            < 0,
        position4(d, i, j, d - (i + j), 0) == position4(d, i, j + 1, 0, 0) || d - (i + j) < 0,
        position4(d, i, d - i, 0, 0) == position4(d, i + 1, 0, 0, 0) || d - i < 0,
        position4(d, d, 0, 0, 0) == terms4(d).len(),
        position4(d, 0, 0, 0, 0) == 0,
{
    assert(block3(d, i, j, k + 1) == block3(d, i, j, k) + row4(d, i, j, k));
    assert(block2(d, i, j + 1) == block2(d, i, j) + block3(d, i, j, d - (i + j)));
    assert(block1(d, i + 1) == block1(d, i) + block2(d, i, d - i));
    assert(block3(d, i, j, 0).len() == 0);
    assert(block2(d, i, 0).len() == 0);
    assert(block3(d, i, j + 1, 0).len() == 0);
    assert(block2(d, i + 1, 0).len() == 0);
    assert(block3(d, i + 1, 0, 0).len() == 0);
    assert(block3(d, d, 0, 0).len() == 0);
    assert(block2(d, d, 0).len() == 0);
    assert(block1(d, 0).len() == 0);
    assert(block2(d, 0, 0).len() == 0);
    assert(block3(d, 0, 0, 0).len() == 0);
}

/// `terms4(d)` holds exactly the quadruples whose components sum to less
/// than `d`.
pub proof fn lemma_terms4_contains(d: int, t: (usize, usize, usize, usize))
    requires
        d <= usize::MAX + 1,
    ensures
        terms4(d).contains(t) <==> t.0 + t.1 + t.2 + t.3 < d,
{
    if terms4(d).contains(t) {
        lemma_block1_sorted(d, d);
        let a = choose|a: int| 0 <= a < terms4(d).len() && terms4(d)[a] == t;
        assert(in_loops4(d, t.0 as int, t.1 as int, t.2 as int, t.3 as int));
    }
    if t.0 + t.1 + t.2 + t.3 < d {
        lemma_position4(d, t.0 as int, t.1 as int, t.2 as int, t.3 as int);
        assert(terms4(d)[position4(d, t.0 as int, t.1 as int, t.2 as int, t.3 as int)] == t);
    }
}

/// The quadruple at position `c` occurs nowhere before `c`: looking it up
/// again gives back `c`.
pub proof fn lemma_terms4_first_position(d: int, c: int)
    requires
        d <= usize::MAX + 1,
        0 <= c < terms4(d).len(),
    ensures
        forall|q: int| 0 <= q < c ==> #[trigger] terms4(d)[q] != terms4(d)[c],
        terms4(d).contains(terms4(d)[c]),
{
    assert forall|q: int| 0 <= q < c implies #[trigger] terms4(d)[q] != terms4(d)[c] by {
        lemma_terms4_distinct(d, q, c);
    }
}

} // verus!
