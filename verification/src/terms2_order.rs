//! The order of the exponent pairs of two-variable polynomials of bounded
//! total degree.

use vstd::prelude::*;
use crate::multi_index::{tri, row2, terms2_upto, terms2, lemma_terms2_upto_len};

verus! {

/// Strict lexicographic order of pairs.
pub open spec fn pair_lt(a: (usize, usize), b: (usize, usize)) -> bool {
    a.0 < b.0 || (a.0 == b.0 && a.1 < b.1)
}

proof fn lemma_tri_step2(t: int)
    requires
        t >= 1,
    ensures
        tri(t) == tri(t - 1) + t,
{
}

proof fn lemma_terms2_upto_shape(d: int, n: int)
    requires
        0 <= n <= d,
        d <= usize::MAX + 1,
    ensures
        terms2_upto(d, n).len() == tri(d) - tri(d - n),
        forall|i: int, j: int|
            0 <= i < n && 0 <= j < d - i ==> #[trigger] terms2_upto(d, n)[tri(d) - tri(d - i) + j]
                == (i as usize, j as usize),
        forall|a: int|
            0 <= a < terms2_upto(d, n).len() ==> (#[trigger] terms2_upto(d, n)[a]).0 < n
                && terms2_upto(d, n)[a].0 + terms2_upto(d, n)[a].1 < d,
        forall|a: int, b: int|
            0 <= a < b < terms2_upto(d, n).len() ==> pair_lt(
                #[trigger] terms2_upto(d, n)[a],
                #[trigger] terms2_upto(d, n)[b],
            ),
    decreases n,
{
    lemma_terms2_upto_len(d, n);
    if n > 0 {
        lemma_terms2_upto_shape(d, n - 1);
        let prev = terms2_upto(d, n - 1);
        let row = row2(d, n - 1);
        let all = terms2_upto(d, n);
        assert(all == prev + row);
        assert(prev.len() == tri(d) - tri(d - (n - 1)));
        assert forall|i: int, j: int| 0 <= i < n && 0 <= j < d - i implies #[trigger] all[tri(d)
            - tri(d - i) + j] == (i as usize, j as usize) by {
            if i < n - 1 {
                lemma_terms2_upto_len(d, i);
                lemma_terms2_upto_len(d, i + 1);
                lemma_tri_step2(d - i);
                assert(tri(d) - tri(d - i) + j < prev.len()) by {
                    lemma_tri_monotone2(d - (n - 1), d - i - 1);
                }
                assert(all[tri(d) - tri(d - i) + j] == prev[tri(d) - tri(d - i) + j]);
            } else {
                assert(all[tri(d) - tri(d - i) + j] == row[j]);
            }
        }
        assert forall|a: int| 0 <= a < all.len() implies (#[trigger] all[a]).0 < n && all[a].0
            + all[a].1 < d by {
            if a < prev.len() {
                assert(all[a] == prev[a]);
            } else {
                assert(all[a] == row[a - prev.len()]);
            }
        }
        assert forall|a: int, b: int| 0 <= a < b < all.len() implies pair_lt(
            #[trigger] all[a],
            #[trigger] all[b],
        ) by {
            if b < prev.len() {
                assert(all[a] == prev[a] && all[b] == prev[b]);
            } else if a < prev.len() {
                assert(all[a] == prev[a]);
                assert(all[b] == row[b - prev.len()]);
            } else {
                assert(all[a] == row[a - prev.len()]);
                assert(all[b] == row[b - prev.len()]);
            }
        }
    }
}

proof fn lemma_tri_monotone2(a: int, b: int)
    requires
        0 <= a <= b,
    ensures
        tri(a) <= tri(b),
    decreases b - a,
{
    if a < b {
        lemma_tri_monotone2(a, b - 1);
    }
}

/// `terms2(d)` is strictly increasing in lexicographic order, holds
/// exactly the pairs `(i, j)` with `i + j < d`, and holds `(i, j)` at
/// position `tri(d) - tri(d - i) + j`: the rows of fixed `i` one after the
/// other, `j` counting up within a row.
pub proof fn lemma_terms2_shape(d: int)
    requires
        0 <= d <= usize::MAX + 1,
    ensures
        forall|a: int, b: int|
            0 <= a < b < terms2(d).len() ==> pair_lt(#[trigger] terms2(d)[a], #[trigger] terms2(d)[b]),
        forall|i: int, j: int|
            0 <= i && 0 <= j && i + j < d ==> #[trigger] terms2(d)[tri(d) - tri(d - i) + j] == (
            i as usize,
            j as usize,
        ),
        forall|t: (usize, usize)| terms2(d).contains(t) <==> t.0 + t.1 < d,
{
    lemma_terms2_upto_shape(d, d);
    assert forall|t: (usize, usize)| terms2(d).contains(t) <==> t.0 + t.1 < d by {
        if terms2(d).contains(t) {
            let a = choose|a: int| 0 <= a < terms2(d).len() && terms2(d)[a] == t;
            assert(terms2(d)[a].0 + terms2(d)[a].1 < d);
        }
        if t.0 + t.1 < d {
            let i = t.0 as int;
            let j = t.1 as int;
            let pos = tri(d) - tri(d - i) + j;
            assert(terms2(d)[pos] == (i as usize, j as usize));
            lemma_tri_step2(d - i);
            lemma_tri_monotone2(0, d - i - 1);
            lemma_tri_monotone2(d - i, d);
            assert(tri(0) == 0);
            assert(terms2(d).len() == tri(d));
            assert(0 <= pos < terms2(d).len());
        }
    }
}

} // verus!
