//! Dense polynomials in two and four variables with a full grid of
//! coefficients: `coefficients[i][j]` belongs to `x^i * y^j`.

use vstd::prelude::*;
use crate::power::{fits_i64, ipow, PowUsize};
use crate::sparse_polynom::{
    TermView, power_prefix, power_prefix_fits, term_value, sum_value, views_eval_defined,
    lemma_sum_value_push, lemma_sum_value_concat, seq_sum, lemma_seq_sum_push, trunc_div,
    div_toward_zero,
};
use crate::polynom::lemma_views_combine;
use crate::text::{
    term_text_defined, grid_text, lemma_grid_text_push, exps_of, push_term, chars_to_string,
    int_text, signed_text, all_zero, power_text, lemma_powers_text_xy,
};

verus! {

/// A polynomial in `x` and `y` with `DEGREE` exponents per variable.
#[derive(Debug, Clone, Copy)]
pub struct Polynom2d<const DEGREE: usize> {
    pub coefficients: [[i64; DEGREE]; DEGREE],
}

/// Row `i` of the terms of a grid of coefficients.
pub open spec fn grid2_row<const DEGREE: usize>(c: [[i64; DEGREE]; DEGREE], i: int) -> Seq<
    TermView,
> {
    Seq::new(DEGREE as nat, |j: int| (c@[i]@[j] as int, seq![i, j]))
}

/// The terms of the first `n` rows.
pub open spec fn grid2_rows<const DEGREE: usize>(c: [[i64; DEGREE]; DEGREE], n: int) -> Seq<
    TermView,
>
    decreases n,
{
    if n <= 0 {
        Seq::empty()
    } else {
        grid2_rows(c, n - 1) + grid2_row(c, n - 1)
    }
}

impl<const DEGREE: usize> Polynom2d<DEGREE> {
    /// All terms, row by row.
    pub open spec fn terms_view(self) -> Seq<TermView> {
        grid2_rows(self.coefficients, DEGREE as int)
    }

    /// The value of the polynomial at `(x, y)`.
    pub open spec fn value(self, x: i64, y: i64) -> int {
        sum_value(self.terms_view(), seq![x, y])
    }

    /// Evaluating at `(x, y)` stays within `i64`.
    pub open spec fn eval_defined(self, x: i64, y: i64) -> bool {
        views_eval_defined(self.terms_view(), seq![x, y])
    }

    /// Evaluate polynomial at a point
    pub fn eval(&self, x: i64, y: i64) -> (r: i64)
        requires
            self.eval_defined(x, y),
        ensures
            r == self.value(x, y),
    {
        let ghost v = self.terms_view();
        let ghost p = seq![x, y];
        let mut sum: i64 = 0;
        let mut i: usize = 0;
        while i < DEGREE
            invariant
                i <= DEGREE,
                v == self.terms_view(),
                p == seq![x, y],
                self.eval_defined(x, y),
                sum == sum_value(grid2_rows(self.coefficients, i as int), p),
            decreases DEGREE - i,
        {
            let ghost before = grid2_rows(self.coefficients, i as int);
            let ghost row = grid2_row(self.coefficients, i as int);
            let mut j: usize = 0;
            assert(before + row.take(0) =~= before);
            while j < DEGREE
                invariant
                    i < DEGREE,
                    j <= DEGREE,
                    v == self.terms_view(),
                    p == seq![x, y],
                    self.eval_defined(x, y),
                    before == grid2_rows(self.coefficients, i as int),
                    row == grid2_row(self.coefficients, i as int),
                    sum == sum_value(before + row.take(j as int), p),
                decreases DEGREE - j,
            {
                let ghost t = row[j as int];
                let ghost k = i * DEGREE + j;
                proof {
                    lemma_grid2_term(self.coefficients, i as int, j as int);
                    assert(v[k] == t);
                    assert(t == (self.coefficients@[i as int]@[j as int] as int, seq![
                        i as int,
                        j as int,
                    ]));
                    assert(power_prefix_fits(v[k].0, v[k].1, p, v[k].1.len() as int));
                    assert(fits_i64(ipow(p[0] as int, t.1[0])));
                    assert(fits_i64(ipow(p[1] as int, t.1[1])));
                    assert(fits_i64(power_prefix(t.0, t.1, p, 1)));
                    assert(fits_i64(power_prefix(t.0, t.1, p, 2)));
                    assert(fits_i64(sum_value(v.take(k + 1), p)));
                    assert(power_prefix(t.0, t.1, p, 0) == t.0);
                }
                let c = self.coefficients[i][j];
                assert(c == t.0);
                let term = c * x.upow(i) * y.upow(j);
                proof {
                    assert(term == term_value(t, p));
                    assert(before + row.take(j + 1) =~= (before + row.take(j as int)).push(t));
                    lemma_sum_value_push(before + row.take(j as int), t, p);
                }
                sum = sum + term;
                j = j + 1;
            }
            assert(row.take(DEGREE as int) =~= row);
            i = i + 1;
        }
        sum
    }
}

/// `a[i][j] + b[i][j]` (or, with `subtract`, `a[i][j] - b[i][j]`).
pub open spec fn grid2_combined<const DEGREE: usize>(
    a: [[i64; DEGREE]; DEGREE],
    b: [[i64; DEGREE]; DEGREE],
    subtract: bool,
    i: int,
    j: int,
) -> int {
    if subtract {
        a@[i]@[j] - b@[i]@[j]
    } else {
        a@[i]@[j] + b@[i]@[j]
    }
}

/// Every combined coefficient fits in `i64`.
pub open spec fn grid2_combine_fits<const DEGREE: usize>(
    a: [[i64; DEGREE]; DEGREE],
    b: [[i64; DEGREE]; DEGREE],
    subtract: bool,
) -> bool {
    forall|i: int, j: int|
        0 <= i < DEGREE && 0 <= j < DEGREE ==> fits_i64(
            #[trigger] grid2_combined(a, b, subtract, i, j),
        )
}

fn combine_grid2<const DEGREE: usize>(
    a: &[[i64; DEGREE]; DEGREE],
    b: &[[i64; DEGREE]; DEGREE],
    subtract: bool,
) -> (r: [[i64; DEGREE]; DEGREE])
    requires
        grid2_combine_fits(*a, *b, subtract),
    ensures
        forall|i: int, j: int|
            0 <= i < DEGREE && 0 <= j < DEGREE ==> r@[i]@[j] == grid2_combined(
                *a,
                *b,
                subtract,
                i,
                j,
            ),
{
    let mut coefficients = *a;
    let mut i: usize = 0;
    while i < DEGREE
        invariant
            i <= DEGREE,
            grid2_combine_fits(*a, *b, subtract),
            forall|ii: int, j: int|
                0 <= ii < i && 0 <= j < DEGREE ==> coefficients@[ii]@[j] == grid2_combined(
                    *a,
                    *b,
                    subtract,
                    ii,
                    j,
                ),
        decreases DEGREE - i,
    {
        let mut row = coefficients[i];
        let mut j: usize = 0;
        while j < DEGREE
            invariant
                i < DEGREE,
                j <= DEGREE,
                grid2_combine_fits(*a, *b, subtract),
                forall|jj: int| 0 <= jj < j ==> row@[jj] == grid2_combined(*a, *b, subtract, i as int, jj),
            decreases DEGREE - j,
        {
            assert(fits_i64(grid2_combined(*a, *b, subtract, i as int, j as int)));
            let v = if subtract {
                a[i][j] - b[i][j]
            } else {
                a[i][j] + b[i][j]
            };
            row[j] = v;
            j = j + 1;
        }
        coefficients[i] = row;
        i = i + 1;
    }
    coefficients
}

impl<const DEGREE: usize> Polynom2d<DEGREE> {
    /// The coefficient-wise sum.
    pub fn add(self, rhs: Polynom2d<DEGREE>) -> (r: Polynom2d<DEGREE>)
        requires
            grid2_combine_fits(self.coefficients, rhs.coefficients, false),
        ensures
            forall|i: int, j: int|
                0 <= i < DEGREE && 0 <= j < DEGREE ==> r.coefficients@[i]@[j]
                    == self.coefficients@[i]@[j] + rhs.coefficients@[i]@[j],
    {
        let coefficients = combine_grid2(&self.coefficients, &rhs.coefficients, false);
        assert forall|i: int, j: int| 0 <= i < DEGREE && 0 <= j < DEGREE implies coefficients@[i]@[j]
            == self.coefficients@[i]@[j] + rhs.coefficients@[i]@[j] by {
            assert(coefficients@[i]@[j] == grid2_combined(self.coefficients, rhs.coefficients, false, i, j));
        }
        Polynom2d { coefficients }
    }

    /// The coefficient-wise difference.
    pub fn sub(self, rhs: Polynom2d<DEGREE>) -> (r: Polynom2d<DEGREE>)
        requires
            grid2_combine_fits(self.coefficients, rhs.coefficients, true),
        ensures
            forall|i: int, j: int|
                0 <= i < DEGREE && 0 <= j < DEGREE ==> r.coefficients@[i]@[j]
                    == self.coefficients@[i]@[j] - rhs.coefficients@[i]@[j],
    {
        let coefficients = combine_grid2(&self.coefficients, &rhs.coefficients, true);
        assert forall|i: int, j: int| 0 <= i < DEGREE && 0 <= j < DEGREE implies coefficients@[i]@[j]
            == self.coefficients@[i]@[j] - rhs.coefficients@[i]@[j] by {
            assert(coefficients@[i]@[j] == grid2_combined(self.coefficients, rhs.coefficients, true, i, j));
        }
        Polynom2d { coefficients }
    }

    /// Whether all coefficients agree.
    pub fn eq(&self, other: &Polynom2d<DEGREE>) -> (r: bool)
        ensures
            r == forall|i: int, j: int|
                0 <= i < DEGREE && 0 <= j < DEGREE ==> self.coefficients@[i]@[j]
                    == other.coefficients@[i]@[j],
    {
        let mut i: usize = 0;
        while i < DEGREE
            invariant
                i <= DEGREE,
                forall|ii: int, j: int|
                    0 <= ii < i && 0 <= j < DEGREE ==> self.coefficients@[ii]@[j]
                        == other.coefficients@[ii]@[j],
            decreases DEGREE - i,
        {
            let mut j: usize = 0;
            while j < DEGREE
                invariant
                    i < DEGREE,
                    j <= DEGREE,
                    forall|jj: int|
                        0 <= jj < j ==> self.coefficients@[i as int]@[jj]
                            == other.coefficients@[i as int]@[jj],
                decreases DEGREE - j,
            {
                if self.coefficients[i][j] != other.coefficients[i][j] {
                    return false;
                }
                j = j + 1;
            }
            i = i + 1;
        }
        true
    }
}

/// For each sample `(x, y, d)`: `d * x^i * y^j`.
pub open spec fn fit2_numerators(points: Seq<(i64, i64, i64)>, i: int, j: int) -> Seq<int> {
    Seq::new(
        points.len(),
        |k: int| power_prefix(points[k].2 as int, seq![i, j], seq![points[k].0, points[k].1], 2),
    )
}

/// For each sample `(x, y, d)`: `x^(2i) * y^(2j)`.
pub open spec fn fit2_denominators(points: Seq<(i64, i64, i64)>, i: int, j: int) -> Seq<int> {
    Seq::new(
        points.len(),
        |k: int| power_prefix(1, seq![2 * i, 2 * j], seq![points[k].0, points[k].1], 2),
    )
}

/// Every running sum of `s` fits in `i64`.
pub open spec fn sums_fit(s: Seq<int>) -> bool {
    forall|k: int| 0 <= k <= s.len() ==> fits_i64(#[trigger] seq_sum(s.take(k)))
}

/// Fitting the coefficient of `x^i * y^j` computes only values within
/// `i64`, and divides by a non-zero sum.
pub open spec fn fit2_coefficient_defined(points: Seq<(i64, i64, i64)>, i: int, j: int) -> bool {
    let num = fit2_numerators(points, i, j);
    let den = fit2_denominators(points, i, j);
    &&& 2 * i <= usize::MAX
    &&& 2 * j <= usize::MAX
    &&& forall|k: int|
        0 <= k < points.len() ==> power_prefix_fits(
            (#[trigger] points[k]).2 as int,
            seq![i, j],
            seq![points[k].0, points[k].1],
            2,
        ) && power_prefix_fits(1, seq![2 * i, 2 * j], seq![points[k].0, points[k].1], 2)
    &&& sums_fit(num)
    &&& sums_fit(den)
    &&& seq_sum(den) != 0
    &&& !(seq_sum(num) == i64::MIN && seq_sum(den) == -1)
}

/// The fitted coefficient of `x^i * y^j`: the sum of `d * x^i * y^j` over
/// the samples divided, rounding toward zero, by the sum of
/// `x^(2i) * y^(2j)`.
pub open spec fn fit2_coefficient(points: Seq<(i64, i64, i64)>, i: int, j: int) -> int {
    trunc_div(seq_sum(fit2_numerators(points, i, j)), seq_sum(fit2_denominators(points, i, j)))
}

fn fit2_sum(points: &Vec<(i64, i64, i64)>, i: usize, j: usize, denominator: bool) -> (r: i64)
    requires
        fit2_coefficient_defined(points@, i as int, j as int),
    ensures
        r == seq_sum(
            if denominator {
                fit2_denominators(points@, i as int, j as int)
            } else {
                fit2_numerators(points@, i as int, j as int)
            },
        ),
{
    let ghost s = if denominator {
        fit2_denominators(points@, i as int, j as int)
    } else {
        fit2_numerators(points@, i as int, j as int)
    };
    let ghost e = if denominator {
        seq![2 * i, 2 * j]
    } else {
        seq![i as int, j as int]
    };
    let mut sum: i64 = 0;
    let mut k: usize = 0;
    assert(s.take(0) =~= Seq::<int>::empty());
    while k < points.len()
        invariant
            k <= points@.len(),
            fit2_coefficient_defined(points@, i as int, j as int),
            s == (if denominator {
                fit2_denominators(points@, i as int, j as int)
            } else {
                fit2_numerators(points@, i as int, j as int)
            }),
            e == (if denominator {
                seq![2 * i, 2 * j]
            } else {
                seq![i as int, j as int]
            }),
            s.len() == points@.len(),
            sum == seq_sum(s.take(k as int)),
        decreases points@.len() - k,
    {
        let (x, y, d) = points[k];
        let ghost p = seq![x, y];
        let ghost c: int = if denominator {
            1
        } else {
            d as int
        };
        proof {
            assert(points@[k as int] == (x, y, d));
            assert(power_prefix_fits(c, e, p, 2));
            assert(fits_i64(ipow(p[0] as int, e[0])));
            assert(fits_i64(ipow(p[1] as int, e[1])));
            assert(fits_i64(power_prefix(c, e, p, 1)));
            assert(fits_i64(power_prefix(c, e, p, 2)));
            assert(power_prefix(c, e, p, 0) == c);
            assert(s[k as int] == power_prefix(c, e, p, 2));
            assert(s.take(k + 1) =~= s.take(k as int).push(s[k as int]));
            lemma_seq_sum_push(s.take(k as int), s[k as int]);
            assert(fits_i64(seq_sum(s.take(k + 1))));
        }
        let term = if denominator {
            assert(e[0] == 2 * i && e[1] == 2 * j);
            assert(p[0] == x && p[1] == y);
            assert(c == 1);
            assert(power_prefix(c, e, p, 1) == power_prefix(c, e, p, 0) * ipow(p[0] as int, e[0]));
            assert(power_prefix(c, e, p, 1) == ipow(x as int, 2 * i));
            let a = x.upow(2 * i);
            let b = y.upow(2 * j);
            assert(power_prefix(c, e, p, 2) == a * b);
            a * b
        } else {
            assert(e[0] == i && e[1] == j);
            d * x.upow(i) * y.upow(j)
        };
        assert(term == s[k as int]);
        sum = sum + term;
        k = k + 1;
    }
    assert(s.take(points@.len() as int) =~= s);
    sum
}

impl<const DEGREE: usize> Polynom2d<DEGREE> {
    /// Fitting computes only values within `i64` and divides by non-zero
    /// sums.
    pub open spec fn fit_defined(points: Seq<(i64, i64, i64)>) -> bool {
        forall|i: int, j: int|
            0 <= i < DEGREE && 0 <= j < DEGREE ==> #[trigger] fit2_coefficient_defined(
                points,
                i,
                j,
            )
    }

    /// Fits each coefficient on its own: the sum over the samples of
    /// `d * x^i * y^j` divided by the sum of `x^(2i) * y^(2j)`.
    pub fn fit(points: Vec<(i64, i64, i64)>) -> (r: Polynom2d<DEGREE>)
        requires
            Self::fit_defined(points@),
        ensures
            forall|i: int, j: int|
                0 <= i < DEGREE && 0 <= j < DEGREE ==> #[trigger] r.coefficients@[i]@[j]
                    == fit2_coefficient(points@, i, j),
    {
        let mut coefficients = [[0i64; DEGREE]; DEGREE];
        let mut i: usize = 0;
        while i < DEGREE
            invariant
                i <= DEGREE,
                Self::fit_defined(points@),
                forall|ii: int, j: int|
                    0 <= ii < i && 0 <= j < DEGREE ==> #[trigger] coefficients@[ii]@[j]
                        == fit2_coefficient(points@, ii, j),
            decreases DEGREE - i,
        {
            let mut row = coefficients[i];
            let mut j: usize = 0;
            while j < DEGREE
                invariant
                    i < DEGREE,
                    j <= DEGREE,
                    Self::fit_defined(points@),
                    forall|jj: int|
                        0 <= jj < j ==> #[trigger] row@[jj] == fit2_coefficient(
                            points@,
                            i as int,
                            jj,
                        ),
                decreases DEGREE - j,
            {
                assert(fit2_coefficient_defined(points@, i as int, j as int));
                let num = fit2_sum(&points, i, j, false);
                let den = fit2_sum(&points, i, j, true);
                row[j] = div_toward_zero(num, den);
                j = j + 1;
            }
            coefficients[i] = row;
            i = i + 1;
        }
        Polynom2d { coefficients }
    }
}

proof fn lemma_grid2_rows_len<const DEGREE: usize>(c: [[i64; DEGREE]; DEGREE], n: int)
    requires
        0 <= n,
    ensures
        grid2_rows(c, n).len() == n * DEGREE,
    decreases n,
{
    if n > 0 {
        lemma_grid2_rows_len(c, n - 1);
        assert((n - 1) * DEGREE + DEGREE == n * DEGREE) by (nonlinear_arith);
    } else {
        assert(0 * DEGREE == 0);
    }
}

/// The term at row `i`, column `j` stands at `i * DEGREE + j` among all
/// terms, and the rows before it together with the first `j + 1` terms of
/// its row are the terms up to it.
proof fn lemma_grid2_term<const DEGREE: usize>(c: [[i64; DEGREE]; DEGREE], i: int, j: int)
    requires
        0 <= i < DEGREE,
        0 <= j < DEGREE,
    ensures
        0 <= i * DEGREE + j < grid2_rows(c, DEGREE as int).len(),
        grid2_rows(c, DEGREE as int)[i * DEGREE + j] == grid2_row(c, i)[j],
        grid2_rows(c, i) + grid2_row(c, i).take(j + 1) == grid2_rows(c, DEGREE as int).take(
            i * DEGREE + j + 1,
        ),
{
    lemma_grid2_rows_prefix(c, i + 1, DEGREE as int);
    lemma_grid2_rows_len(c, i);
    lemma_grid2_rows_len(c, i + 1);
    lemma_grid2_rows_len(c, DEGREE as int);
    assert((i + 1) * DEGREE == i * DEGREE + DEGREE) by (nonlinear_arith);
    assert((i + 1) * DEGREE <= DEGREE * DEGREE) by (nonlinear_arith)
        requires
            i + 1 <= DEGREE,
    ;
    assert(0 <= i * DEGREE) by (nonlinear_arith)
        requires
            0 <= i,
    ;
    let all = grid2_rows(c, DEGREE as int);
    let pre = grid2_rows(c, i + 1);
    assert(pre == grid2_rows(c, i) + grid2_row(c, i));
    assert(pre[i * DEGREE + j] == grid2_row(c, i)[j]);
    assert(all[i * DEGREE + j] == pre[i * DEGREE + j]);
    assert(grid2_rows(c, i) + grid2_row(c, i).take(j + 1) =~= pre.take(i * DEGREE + j + 1));
    assert(pre.take(i * DEGREE + j + 1) =~= all.take(i * DEGREE + j + 1));
}

proof fn lemma_grid2_rows_prefix<const DEGREE: usize>(c: [[i64; DEGREE]; DEGREE], n: int, m: int)
    requires
        0 <= n <= m,
    ensures
        grid2_rows(c, n) == grid2_rows(c, m).take(n * DEGREE),
    decreases m - n,
{
    lemma_grid2_rows_len(c, n);
    lemma_grid2_rows_len(c, m);
    if n < m {
        lemma_grid2_rows_prefix(c, n, m - 1);
        lemma_grid2_rows_len(c, m - 1);
        assert(n * DEGREE <= (m - 1) * DEGREE) by (nonlinear_arith)
            requires
                n <= m - 1,
        ;
        assert(grid2_rows(c, m).take(n * DEGREE) =~= grid2_rows(c, m - 1).take(n * DEGREE));
    } else {
        assert(grid2_rows(c, n) =~= grid2_rows(c, m).take(n * DEGREE));
    }
}

/// A polynomial in `x`, `y`, `z` and `w` with `DEGREE` exponents per
/// variable: `coefficients[i][j][k][l]` belongs to `x^i * y^j * z^k * w^l`.
#[derive(Debug, Clone, Copy)]
pub struct Polynom4d<const DEGREE: usize> {
    pub coefficients: [[[[i64; DEGREE]; DEGREE]; DEGREE]; DEGREE],
}

/// The position of `(i, j, k, l)` when the grid is read in lexicographic
/// order.
pub open spec fn flat4(i: int, j: int, k: int, l: int, d: int) -> int {
    ((i * d + j) * d + k) * d + l
}

/// The exponents `(i, j, k, l)` at position `m` of the grid.
pub open spec fn digits4(m: int, d: int) -> (int, int, int, int) {
    (m / d / d / d, (m / d / d) % d, (m / d) % d, m % d)
}

pub open spec fn grid4_coefficient<const DEGREE: usize>(
    c: [[[[i64; DEGREE]; DEGREE]; DEGREE]; DEGREE],
    i: int,
    j: int,
    k: int,
    l: int,
) -> int {
    c@[i]@[j]@[k]@[l] as int
}

/// All terms of a grid, in lexicographic order of exponents.
pub open spec fn grid4_terms<const DEGREE: usize>(
    c: [[[[i64; DEGREE]; DEGREE]; DEGREE]; DEGREE],
) -> Seq<TermView> {
    let d = DEGREE as int;
    Seq::new(
        (d * d * d * d) as nat,
        |m: int|
            {
                let e = digits4(m, d);
                (grid4_coefficient(c, e.0, e.1, e.2, e.3), seq![e.0, e.1, e.2, e.3])
            },
    )
}

proof fn lemma_div_step(q: int, r: int, d: int)
    requires
        0 <= r < d,
    ensures
        (q * d + r) / d == q,
        (q * d + r) % d == r,
{
    vstd::arithmetic::div_mod::lemma_fundamental_div_mod_converse(q * d + r, d, q, r);
}

/// The exponents at position `flat4(i, j, k, l)` are `(i, j, k, l)`, and
/// that position lies in the grid.
pub proof fn lemma_digits4(i: int, j: int, k: int, l: int, d: int)
    requires
        0 <= i < d,
        0 <= j < d,
        0 <= k < d,
        0 <= l < d,
    ensures
        digits4(flat4(i, j, k, l, d), d) == (i, j, k, l),
        0 <= flat4(i, j, k, l, d) < d * d * d * d,
{
    let m = flat4(i, j, k, l, d);
    lemma_div_step((i * d + j) * d + k, l, d);
    lemma_div_step(i * d + j, k, d);
    lemma_div_step(i, j, d);
    assert(0 <= i * d + j < d * d) by (nonlinear_arith)
        requires
            0 <= i < d,
            0 <= j < d,
    ;
    assert(0 <= (i * d + j) * d + k < d * d * d) by (nonlinear_arith)
        requires
            0 <= i * d + j < d * d,
            0 <= k < d,
    ;
    assert(0 <= m < d * d * d * d) by (nonlinear_arith)
        requires
            0 <= (i * d + j) * d + k < d * d * d,
            0 <= l < d,
            m == ((i * d + j) * d + k) * d + l,
    ;
}

proof fn lemma_flat4_steps(i: int, j: int, k: int, d: int)
    ensures
        flat4(i, j, k, d, d) == flat4(i, j, k + 1, 0, d),
        flat4(i, j, d, 0, d) == flat4(i, j + 1, 0, 0, d),
        flat4(i, d, 0, 0, d) == flat4(i + 1, 0, 0, 0, d),
        flat4(d, 0, 0, 0, d) == d * d * d * d,
        flat4(0, 0, 0, 0, d) == 0,
{
    assert(((i * d + j) * d + k) * d + d == ((i * d + j) * d + (k + 1)) * d + 0)
        by (nonlinear_arith);
    assert(((i * d + j) * d + d) * d + 0 == ((i * d + (j + 1)) * d + 0) * d + 0)
        by (nonlinear_arith);
    assert(((i * d + d) * d + 0) * d + 0 == (((i + 1) * d + 0) * d + 0) * d + 0)
        by (nonlinear_arith);
    assert(((d * d + 0) * d + 0) * d + 0 == d * d * d * d) by (nonlinear_arith);
    assert(((0 * d + 0) * d + 0) * d + 0 == 0) by (nonlinear_arith);
}

impl<const DEGREE: usize> Polynom4d<DEGREE> {
    /// All terms, in lexicographic order of exponents.
    pub open spec fn terms_view(self) -> Seq<TermView> {
        grid4_terms(self.coefficients)
    }

    /// The value of the polynomial at `(x, y, z, w)`.
    pub open spec fn value(self, x: i64, y: i64, z: i64, w: i64) -> int {
        sum_value(self.terms_view(), seq![x, y, z, w])
    }

    /// Evaluating at `(x, y, z, w)` stays within `i64`.
    pub open spec fn eval_defined(self, x: i64, y: i64, z: i64, w: i64) -> bool {
        views_eval_defined(self.terms_view(), seq![x, y, z, w])
    }

    /// Evaluate polynomial at a point
    pub fn eval(&self, x: i64, y: i64, z: i64, w: i64) -> (r: i64)
        requires
            self.eval_defined(x, y, z, w),
        ensures
            r == self.value(x, y, z, w),
    {
        let ghost d = DEGREE as int;
        let ghost v = self.terms_view();
        let ghost p = seq![x, y, z, w];
        let mut sum: i64 = 0;
        proof {
            lemma_flat4_steps(0, 0, 0, d);
            assert(v.take(0) =~= Seq::<TermView>::empty());
        }
        let mut i: usize = 0;
        while i < DEGREE
            invariant
                d == DEGREE,
                i <= DEGREE,
                v == self.terms_view(),
                p == seq![x, y, z, w],
                self.eval_defined(x, y, z, w),
                sum == sum_value(v.take(flat4(i as int, 0, 0, 0, d)), p),
            decreases DEGREE - i,
        {
            let mut j: usize = 0;
            while j < DEGREE
                invariant
                    d == DEGREE,
                    i < DEGREE,
                    j <= DEGREE,
                    v == self.terms_view(),
                    p == seq![x, y, z, w],
                    self.eval_defined(x, y, z, w),
                    sum == sum_value(v.take(flat4(i as int, j as int, 0, 0, d)), p),
                decreases DEGREE - j,
            {
                let mut k: usize = 0;
                while k < DEGREE
                    invariant
                        d == DEGREE,
                        i < DEGREE,
                        j < DEGREE,
                        k <= DEGREE,
                        v == self.terms_view(),
                        p == seq![x, y, z, w],
                        self.eval_defined(x, y, z, w),
                        sum == sum_value(v.take(flat4(i as int, j as int, k as int, 0, d)), p),
                    decreases DEGREE - k,
                {
                    let mut l: usize = 0;
                    while l < DEGREE
                        invariant
                            d == DEGREE,
                            i < DEGREE,
                            j < DEGREE,
                            k < DEGREE,
                            l <= DEGREE,
                            v == self.terms_view(),
                            p == seq![x, y, z, w],
                            self.eval_defined(x, y, z, w),
                            sum == sum_value(
                                v.take(flat4(i as int, j as int, k as int, l as int, d)),
                                p,
                            ),
                        decreases DEGREE - l,
                    {
                        let ghost m = flat4(i as int, j as int, k as int, l as int, d);
                        let ghost t = v[m];
                        let c = self.coefficients[i][j][k][l];
                        proof {
                            lemma_digits4(i as int, j as int, k as int, l as int, d);
                            assert(t == (c as int, seq![i as int, j as int, k as int, l as int]));
                            assert(power_prefix_fits(v[m].0, v[m].1, p, v[m].1.len() as int));
                            assert(fits_i64(ipow(p[0] as int, t.1[0])));
                            assert(fits_i64(ipow(p[1] as int, t.1[1])));
                            assert(fits_i64(ipow(p[2] as int, t.1[2])));
                            assert(fits_i64(ipow(p[3] as int, t.1[3])));
                            assert(fits_i64(power_prefix(t.0, t.1, p, 1)));
                            assert(fits_i64(power_prefix(t.0, t.1, p, 2)));
                            assert(fits_i64(power_prefix(t.0, t.1, p, 3)));
                            assert(fits_i64(power_prefix(t.0, t.1, p, 4)));
                            assert(power_prefix(t.0, t.1, p, 0) == c);
                            assert(fits_i64(sum_value(v.take(m + 1), p)));
                            assert(v.take(m + 1) =~= v.take(m).push(t));
                            lemma_sum_value_push(v.take(m), t, p);
                        }
                        let term = c * x.upow(i) * y.upow(j) * z.upow(k) * w.upow(l);
                        assert(term == term_value(t, p));
                        sum = sum + term;
                        l = l + 1;
                    }
                    proof {
                        lemma_flat4_steps(i as int, j as int, k as int, d);
                    }
                    k = k + 1;
                }
                proof {
                    lemma_flat4_steps(i as int, j as int, 0, d);
                }
                j = j + 1;
            }
            proof {
                lemma_flat4_steps(i as int, 0, 0, d);
            }
            i = i + 1;
        }
        proof {
            lemma_flat4_steps(0, 0, 0, d);
            assert(v.take(d * d * d * d) =~= v);
        }
        sum
    }
}

/// `a[i][j][k][l] + b[i][j][k][l]` (or, with `subtract`, the difference).
pub open spec fn grid4_combined<const DEGREE: usize>(
    a: [[[[i64; DEGREE]; DEGREE]; DEGREE]; DEGREE],
    b: [[[[i64; DEGREE]; DEGREE]; DEGREE]; DEGREE],
    subtract: bool,
    i: int,
    j: int,
    k: int,
    l: int,
) -> int {
    if subtract {
        grid4_coefficient(a, i, j, k, l) - grid4_coefficient(b, i, j, k, l)
    } else {
        grid4_coefficient(a, i, j, k, l) + grid4_coefficient(b, i, j, k, l)
    }
}

/// All exponent quadruples of a `DEGREE` grid.
pub open spec fn in_grid4(i: int, j: int, k: int, l: int, d: int) -> bool {
    0 <= i < d && 0 <= j < d && 0 <= k < d && 0 <= l < d
}

/// Every combined coefficient fits in `i64`.
pub open spec fn grid4_combine_fits<const DEGREE: usize>(
    a: [[[[i64; DEGREE]; DEGREE]; DEGREE]; DEGREE],
    b: [[[[i64; DEGREE]; DEGREE]; DEGREE]; DEGREE],
    subtract: bool,
) -> bool {
    forall|i: int, j: int, k: int, l: int|
        in_grid4(i, j, k, l, DEGREE as int) ==> fits_i64(
            #[trigger] grid4_combined(a, b, subtract, i, j, k, l),
        )
}

fn combine_grid4<const DEGREE: usize>(
    a: &[[[[i64; DEGREE]; DEGREE]; DEGREE]; DEGREE],
    b: &[[[[i64; DEGREE]; DEGREE]; DEGREE]; DEGREE],
    subtract: bool,
) -> (r: [[[[i64; DEGREE]; DEGREE]; DEGREE]; DEGREE])
    requires
        grid4_combine_fits(*a, *b, subtract),
    ensures
        forall|i: int, j: int, k: int, l: int|
            in_grid4(i, j, k, l, DEGREE as int) ==> #[trigger] grid4_coefficient(r, i, j, k, l)
                == grid4_combined(*a, *b, subtract, i, j, k, l),
{
    let mut out = *a;
    let mut i: usize = 0;
    while i < DEGREE
        invariant
            i <= DEGREE,
            grid4_combine_fits(*a, *b, subtract),
            forall|ii: int, j: int, k: int, l: int|
                in_grid4(ii, j, k, l, DEGREE as int) && ii < i ==> #[trigger] grid4_coefficient(
                    out,
                    ii,
                    j,
                    k,
                    l,
                ) == grid4_combined(*a, *b, subtract, ii, j, k, l),
        decreases DEGREE - i,
    {
        let mut ci = out[i];
        let mut j: usize = 0;
        while j < DEGREE
            invariant
                i < DEGREE,
                j <= DEGREE,
                grid4_combine_fits(*a, *b, subtract),
                forall|jj: int, k: int, l: int|
                    in_grid4(i as int, jj, k, l, DEGREE as int) && jj < j ==> #[trigger] ci@[jj]@[
                        k
                    ]@[l] == grid4_combined(*a, *b, subtract, i as int, jj, k, l),
            decreases DEGREE - j,
        {
            let mut cij = ci[j];
            let mut k: usize = 0;
            while k < DEGREE
                invariant
                    i < DEGREE,
                    j < DEGREE,
                    k <= DEGREE,
                    grid4_combine_fits(*a, *b, subtract),
                    forall|kk: int, l: int|
                        in_grid4(i as int, j as int, kk, l, DEGREE as int) && kk < k
                            ==> #[trigger] cij@[kk]@[l] == grid4_combined(
                            *a,
                            *b,
                            subtract,
                            i as int,
                            j as int,
                            kk,
                            l,
                        ),
                decreases DEGREE - k,
            {
                let mut cijk = cij[k];
                let mut l: usize = 0;
                while l < DEGREE
                    invariant
                        i < DEGREE,
                        j < DEGREE,
                        k < DEGREE,
                        l <= DEGREE,
                        grid4_combine_fits(*a, *b, subtract),
                        forall|ll: int|
                            0 <= ll < l ==> #[trigger] cijk@[ll] == grid4_combined(
                                *a,
                                *b,
                                subtract,
                                i as int,
                                j as int,
                                k as int,
                                ll,
                            ),
                    decreases DEGREE - l,
                {
                    assert(in_grid4(i as int, j as int, k as int, l as int, DEGREE as int));
                    assert(fits_i64(
                        grid4_combined(*a, *b, subtract, i as int, j as int, k as int, l as int),
                    ));
                    let value = if subtract {
                        a[i][j][k][l] - b[i][j][k][l]
                    } else {
                        a[i][j][k][l] + b[i][j][k][l]
                    };
                    cijk[l] = value;
                    l = l + 1;
                }
                cij[k] = cijk;
                k = k + 1;
            }
            ci[j] = cij;
            j = j + 1;
        }
        let ghost before = out;
        out[i] = ci;
        assert forall|ii: int, j: int, k: int, l: int|
            in_grid4(ii, j, k, l, DEGREE as int) && ii < i + 1 implies #[trigger] grid4_coefficient(
            out,
            ii,
            j,
            k,
            l,
        ) == grid4_combined(*a, *b, subtract, ii, j, k, l) by {
            if ii == i {
                assert(out@[ii] == ci);
                assert(ci@[j]@[k]@[l] == grid4_combined(*a, *b, subtract, i as int, j, k, l));
            } else {
                assert(out@[ii] == before@[ii]);
                assert(grid4_coefficient(before, ii, j, k, l) == grid4_combined(
                    *a,
                    *b,
                    subtract,
                    ii,
                    j,
                    k,
                    l,
                ));
            }
        }
        i = i + 1;
    }
    out
}

impl<const DEGREE: usize> Polynom4d<DEGREE> {
    /// The coefficient-wise sum.
    pub fn add(self, rhs: Polynom4d<DEGREE>) -> (r: Polynom4d<DEGREE>)
        requires
            grid4_combine_fits(self.coefficients, rhs.coefficients, false),
        ensures
            forall|i: int, j: int, k: int, l: int|
                in_grid4(i, j, k, l, DEGREE as int) ==> #[trigger] grid4_coefficient(
                    r.coefficients,
                    i,
                    j,
                    k,
                    l,
                ) == grid4_coefficient(self.coefficients, i, j, k, l) + grid4_coefficient(
                    rhs.coefficients,
                    i,
                    j,
                    k,
                    l,
                ),
    {
        Polynom4d { coefficients: combine_grid4(&self.coefficients, &rhs.coefficients, false) }
    }

    /// The coefficient-wise difference.
    pub fn sub(self, rhs: Polynom4d<DEGREE>) -> (r: Polynom4d<DEGREE>)
        requires
            grid4_combine_fits(self.coefficients, rhs.coefficients, true),
        ensures
            forall|i: int, j: int, k: int, l: int|
                in_grid4(i, j, k, l, DEGREE as int) ==> #[trigger] grid4_coefficient(
                    r.coefficients,
                    i,
                    j,
                    k,
                    l,
                ) == grid4_coefficient(self.coefficients, i, j, k, l) - grid4_coefficient(
                    rhs.coefficients,
                    i,
                    j,
                    k,
                    l,
                ),
    {
        Polynom4d { coefficients: combine_grid4(&self.coefficients, &rhs.coefficients, true) }
    }

    /// Whether all coefficients agree.
    pub fn eq(&self, other: &Polynom4d<DEGREE>) -> (r: bool)
        ensures
            r == forall|i: int, j: int, k: int, l: int|
                in_grid4(i, j, k, l, DEGREE as int) ==> #[trigger] grid4_coefficient(
                    self.coefficients,
                    i,
                    j,
                    k,
                    l,
                ) == grid4_coefficient(other.coefficients, i, j, k, l),
    {
        let mut i: usize = 0;
        while i < DEGREE
            invariant
                i <= DEGREE,
                forall|ii: int, j: int, k: int, l: int|
                    in_grid4(ii, j, k, l, DEGREE as int) && ii < i ==> #[trigger] grid4_coefficient(
                        self.coefficients,
                        ii,
                        j,
                        k,
                        l,
                    ) == grid4_coefficient(other.coefficients, ii, j, k, l),
            decreases DEGREE - i,
        {
            let mut j: usize = 0;
            while j < DEGREE
                invariant
                    i < DEGREE,
                    j <= DEGREE,
                    forall|ii: int, jj: int, k: int, l: int|
                        in_grid4(ii, jj, k, l, DEGREE as int) && (ii < i || (ii == i && jj < j))
                            ==> #[trigger] grid4_coefficient(self.coefficients, ii, jj, k, l)
                            == grid4_coefficient(other.coefficients, ii, jj, k, l),
                decreases DEGREE - j,
            {
                let mut k: usize = 0;
                while k < DEGREE
                    invariant
                        i < DEGREE,
                        j < DEGREE,
                        k <= DEGREE,
                        forall|ii: int, jj: int, kk: int, l: int|
                            in_grid4(ii, jj, kk, l, DEGREE as int) && (ii < i || (ii == i && jj
                                < j) || (ii == i && jj == j && kk < k)) ==> #[trigger] grid4_coefficient(
                                self.coefficients,
                                ii,
                                jj,
                                kk,
                                l,
                            ) == grid4_coefficient(other.coefficients, ii, jj, kk, l),
                    decreases DEGREE - k,
                {
                    let mut l: usize = 0;
                    while l < DEGREE
                        invariant
                            i < DEGREE,
                            j < DEGREE,
                            k < DEGREE,
                            l <= DEGREE,
                            forall|ii: int, jj: int, kk: int, ll: int|
                                in_grid4(ii, jj, kk, ll, DEGREE as int) && (ii < i || (ii == i
                                    && jj < j) || (ii == i && jj == j && kk < k) || (ii == i && jj
                                    == j && kk == k && ll < l)) ==> #[trigger] grid4_coefficient(
                                    self.coefficients,
                                    ii,
                                    jj,
                                    kk,
                                    ll,
                                ) == grid4_coefficient(other.coefficients, ii, jj, kk, ll),
                        decreases DEGREE - l,
                    {
                        if self.coefficients[i][j][k][l] != other.coefficients[i][j][k][l] {
                            assert(in_grid4(i as int, j as int, k as int, l as int, DEGREE as int));
                            assert(grid4_coefficient(
                                self.coefficients,
                                i as int,
                                j as int,
                                k as int,
                                l as int,
                            ) != grid4_coefficient(
                                other.coefficients,
                                i as int,
                                j as int,
                                k as int,
                                l as int,
                            ));
                            return false;
                        }
                        l = l + 1;
                    }
                    k = k + 1;
                }
                j = j + 1;
            }
            i = i + 1;
        }
        true
    }
}

/// A sample `(x, y, z, w, d)` as its point.
pub open spec fn sample_point4(p: (i64, i64, i64, i64, i64)) -> Seq<i64> {
    seq![p.0, p.1, p.2, p.3]
}

/// For each sample `(x, y, z, w, d)`: `d * x^i * y^j * z^k * w^l`.
pub open spec fn fit4_numerators(
    points: Seq<(i64, i64, i64, i64, i64)>,
    i: int,
    j: int,
    k: int,
    l: int,
) -> Seq<int> {
    Seq::new(
        points.len(),
        |n: int| power_prefix(points[n].4 as int, seq![i, j, k, l], sample_point4(points[n]), 4),
    )
}

/// For each sample: `x^(2i) * y^(2j) * z^(2k) * w^(2l)`.
pub open spec fn fit4_denominators(
    points: Seq<(i64, i64, i64, i64, i64)>,
    i: int,
    j: int,
    k: int,
    l: int,
) -> Seq<int> {
    Seq::new(
        points.len(),
        |n: int| power_prefix(1, seq![2 * i, 2 * j, 2 * k, 2 * l], sample_point4(points[n]), 4),
    )
}

/// Fitting the coefficient of `x^i * y^j * z^k * w^l` computes only values
/// within `i64`, and divides by a non-zero sum.
pub open spec fn fit4_coefficient_defined(
    points: Seq<(i64, i64, i64, i64, i64)>,
    i: int,
    j: int,
    k: int,
    l: int,
) -> bool {
    let num = fit4_numerators(points, i, j, k, l);
    let den = fit4_denominators(points, i, j, k, l);
    &&& 2 * i <= usize::MAX
    &&& 2 * j <= usize::MAX
    &&& 2 * k <= usize::MAX
    &&& 2 * l <= usize::MAX
    &&& forall|n: int|
        0 <= n < points.len() ==> power_prefix_fits(
            (#[trigger] points[n]).4 as int,
            seq![i, j, k, l],
            sample_point4(points[n]),
            4,
        ) && power_prefix_fits(1, seq![2 * i, 2 * j, 2 * k, 2 * l], sample_point4(points[n]), 4)
    &&& sums_fit(num)
    &&& sums_fit(den)
    &&& seq_sum(den) != 0
    &&& !(seq_sum(num) == i64::MIN && seq_sum(den) == -1)
}

/// The fitted coefficient of `x^i * y^j * z^k * w^l`.
pub open spec fn fit4_coefficient(
    points: Seq<(i64, i64, i64, i64, i64)>,
    i: int,
    j: int,
    k: int,
    l: int,
) -> int {
    trunc_div(
        seq_sum(fit4_numerators(points, i, j, k, l)),
        seq_sum(fit4_denominators(points, i, j, k, l)),
    )
}

fn fit4_sum(
    points: &Vec<(i64, i64, i64, i64, i64)>,
    i: usize,
    j: usize,
    k: usize,
    l: usize,
    denominator: bool,
) -> (r: i64)
    requires
        fit4_coefficient_defined(points@, i as int, j as int, k as int, l as int),
    ensures
        r == seq_sum(
            if denominator {
                fit4_denominators(points@, i as int, j as int, k as int, l as int)
            } else {
                fit4_numerators(points@, i as int, j as int, k as int, l as int)
            },
        ),
{
    let ghost s = if denominator {
        fit4_denominators(points@, i as int, j as int, k as int, l as int)
    } else {
        fit4_numerators(points@, i as int, j as int, k as int, l as int)
    };
    let ghost e = if denominator {
        seq![2 * i, 2 * j, 2 * k, 2 * l]
    } else {
        seq![i as int, j as int, k as int, l as int]
    };
    let mut sum: i64 = 0;
    let mut n: usize = 0;
    assert(s.take(0) =~= Seq::<int>::empty());
    while n < points.len()
        invariant
            n <= points@.len(),
            fit4_coefficient_defined(points@, i as int, j as int, k as int, l as int),
            s == (if denominator {
                fit4_denominators(points@, i as int, j as int, k as int, l as int)
            } else {
                fit4_numerators(points@, i as int, j as int, k as int, l as int)
            }),
            e == (if denominator {
                seq![2 * i, 2 * j, 2 * k, 2 * l]
            } else {
                seq![i as int, j as int, k as int, l as int]
            }),
            s.len() == points@.len(),
            sum == seq_sum(s.take(n as int)),
        decreases points@.len() - n,
    {
        let (x, y, z, w, d) = points[n];
        let ghost p = seq![x, y, z, w];
        let ghost c: int = if denominator {
            1
        } else {
            d as int
        };
        proof {
            assert(points@[n as int] == (x, y, z, w, d));
            assert(sample_point4(points@[n as int]) == p);
            assert(power_prefix_fits(c, e, p, 4));
            assert(p[0] == x && p[1] == y && p[2] == z && p[3] == w);
            assert(fits_i64(ipow(p[0] as int, e[0])));
            assert(fits_i64(ipow(p[1] as int, e[1])));
            assert(fits_i64(ipow(p[2] as int, e[2])));
            assert(fits_i64(ipow(p[3] as int, e[3])));
            assert(fits_i64(power_prefix(c, e, p, 1)));
            assert(fits_i64(power_prefix(c, e, p, 2)));
            assert(fits_i64(power_prefix(c, e, p, 3)));
            assert(fits_i64(power_prefix(c, e, p, 4)));
            assert(power_prefix(c, e, p, 0) == c);
            assert(s[n as int] == power_prefix(c, e, p, 4));
            assert(s.take(n + 1) =~= s.take(n as int).push(s[n as int]));
            lemma_seq_sum_push(s.take(n as int), s[n as int]);
            assert(fits_i64(seq_sum(s.take(n + 1))));
        }
        let term = if denominator {
            assert(e[0] == 2 * i && e[1] == 2 * j && e[2] == 2 * k && e[3] == 2 * l);
            assert(c == 1);
            assert(power_prefix(c, e, p, 1) == power_prefix(c, e, p, 0) * ipow(p[0] as int, e[0]));
            let a = x.upow(2 * i);
            let b = y.upow(2 * j);
            let g = z.upow(2 * k);
            let h = w.upow(2 * l);
            assert(power_prefix(c, e, p, 1) == a);
            a * b * g * h
        } else {
            assert(e[0] == i && e[1] == j && e[2] == k && e[3] == l);
            d * x.upow(i) * y.upow(j) * z.upow(k) * w.upow(l)
        };
        assert(term == s[n as int]);
        sum = sum + term;
        n = n + 1;
    }
    assert(s.take(points@.len() as int) =~= s);
    sum
}

impl<const DEGREE: usize> Polynom4d<DEGREE> {
    /// Fitting computes only values within `i64` and divides by non-zero
    /// sums.
    pub open spec fn fit_defined(points: Seq<(i64, i64, i64, i64, i64)>) -> bool {
        forall|i: int, j: int, k: int, l: int|
            in_grid4(i, j, k, l, DEGREE as int) ==> #[trigger] fit4_coefficient_defined(
                points,
                i,
                j,
                k,
                l,
            )
    }

    /// Fits each coefficient on its own: the sum over the samples of
    /// `d * x^i * y^j * z^k * w^l` divided by the sum of
    /// `x^(2i) * y^(2j) * z^(2k) * w^(2l)`.
    pub fn fit(points: Vec<(i64, i64, i64, i64, i64)>) -> (r: Polynom4d<DEGREE>)
        requires
            Self::fit_defined(points@),
        ensures
            forall|i: int, j: int, k: int, l: int|
                in_grid4(i, j, k, l, DEGREE as int) ==> #[trigger] grid4_coefficient(
                    r.coefficients,
                    i,
                    j,
                    k,
                    l,
                ) == fit4_coefficient(points@, i, j, k, l),
    {
        let mut out = [[[[0i64; DEGREE]; DEGREE]; DEGREE]; DEGREE];
        let mut i: usize = 0;
        while i < DEGREE
            invariant
                i <= DEGREE,
                Self::fit_defined(points@),
                forall|ii: int, j: int, k: int, l: int|
                    in_grid4(ii, j, k, l, DEGREE as int) && ii < i ==> #[trigger] grid4_coefficient(
                        out,
                        ii,
                        j,
                        k,
                        l,
                    ) == fit4_coefficient(points@, ii, j, k, l),
            decreases DEGREE - i,
        {
            let mut ci = out[i];
            let mut j: usize = 0;
            while j < DEGREE
                invariant
                    i < DEGREE,
                    j <= DEGREE,
                    Self::fit_defined(points@),
                    forall|jj: int, k: int, l: int|
                        in_grid4(i as int, jj, k, l, DEGREE as int) && jj < j ==> #[trigger] ci@[
                            jj
                        ]@[k]@[l] == fit4_coefficient(points@, i as int, jj, k, l),
                decreases DEGREE - j,
            {
                let mut cij = ci[j];
                let mut k: usize = 0;
                while k < DEGREE
                    invariant
                        i < DEGREE,
                        j < DEGREE,
                        k <= DEGREE,
                        Self::fit_defined(points@),
                        forall|kk: int, l: int|
                            in_grid4(i as int, j as int, kk, l, DEGREE as int) && kk < k
                                ==> #[trigger] cij@[kk]@[l] == fit4_coefficient(
                                points@,
                                i as int,
                                j as int,
                                kk,
                                l,
                            ),
                    decreases DEGREE - k,
                {
                    let mut cijk = cij[k];
                    let mut l: usize = 0;
                    while l < DEGREE
                        invariant
                            i < DEGREE,
                            j < DEGREE,
                            k < DEGREE,
                            l <= DEGREE,
                            Self::fit_defined(points@),
                            forall|ll: int|
                                0 <= ll < l ==> #[trigger] cijk@[ll] == fit4_coefficient(
                                    points@,
                                    i as int,
                                    j as int,
                                    k as int,
                                    ll,
                                ),
                        decreases DEGREE - l,
                    {
                        assert(in_grid4(i as int, j as int, k as int, l as int, DEGREE as int));
                        assert(fit4_coefficient_defined(
                            points@,
                            i as int,
                            j as int,
                            k as int,
                            l as int,
                        ));
                        let num = fit4_sum(&points, i, j, k, l, false);
                        let den = fit4_sum(&points, i, j, k, l, true);
                        cijk[l] = div_toward_zero(num, den);
                        l = l + 1;
                    }
                    cij[k] = cijk;
                    k = k + 1;
                }
                ci[j] = cij;
                j = j + 1;
            }
            let ghost before = out;
            out[i] = ci;
            assert forall|ii: int, j: int, k: int, l: int|
                in_grid4(ii, j, k, l, DEGREE as int) && ii < i + 1 implies #[trigger] grid4_coefficient(
                out,
                ii,
                j,
                k,
                l,
            ) == fit4_coefficient(points@, ii, j, k, l) by {
                if ii == i {
                    assert(out@[ii] == ci);
                    assert(ci@[j]@[k]@[l] == fit4_coefficient(points@, i as int, j, k, l));
                } else {
                    assert(out@[ii] == before@[ii]);
                    assert(grid4_coefficient(before, ii, j, k, l) == fit4_coefficient(
                        points@,
                        ii,
                        j,
                        k,
                        l,
                    ));
                }
            }
            i = i + 1;
        }
        Polynom4d { coefficients: out }
    }
}

proof fn lemma_grid2_rows_combine<const DEGREE: usize>(
    r: [[i64; DEGREE]; DEGREE],
    a: [[i64; DEGREE]; DEGREE],
    b: [[i64; DEGREE]; DEGREE],
    subtract: bool,
    point: Seq<i64>,
    n: int,
)
    requires
        0 <= n <= DEGREE,
        forall|i: int, j: int|
            0 <= i < DEGREE && 0 <= j < DEGREE ==> r@[i]@[j] == grid2_combined(a, b, subtract, i, j),
    ensures
        sum_value(grid2_rows(r, n), point) == sum_value(grid2_rows(a, n), point) + (if subtract {
            -sum_value(grid2_rows(b, n), point)
        } else {
            sum_value(grid2_rows(b, n), point)
        }),
    decreases n,
{
    if n > 0 {
        lemma_grid2_rows_combine(r, a, b, subtract, point, n - 1);
        let rr = grid2_row(r, n - 1);
        let ar = grid2_row(a, n - 1);
        let br = grid2_row(b, n - 1);
        assert forall|k: int| 0 <= k < rr.len() implies (#[trigger] rr[k]).1 == ar[k].1 && rr[k].1
            == br[k].1 && rr[k].0 == (if subtract {
            ar[k].0 - br[k].0
        } else {
            ar[k].0 + br[k].0
        }) by {
            assert(r@[n - 1]@[k] == grid2_combined(a, b, subtract, n - 1, k));
        }
        lemma_views_combine(
            grid2_row(r, n - 1),
            grid2_row(a, n - 1),
            grid2_row(b, n - 1),
            subtract,
            point,
        );
        lemma_sum_value_concat(grid2_rows(r, n - 1), grid2_row(r, n - 1), point);
        lemma_sum_value_concat(grid2_rows(a, n - 1), grid2_row(a, n - 1), point);
        lemma_sum_value_concat(grid2_rows(b, n - 1), grid2_row(b, n - 1), point);
    }
}

/// The value of the coefficient-wise sum (or difference) of two
/// polynomials is the sum (or difference) of their values.
pub proof fn lemma_polynom2d_combine_value<const DEGREE: usize>(
    p: Polynom2d<DEGREE>,
    q: Polynom2d<DEGREE>,
    r: Polynom2d<DEGREE>,
    subtract: bool,
    x: i64,
    y: i64,
)
    requires
        forall|i: int, j: int|
            0 <= i < DEGREE && 0 <= j < DEGREE ==> r.coefficients@[i]@[j] == grid2_combined(
                p.coefficients,
                q.coefficients,
                subtract,
                i,
                j,
            ),
    ensures
        r.value(x, y) == p.value(x, y) + (if subtract {
            -q.value(x, y)
        } else {
            q.value(x, y)
        }),
{
    lemma_grid2_rows_combine(
        r.coefficients,
        p.coefficients,
        q.coefficients,
        subtract,
        seq![x, y],
        DEGREE as int,
    );
}

/// Adding `g` and then subtracting it again gives back `f`.
pub proof fn lemma_polynom2d_add_sub_cancel<const DEGREE: usize>(
    f: Polynom2d<DEGREE>,
    g: Polynom2d<DEGREE>,
    sum: Polynom2d<DEGREE>,
    back: Polynom2d<DEGREE>,
)
    requires
        forall|i: int, j: int|
            0 <= i < DEGREE && 0 <= j < DEGREE ==> sum.coefficients@[i]@[j]
                == f.coefficients@[i]@[j] + g.coefficients@[i]@[j],
        forall|i: int, j: int|
            0 <= i < DEGREE && 0 <= j < DEGREE ==> back.coefficients@[i]@[j]
                == sum.coefficients@[i]@[j] - g.coefficients@[i]@[j],
    ensures
        forall|i: int, j: int|
            0 <= i < DEGREE && 0 <= j < DEGREE ==> back.coefficients@[i]@[j]
                == f.coefficients@[i]@[j],
{
}

/// The value of the coefficient-wise sum (or difference) of two
/// polynomials is the sum (or difference) of their values.
pub proof fn lemma_polynom4d_combine_value<const DEGREE: usize>(
    p: Polynom4d<DEGREE>,
    q: Polynom4d<DEGREE>,
    r: Polynom4d<DEGREE>,
    subtract: bool,
    x: i64,
    y: i64,
    z: i64,
    w: i64,
)
    requires
        forall|i: int, j: int, k: int, l: int|
            in_grid4(i, j, k, l, DEGREE as int) ==> #[trigger] grid4_coefficient(
                r.coefficients,
                i,
                j,
                k,
                l,
            ) == grid4_combined(p.coefficients, q.coefficients, subtract, i, j, k, l),
    ensures
        r.value(x, y, z, w) == p.value(x, y, z, w) + (if subtract {
            -q.value(x, y, z, w)
        } else {
            q.value(x, y, z, w)
        }),
{
    let d = DEGREE as int;
    let rv = r.terms_view();
    let pv = p.terms_view();
    let qv = q.terms_view();
    assert forall|m: int| 0 <= m < rv.len() implies (#[trigger] rv[m]).1 == pv[m].1 && rv[m].1
        == qv[m].1 && rv[m].0 == (if subtract {
        pv[m].0 - qv[m].0
    } else {
        pv[m].0 + qv[m].0
    }) by {
        let e = digits4(m, d);
        lemma_digits_bounds(m, d);
        assert(in_grid4(e.0, e.1, e.2, e.3, d));
        assert(grid4_coefficient(r.coefficients, e.0, e.1, e.2, e.3) == grid4_combined(
            p.coefficients,
            q.coefficients,
            subtract,
            e.0,
            e.1,
            e.2,
            e.3,
        ));
    }
    lemma_views_combine(rv, pv, qv, subtract, seq![x, y, z, w]);
}

proof fn lemma_digits_bounds(m: int, d: int)
    requires
        0 <= d,
        0 <= m < d * d * d * d,
    ensures
        in_grid4(digits4(m, d).0, digits4(m, d).1, digits4(m, d).2, digits4(m, d).3, d),
{
    assert(d > 0) by (nonlinear_arith)
        requires
            0 <= d,
            0 <= m < d * d * d * d,
    ;
    vstd::arithmetic::div_mod::lemma_div_pos_is_pos(m, d);
    vstd::arithmetic::div_mod::lemma_div_pos_is_pos(m / d, d);
    vstd::arithmetic::div_mod::lemma_div_pos_is_pos(m / d / d, d);
    vstd::arithmetic::div_mod::lemma_mod_bound(m, d);
    vstd::arithmetic::div_mod::lemma_mod_bound(m / d, d);
    vstd::arithmetic::div_mod::lemma_mod_bound(m / d / d, d);
    assert(m / d < d * d * d) by {
        vstd::arithmetic::div_mod::lemma_div_by_multiple_is_strongly_ordered(m, d * d * d * d, d * d * d, d);
        assert(d * d * d * d == (d * d * d) * d) by (nonlinear_arith);
        vstd::arithmetic::div_mod::lemma_div_by_multiple(d * d * d, d);
    }
    assert(m / d / d < d * d) by {
        vstd::arithmetic::div_mod::lemma_div_by_multiple_is_strongly_ordered(m / d, d * d * d, d * d, d);
        assert(d * d * d == (d * d) * d) by (nonlinear_arith);
        vstd::arithmetic::div_mod::lemma_div_by_multiple(d * d, d);
    }
    assert(m / d / d / d < d) by {
        vstd::arithmetic::div_mod::lemma_div_by_multiple_is_strongly_ordered(m / d / d, d * d, d, d);
        vstd::arithmetic::div_mod::lemma_div_by_multiple(d, d);
    }
}

/// Adding `g` and then subtracting it again gives back `f`.
pub proof fn lemma_polynom4d_add_sub_cancel<const DEGREE: usize>(
    f: Polynom4d<DEGREE>,
    g: Polynom4d<DEGREE>,
    sum: Polynom4d<DEGREE>,
    back: Polynom4d<DEGREE>,
)
    requires
        forall|i: int, j: int, k: int, l: int|
            in_grid4(i, j, k, l, DEGREE as int) ==> #[trigger] grid4_coefficient(
                sum.coefficients,
                i,
                j,
                k,
                l,
            ) == grid4_coefficient(f.coefficients, i, j, k, l) + grid4_coefficient(
                g.coefficients,
                i,
                j,
                k,
                l,
            ),
        forall|i: int, j: int, k: int, l: int|
            in_grid4(i, j, k, l, DEGREE as int) ==> #[trigger] grid4_coefficient(
                back.coefficients,
                i,
                j,
                k,
                l,
            ) == grid4_coefficient(sum.coefficients, i, j, k, l) - grid4_coefficient(
                g.coefficients,
                i,
                j,
                k,
                l,
            ),
    ensures
        forall|i: int, j: int, k: int, l: int|
            in_grid4(i, j, k, l, DEGREE as int) ==> #[trigger] grid4_coefficient(
                back.coefficients,
                i,
                j,
                k,
                l,
            ) == grid4_coefficient(f.coefficients, i, j, k, l),
{
}

impl<const DEGREE: usize> Polynom2d<DEGREE> {
    /// The polynomial written out term by term, row by row, for example
    /// `380+47y+3x+1xy`.
    pub fn to_string(&self) -> (s: String)
        requires
            forall|k: int|
                0 <= k < self.terms_view().len() ==> term_text_defined(
                    #[trigger] self.terms_view()[k],
                ),
        ensures
            s@ == grid_text(self.terms_view()),
    {
        let ghost v = self.terms_view();
        let mut out: Vec<char> = Vec::new();
        let mut i: usize = 0;
        while i < DEGREE
            invariant
                i <= DEGREE,
                v == self.terms_view(),
                forall|m: int| 0 <= m < v.len() ==> term_text_defined(#[trigger] v[m]),
                out@ == grid_text(grid2_rows(self.coefficients, i as int)),
            decreases DEGREE - i,
        {
            let ghost before = grid2_rows(self.coefficients, i as int);
            let ghost row = grid2_row(self.coefficients, i as int);
            let mut j: usize = 0;
            assert(before + row.take(0) =~= before);
            while j < DEGREE
                invariant
                    i < DEGREE,
                    j <= DEGREE,
                    v == self.terms_view(),
                    forall|m: int| 0 <= m < v.len() ==> term_text_defined(#[trigger] v[m]),
                    before == grid2_rows(self.coefficients, i as int),
                    row == grid2_row(self.coefficients, i as int),
                    out@ == grid_text(before + row.take(j as int)),
                decreases DEGREE - j,
            {
                let ghost t = row[j as int];
                let c = self.coefficients[i][j];
                let e = [i, j];
                proof {
                    lemma_grid2_term(self.coefficients, i as int, j as int);
                    assert(v[i * DEGREE + j] == t);
                    assert(exps_of(e@) =~= seq![i as int, j as int]);
                    assert(t == (c as int, exps_of(e@)));
                }
                push_term(&mut out, c, &e);
                proof {
                    assert(before + row.take(j + 1) =~= (before + row.take(j as int)).push(t));
                    lemma_grid_text_push(before + row.take(j as int), t);
                }
                j = j + 1;
            }
            assert(row.take(DEGREE as int) =~= row);
            i = i + 1;
        }
        chars_to_string(&out)
    }
}

impl<const DEGREE: usize> Polynom4d<DEGREE> {
    /// The polynomial written out term by term, in lexicographic order of
    /// exponents, for example `1+2w+1z+2zw`.
    pub fn to_string(&self) -> (s: String)
        requires
            forall|k: int|
                0 <= k < self.terms_view().len() ==> term_text_defined(
                    #[trigger] self.terms_view()[k],
                ),
        ensures
            s@ == grid_text(self.terms_view()),
    {
        let ghost d = DEGREE as int;
        let ghost v = self.terms_view();
        let mut out: Vec<char> = Vec::new();
        proof {
            lemma_flat4_steps(0, 0, 0, d);
            assert(v.take(0) =~= Seq::<TermView>::empty());
        }
        let mut i: usize = 0;
        while i < DEGREE
            invariant
                d == DEGREE,
                i <= DEGREE,
                v == self.terms_view(),
                forall|m: int| 0 <= m < v.len() ==> term_text_defined(#[trigger] v[m]),
                out@ == grid_text(v.take(flat4(i as int, 0, 0, 0, d))),
            decreases DEGREE - i,
        {
            let mut j: usize = 0;
            while j < DEGREE
                invariant
                    d == DEGREE,
                    i < DEGREE,
                    j <= DEGREE,
                    v == self.terms_view(),
                    forall|m: int| 0 <= m < v.len() ==> term_text_defined(#[trigger] v[m]),
                    out@ == grid_text(v.take(flat4(i as int, j as int, 0, 0, d))),
                decreases DEGREE - j,
            {
                let mut k: usize = 0;
                while k < DEGREE
                    invariant
                        d == DEGREE,
                        i < DEGREE,
                        j < DEGREE,
                        k <= DEGREE,
                        v == self.terms_view(),
                        forall|m: int| 0 <= m < v.len() ==> term_text_defined(#[trigger] v[m]),
                        out@ == grid_text(v.take(flat4(i as int, j as int, k as int, 0, d))),
                    decreases DEGREE - k,
                {
                    let mut l: usize = 0;
                    while l < DEGREE
                        invariant
                            d == DEGREE,
                            i < DEGREE,
                            j < DEGREE,
                            k < DEGREE,
                            l <= DEGREE,
                            v == self.terms_view(),
                            forall|m: int|
                                0 <= m < v.len() ==> term_text_defined(#[trigger] v[m]),
                            out@ == grid_text(
                                v.take(flat4(i as int, j as int, k as int, l as int, d)),
                            ),
                        decreases DEGREE - l,
                    {
                        let ghost m = flat4(i as int, j as int, k as int, l as int, d);
                        let ghost t = v[m];
                        let c = self.coefficients[i][j][k][l];
                        let e = [i, j, k, l];
                        proof {
                            lemma_digits4(i as int, j as int, k as int, l as int, d);
                            assert(exps_of(e@) =~= seq![i as int, j as int, k as int, l as int]);
                            assert(t == (c as int, exps_of(e@)));
                            assert(term_text_defined(v[m]));
                        }
                        push_term(&mut out, c, &e);
                        proof {
                            assert(v.take(m + 1) =~= v.take(m).push(t));
                            lemma_grid_text_push(v.take(m), t);
                        }
                        l = l + 1;
                    }
                    proof {
                        lemma_flat4_steps(i as int, j as int, k as int, d);
                    }
                    k = k + 1;
                }
                proof {
                    lemma_flat4_steps(i as int, j as int, 0, d);
                }
                j = j + 1;
            }
            proof {
                lemma_flat4_steps(i as int, 0, 0, d);
            }
            i = i + 1;
        }
        proof {
            lemma_flat4_steps(0, 0, 0, d);
            assert(v.take(d * d * d * d) =~= v);
        }
        chars_to_string(&out)
    }
}

/// The sum over the samples `(x, y, d)` of `d * x^i * y^j`.
pub open spec fn weighted_moment2(points: Seq<(i64, i64, i64)>, i: int, j: int) -> int
    decreases points.len(),
{
    if points.len() == 0 {
        0
    } else {
        let p = points.last();
        weighted_moment2(points.drop_last(), i, j) + p.2 * ipow(p.0 as int, i) * ipow(p.1 as int, j)
    }
}

/// The sum over the samples `(x, y, d)` of `x^(2i) * y^(2j)`.
pub open spec fn moment2(points: Seq<(i64, i64, i64)>, i: int, j: int) -> int
    decreases points.len(),
{
    if points.len() == 0 {
        0
    } else {
        let p = points.last();
        moment2(points.drop_last(), i, j) + ipow(p.0 as int, 2 * i) * ipow(p.1 as int, 2 * j)
    }
}

proof fn lemma_moments2(points: Seq<(i64, i64, i64)>, i: int, j: int)
    ensures
        seq_sum(fit2_numerators(points, i, j)) == weighted_moment2(points, i, j),
        seq_sum(fit2_denominators(points, i, j)) == moment2(points, i, j),
    decreases points.len(),
{
    if points.len() > 0 {
        let pl = points.drop_last();
        lemma_moments2(pl, i, j);
        let p = points.last();
        let num = fit2_numerators(points, i, j);
        let den = fit2_denominators(points, i, j);
        assert(num =~= fit2_numerators(pl, i, j).push(num.last()));
        assert(den =~= fit2_denominators(pl, i, j).push(den.last()));
        lemma_seq_sum_push(fit2_numerators(pl, i, j), num.last());
        lemma_seq_sum_push(fit2_denominators(pl, i, j), den.last());
        let e = seq![i, j];
        let q = seq![p.0, p.1];
        assert(e[0] == i && e[1] == j && q[0] == p.0 && q[1] == p.1);
        assert(power_prefix(p.2 as int, e, q, 0) == p.2);
        assert(power_prefix(p.2 as int, e, q, 1) == p.2 * ipow(p.0 as int, i));
        assert(num.last() == power_prefix(p.2 as int, e, q, 1) * ipow(p.1 as int, j));
        let e2 = seq![2 * i, 2 * j];
        assert(e2[0] == 2 * i && e2[1] == 2 * j);
        assert(power_prefix(1, e2, q, 0) == 1);
        assert(power_prefix(1, e2, q, 1) == power_prefix(1, e2, q, 0) * ipow(q[0] as int, e2[0]));
        assert(power_prefix(1, e2, q, 1) == ipow(p.0 as int, 2 * i));
        assert(den.last() == power_prefix(1, e2, q, 1) * ipow(p.1 as int, 2 * j));
    }
}

/// Each fitted coefficient of `x^i * y^j` is the sum over the samples
/// `(x, y, d)` of `d * x^i * y^j`, divided, rounding toward zero, by the
/// sum of `x^(2i) * y^(2j)`.
pub proof fn lemma_fit2_coefficient_moments(points: Seq<(i64, i64, i64)>, i: int, j: int)
    ensures
        fit2_coefficient(points, i, j) == trunc_div(
            weighted_moment2(points, i, j),
            moment2(points, i, j),
        ),
{
    lemma_moments2(points, i, j);
}

/// The sum over the samples `(x, y, z, w, d)` of
/// `d * x^i * y^j * z^k * w^l`.
pub open spec fn weighted_moment4(
    points: Seq<(i64, i64, i64, i64, i64)>,
    i: int,
    j: int,
    k: int,
    l: int,
) -> int
    decreases points.len(),
{
    if points.len() == 0 {
        0
    } else {
        let p = points.last();
        weighted_moment4(points.drop_last(), i, j, k, l) + p.4 * ipow(p.0 as int, i) * ipow(
            p.1 as int,
            j,
        ) * ipow(p.2 as int, k) * ipow(p.3 as int, l)
    }
}

/// The sum over the samples of `x^(2i) * y^(2j) * z^(2k) * w^(2l)`.
pub open spec fn moment4(points: Seq<(i64, i64, i64, i64, i64)>, i: int, j: int, k: int, l: int) -> int
    decreases points.len(),
{
    if points.len() == 0 {
        0
    } else {
        let p = points.last();
        moment4(points.drop_last(), i, j, k, l) + ipow(p.0 as int, 2 * i) * ipow(p.1 as int, 2 * j)
            * ipow(p.2 as int, 2 * k) * ipow(p.3 as int, 2 * l)
    }
}

proof fn lemma_moments4(points: Seq<(i64, i64, i64, i64, i64)>, i: int, j: int, k: int, l: int)
    ensures
        seq_sum(fit4_numerators(points, i, j, k, l)) == weighted_moment4(points, i, j, k, l),
        seq_sum(fit4_denominators(points, i, j, k, l)) == moment4(points, i, j, k, l),
    decreases points.len(),
{
    if points.len() > 0 {
        let pl = points.drop_last();
        lemma_moments4(pl, i, j, k, l);
        let p = points.last();
        let num = fit4_numerators(points, i, j, k, l);
        let den = fit4_denominators(points, i, j, k, l);
        assert(num =~= fit4_numerators(pl, i, j, k, l).push(num.last()));
        assert(den =~= fit4_denominators(pl, i, j, k, l).push(den.last()));
        lemma_seq_sum_push(fit4_numerators(pl, i, j, k, l), num.last());
        lemma_seq_sum_push(fit4_denominators(pl, i, j, k, l), den.last());
        let e = seq![i, j, k, l];
        let q = sample_point4(p);
        assert(e[0] == i && e[1] == j && e[2] == k && e[3] == l);
        assert(q[0] == p.0 && q[1] == p.1 && q[2] == p.2 && q[3] == p.3);
        assert(power_prefix(p.4 as int, e, q, 0) == p.4);
        assert(power_prefix(p.4 as int, e, q, 1) == p.4 * ipow(p.0 as int, i));
        assert(power_prefix(p.4 as int, e, q, 2) == power_prefix(p.4 as int, e, q, 1) * ipow(
            p.1 as int,
            j,
        ));
        assert(power_prefix(p.4 as int, e, q, 3) == power_prefix(p.4 as int, e, q, 2) * ipow(
            p.2 as int,
            k,
        ));
        assert(num.last() == power_prefix(p.4 as int, e, q, 3) * ipow(p.3 as int, l));
        let e2 = seq![2 * i, 2 * j, 2 * k, 2 * l];
        assert(e2[0] == 2 * i && e2[1] == 2 * j && e2[2] == 2 * k && e2[3] == 2 * l);
        assert(power_prefix(1, e2, q, 0) == 1);
        assert(power_prefix(1, e2, q, 1) == power_prefix(1, e2, q, 0) * ipow(q[0] as int, e2[0]));
        assert(power_prefix(1, e2, q, 1) == ipow(p.0 as int, 2 * i));
        assert(power_prefix(1, e2, q, 2) == power_prefix(1, e2, q, 1) * ipow(p.1 as int, 2 * j));
        assert(power_prefix(1, e2, q, 3) == power_prefix(1, e2, q, 2) * ipow(p.2 as int, 2 * k));
        assert(den.last() == power_prefix(1, e2, q, 3) * ipow(p.3 as int, 2 * l));
    }
}

/// Each fitted coefficient of `x^i * y^j * z^k * w^l` is the sum over the
/// samples of `d * x^i * y^j * z^k * w^l`, divided, rounding toward zero,
/// by the sum of `x^(2i) * y^(2j) * z^(2k) * w^(2l)`.
pub proof fn lemma_fit4_coefficient_moments(
    points: Seq<(i64, i64, i64, i64, i64)>,
    i: int,
    j: int,
    k: int,
    l: int,
)
    ensures
        fit4_coefficient(points, i, j, k, l) == trunc_div(
            weighted_moment4(points, i, j, k, l),
            moment4(points, i, j, k, l),
        ),
{
    lemma_moments4(points, i, j, k, l);
}

/// A polynomial with two exponents per variable is written as its
/// constant coefficient, then the signed coefficients of `y`, `x` and
/// `xy`, each followed by its variables.
pub proof fn lemma_dense2_text(f: Polynom2d<2>)
    ensures
        grid_text(f.terms_view()) == int_text(f.coefficients@[0]@[0] as int) + signed_text(
            f.coefficients@[0]@[1] as int,
        ) + seq!['y'] + signed_text(f.coefficients@[1]@[0] as int) + seq!['x'] + signed_text(
            f.coefficients@[1]@[1] as int,
        ) + seq!['x', 'y'],
{
    let c = f.coefficients;
    let r0 = grid2_row(c, 0);
    let r1 = grid2_row(c, 1);
    let e = Seq::<TermView>::empty();
    assert(grid2_rows(c, 0) =~= e);
    assert(grid2_rows(c, 1) == grid2_rows(c, 0) + r0);
    assert(grid2_rows(c, 2) == grid2_rows(c, 1) + r1);
    let t0 = r0[0];
    let t1 = r0[1];
    let t2 = r1[0];
    let t3 = r1[1];
    assert(f.terms_view() =~= e.push(t0).push(t1).push(t2).push(t3));
    lemma_grid_text_push(e, t0);
    lemma_grid_text_push(e.push(t0), t1);
    lemma_grid_text_push(e.push(t0).push(t1), t2);
    lemma_grid_text_push(e.push(t0).push(t1).push(t2), t3);
    assert(grid_text(e) == Seq::<char>::empty());
    assert(t0 == (c@[0]@[0] as int, seq![0int, 0int]));
    assert(t1 == (c@[0]@[1] as int, seq![0int, 1int]));
    assert(t2 == (c@[1]@[0] as int, seq![1int, 0int]));
    assert(t3 == (c@[1]@[1] as int, seq![1int, 1int]));
    assert(all_zero(t0.1));
    assert(!all_zero(t1.1) && t1.1[1] != 0);
    assert(!all_zero(t2.1) && t2.1[0] != 0);
    assert(!all_zero(t3.1) && t3.1[0] != 0);
    lemma_powers_text_xy(0, 0);
    lemma_powers_text_xy(0, 1);
    lemma_powers_text_xy(1, 0);
    lemma_powers_text_xy(1, 1);
    assert(power_text('x', 0) =~= Seq::<char>::empty());
    assert(power_text('y', 0) =~= Seq::<char>::empty());
    assert(power_text('x', 1) =~= seq!['x']);
    assert(power_text('y', 1) =~= seq!['y']);
    assert(grid_text(f.terms_view()) =~= int_text(f.coefficients@[0]@[0] as int) + signed_text(
        f.coefficients@[0]@[1] as int,
    ) + seq!['y'] + signed_text(f.coefficients@[1]@[0] as int) + seq!['x'] + signed_text(
        f.coefficients@[1]@[1] as int,
    ) + seq!['x', 'y']);
}

} // verus!
