//! Dense polynomials in two and four variables whose coefficients are
//! stored in the order of the exponent tuples of total degree below
//! `DEGREE`.

use vstd::prelude::*;
use crate::multi_index::{
    terms2, terms2_upto, row2, terms4, block1, block2, block3, row4, tri, tet, pen,
    lemma_terms2_len, lemma_terms4_len, lemma_block1_len, lemma_block2_len, lemma_block3_len,
    lemma_count4_bound,
};
use crate::power::{fits_i64, ipow, PowUsize};
use crate::terms2_order::lemma_terms2_shape;
use crate::multi_index::{position4, in_loops4, lemma_position4};
use crate::text::{
    term_text_defined, grid_text, lemma_grid_text_push, exps_of, push_term, chars_to_string,
};
use crate::sparse_polynom::{
    Monomial, TermView, power_prefix, power_prefix_fits, term_value, sum_value,
    views_eval_defined, lemma_sum_value_push, lemma_term_value_linear,
};

verus! {

/// A polynomial in `x` and `y`; `coefficients[k]` belongs to the k-th pair
/// of exponents of `terms2(DEGREE)`.
#[derive(Debug, Clone)]
pub struct Polynom2d<const DEGREE: usize> {
    pub coefficients: Vec<i64>,
}

/// The terms of a two-variable polynomial: each coefficient with its pair
/// of exponents, as far as both lists go.
pub open spec fn poly2_terms(coefficients: Seq<i64>, d: int) -> Seq<TermView> {
    let t = terms2(d);
    let n = if t.len() < coefficients.len() {
        t.len()
    } else {
        coefficients.len()
    };
    Seq::new(n, |k: int| (coefficients[k] as int, seq![t[k].0 as int, t[k].1 as int]))
}

impl<const DEGREE: usize> Polynom2d<DEGREE> {
    /// The exponent pairs `(i, j)` with `i + j < DEGREE`, in lexicographic
    /// order.
    pub fn get_terms() -> (r: Vec<(usize, usize)>)
        ensures
            r@ == terms2(DEGREE as int),
    {
        let mut terms: Vec<(usize, usize)> = Vec::new();
        let mut i: usize = 0;
        while i < DEGREE
            invariant
                i <= DEGREE,
                terms@ == terms2_upto(DEGREE as int, i as int),
            decreases DEGREE - i,
        {
            let mut j: usize = 0;
            let ghost before = terms@;
            while j < DEGREE - i
                invariant
                    i < DEGREE,
                    j <= DEGREE - i,
                    before == terms2_upto(DEGREE as int, i as int),
                    terms@ == before + row2(DEGREE as int, i as int).take(j as int),
                decreases DEGREE - i - j,
            {
                terms.push((i, j));
                assert(row2(DEGREE as int, i as int).take(j + 1) =~= row2(
                    DEGREE as int,
                    i as int,
                ).take(j as int).push((i, j)));
                j = j + 1;
            }
            assert(row2(DEGREE as int, i as int).take(j as int) =~= row2(DEGREE as int, i as int));
            i = i + 1;
        }
        terms
    }

    /// The number of exponent pairs, `DEGREE * (DEGREE + 1) / 2`.
    pub fn get_num_terms() -> (r: usize)
        requires
            tri(DEGREE as int) <= usize::MAX,
        ensures
            r == terms2(DEGREE as int).len(),
            r == tri(DEGREE as int),
    {
        proof {
            lemma_terms2_len(DEGREE as int);
        }
        let mut terms: usize = 0;
        let mut i: usize = 0;
        while i < DEGREE
            invariant
                i <= DEGREE,
                tri(DEGREE as int) <= usize::MAX,
                terms == tri(DEGREE as int) - tri(DEGREE - i),
            decreases DEGREE - i,
        {
            let mut j: usize = 0;
            proof {
                lemma_tri_step(DEGREE - i);
                lemma_tri_monotone(DEGREE - i, DEGREE as int);
                crate::multi_index::lemma_tri_closed(DEGREE - i - 1);
            }
            while j < DEGREE - i
                invariant
                    i < DEGREE,
                    j <= DEGREE - i,
                    tri(DEGREE as int) <= usize::MAX,
                    tri(DEGREE - i) == tri(DEGREE - i - 1) + (DEGREE - i),
                    tri(DEGREE - i) <= tri(DEGREE as int),
                    tri(DEGREE - i - 1) >= 0,
                    terms == tri(DEGREE as int) - tri(DEGREE - i) + j,
                decreases DEGREE - i - j,
            {
                terms = terms + 1;
                j = j + 1;
            }
            i = i + 1;
        }
        terms
    }
}

impl<const DEGREE: usize> Polynom2d<DEGREE> {
    /// The coefficients with their exponent pairs.
    pub open spec fn terms_view(self) -> Seq<TermView> {
        poly2_terms(self.coefficients@, DEGREE as int)
    }

    /// The value of the polynomial at `(x, y)`.
    pub open spec fn value(self, x: i64, y: i64) -> int {
        sum_value(self.terms_view(), seq![x, y])
    }

    /// Evaluating at `(x, y)` stays within `i64`.
    pub open spec fn eval_defined(self, x: i64, y: i64) -> bool {
        views_eval_defined(self.terms_view(), seq![x, y])
    }

    /// Evaluate polynomial at a point
    pub fn eval(&self, x: i64, y: i64) -> (r: i64)
        requires
            self.eval_defined(x, y),
        ensures
            r == self.value(x, y),
    {
        let terms = Self::get_terms();
        let n = if terms.len() < self.coefficients.len() {
            terms.len()
        } else {
            self.coefficients.len()
        };
        let ghost v = self.terms_view();
        let ghost p = seq![x, y];
        let mut sum: i64 = 0;
        let mut k: usize = 0;
        while k < n
            invariant
                k <= n,
                n == v.len(),
                n <= terms.len(),
                n <= self.coefficients.len(),
                terms@ == terms2(DEGREE as int),
                v == self.terms_view(),
                p == seq![x, y],
                self.eval_defined(x, y),
                sum == sum_value(v.take(k as int), p),
            decreases n - k,
        {
            let (i, j) = terms[k];
            let c = self.coefficients[k];
            let ghost t = v[k as int];
            proof {
                assert(t == (c as int, seq![i as int, j as int]));
                assert(power_prefix_fits(t.0, t.1, p, 2));
                assert(fits_i64(ipow(p[0] as int, t.1[0])));
                assert(fits_i64(ipow(p[1] as int, t.1[1])));
                assert(fits_i64(power_prefix(t.0, t.1, p, 1)));
                assert(fits_i64(power_prefix(t.0, t.1, p, 2)));
                assert(power_prefix(t.0, t.1, p, 0) == c);
            }
            let term = c * x.upow(i) * y.upow(j);
            proof {
                assert(term == term_value(t, p));
                assert(v.take(k + 1) =~= v.take(k as int).push(t));
                lemma_sum_value_push(v.take(k as int), t, p);
                assert(fits_i64(sum_value(v.take(k + 1), p)));
            }
            sum = sum + term;
            k = k + 1;
        }
        assert(v.take(n as int) =~= v);
        sum
    }

    /// The polynomial evaluated at every point of the grid: row `j`,
    /// column `i` holds the value at `(x[i], y[j])`.
    pub fn eval_grid(&self, x: &[i64], y: &[i64]) -> (r: Vec<Vec<i64>>)
        requires
            forall|i: int, j: int|
                0 <= i < x@.len() && 0 <= j < y@.len() ==> self.eval_defined(
                    #[trigger] x@[i],
                    #[trigger] y@[j],
                ),
        ensures
            r@.len() == y@.len(),
            forall|j: int| 0 <= j < y@.len() ==> (#[trigger] r@[j])@.len() == x@.len(),
            forall|i: int, j: int|
                0 <= i < x@.len() && 0 <= j < y@.len() ==> #[trigger] r@[j]@[i] == self.value(
                    x@[i],
                    y@[j],
                ),
    {
        let mut result: Vec<Vec<i64>> = Vec::new();
        let mut j: usize = 0;
        while j < y.len()
            invariant
                j <= y@.len(),
                result@.len() == j,
                forall|i: int, jj: int|
                    0 <= i < x@.len() && 0 <= jj < y@.len() ==> self.eval_defined(
                        #[trigger] x@[i],
                        #[trigger] y@[jj],
                    ),
                forall|jj: int| 0 <= jj < j ==> (#[trigger] result@[jj])@.len() == x@.len(),
                forall|i: int, jj: int|
                    0 <= i < x@.len() && 0 <= jj < j ==> #[trigger] result@[jj]@[i]
                        == self.value(x@[i], y@[jj]),
            decreases y@.len() - j,
        {
            let mut row: Vec<i64> = Vec::new();
            let mut i: usize = 0;
            while i < x.len()
                invariant
                    i <= x@.len(),
                    j < y@.len(),
                    row@.len() == i,
                    forall|ii: int, jj: int|
                        0 <= ii < x@.len() && 0 <= jj < y@.len() ==> self.eval_defined(
                            #[trigger] x@[ii],
                            #[trigger] y@[jj],
                        ),
                    forall|ii: int| 0 <= ii < i ==> row@[ii] == self.value(x@[ii], y@[j as int]),
                decreases x@.len() - i,
            {
                assert(self.eval_defined(x@[i as int], y@[j as int]));
                let value = self.eval(x[i], y[j]);
                row.push(value);
                i = i + 1;
            }
            result.push(row);
            j = j + 1;
        }
        result
    }

    /// The monomial `coefficient * x^i * y^j`.
    pub fn get_monomial(&self, i: usize, j: usize, coefficient: i64) -> (r: Monomial<2>)
        ensures
            r.coefficient == coefficient,
            r.exponents@ == seq![i, j],
    {
        let r = Monomial { coefficient, exponents: [i, j] };
        assert(r.exponents@ =~= seq![i, j]);
        r
    }
}

/// `a[k] + b[k]` (or, with `subtract`, `a[k] - b[k]`) as far as both go.
pub open spec fn combined_coefficients(a: Seq<i64>, b: Seq<i64>, subtract: bool) -> Seq<int> {
    let n = if a.len() < b.len() {
        a.len()
    } else {
        b.len()
    };
    Seq::new(
        n,
        |k: int|
            if subtract {
                a[k] - b[k]
            } else {
                a[k] + b[k]
            },
    )
}

/// Every combined coefficient fits in `i64`.
pub open spec fn combine_fits(a: Seq<i64>, b: Seq<i64>, subtract: bool) -> bool {
    forall|k: int|
        0 <= k < combined_coefficients(a, b, subtract).len() ==> fits_i64(
            #[trigger] combined_coefficients(a, b, subtract)[k],
        )
}

fn combine_coefficients(a: &Vec<i64>, b: &Vec<i64>, subtract: bool) -> (r: Vec<i64>)
    requires
        combine_fits(a@, b@, subtract),
    ensures
        r@.len() == combined_coefficients(a@, b@, subtract).len(),
        forall|k: int| 0 <= k < r@.len() ==> r@[k] == combined_coefficients(a@, b@, subtract)[k],
{
    let n = if a.len() < b.len() {
        a.len()
    } else {
        b.len()
    };
    let mut r: Vec<i64> = Vec::new();
    let mut k: usize = 0;
    while k < n
        invariant
            k <= n,
            n == combined_coefficients(a@, b@, subtract).len(),
            n <= a@.len(),
            n <= b@.len(),
            combine_fits(a@, b@, subtract),
            r@.len() == k,
            forall|m: int| 0 <= m < k ==> r@[m] == combined_coefficients(a@, b@, subtract)[m],
        decreases n - k,
    {
        assert(fits_i64(combined_coefficients(a@, b@, subtract)[k as int]));
        let c = if subtract {
            a[k] - b[k]
        } else {
            a[k] + b[k]
        };
        r.push(c);
        k = k + 1;
    }
    r
}

fn coefficients_equal(a: &Vec<i64>, b: &Vec<i64>) -> (r: bool)
    ensures
        r == forall|k: int| 0 <= k < a@.len() && k < b@.len() ==> a@[k] == b@[k],
{
    let n = if a.len() < b.len() {
        a.len()
    } else {
        b.len()
    };
    let mut k: usize = 0;
    while k < n
        invariant
            k <= n,
            n <= a@.len(),
            n <= b@.len(),
            n == a@.len() || n == b@.len(),
            forall|m: int| 0 <= m < k ==> a@[m] == b@[m],
        decreases n - k,
    {
        if a[k] != b[k] {
            return false;
        }
        k = k + 1;
    }
    true
}

/// Two term lists with the same exponents whose coefficients are the sums
/// (or differences) of the coefficients of two others have the sum (or
/// difference) of their values.
pub proof fn lemma_views_combine(
    r: Seq<TermView>,
    p: Seq<TermView>,
    q: Seq<TermView>,
    subtract: bool,
    point: Seq<i64>,
)
    requires
        r.len() == p.len(),
        r.len() == q.len(),
        forall|k: int|
            0 <= k < r.len() ==> (#[trigger] r[k]).1 == p[k].1 && r[k].1 == q[k].1 && r[k].0 == (
            if subtract {
                p[k].0 - q[k].0
            } else {
                p[k].0 + q[k].0
            }),
    ensures
        sum_value(r, point) == sum_value(p, point) + (if subtract {
            -sum_value(q, point)
        } else {
            sum_value(q, point)
        }),
    decreases r.len(),
{
    if r.len() > 0 {
        assert forall|k: int| 0 <= k < r.drop_first().len() implies (#[trigger] r.drop_first()[
            k
        ]).1 == p.drop_first()[k].1 && r.drop_first()[k].1 == q.drop_first()[k].1
            && r.drop_first()[k].0 == (if subtract {
            p.drop_first()[k].0 - q.drop_first()[k].0
        } else {
            p.drop_first()[k].0 + q.drop_first()[k].0
        }) by {
            assert(r.drop_first()[k] == r[k + 1]);
        }
        lemma_views_combine(r.drop_first(), p.drop_first(), q.drop_first(), subtract, point);
        assert(r[0].1 == p[0].1 && r[0].1 == q[0].1);
        lemma_term_value_linear(r[0], point);
        lemma_term_value_linear(p[0], point);
        lemma_term_value_linear(q[0], point);
        let e = term_value((1, r[0].1), point);
        let a = p[0].0;
        let b = q[0].0;
        assert((a + b) * e == a * e + b * e) by (nonlinear_arith);
        assert((a - b) * e == a * e - b * e) by (nonlinear_arith);
    }
}

impl<const DEGREE: usize> Polynom2d<DEGREE> {
    /// The coefficient-wise sum.
    pub fn add(&self, rhs: &Polynom2d<DEGREE>) -> (r: Polynom2d<DEGREE>)
        requires
            combine_fits(self.coefficients@, rhs.coefficients@, false),
        ensures
            r.coefficients@.len() == combined_coefficients(
                self.coefficients@,
                rhs.coefficients@,
                false,
            ).len(),
            forall|k: int|
                0 <= k < r.coefficients@.len() ==> r.coefficients@[k] == combined_coefficients(
                    self.coefficients@,
                    rhs.coefficients@,
                    false,
                )[k],
    {
        Polynom2d { coefficients: combine_coefficients(&self.coefficients, &rhs.coefficients, false) }
    }

    /// The coefficient-wise difference.
    pub fn sub(&self, rhs: &Polynom2d<DEGREE>) -> (r: Polynom2d<DEGREE>)
        requires
            combine_fits(self.coefficients@, rhs.coefficients@, true),
        ensures
            r.coefficients@.len() == combined_coefficients(
                self.coefficients@,
                rhs.coefficients@,
                true,
            ).len(),
            forall|k: int|
                0 <= k < r.coefficients@.len() ==> r.coefficients@[k] == combined_coefficients(
                    self.coefficients@,
                    rhs.coefficients@,
                    true,
                )[k],
    {
        Polynom2d { coefficients: combine_coefficients(&self.coefficients, &rhs.coefficients, true) }
    }

    /// Whether the coefficients agree as far as both go.
    pub fn eq(&self, other: &Polynom2d<DEGREE>) -> (r: bool)
        ensures
            r == forall|k: int|
                0 <= k < self.coefficients@.len() && k < other.coefficients@.len()
                    ==> self.coefficients@[k] == other.coefficients@[k],
    {
        coefficients_equal(&self.coefficients, &other.coefficients)
    }
}

/// The value of a coefficient-wise sum (or difference) of two polynomials
/// with the same number of coefficients is the sum (or difference) of
/// their values.
pub proof fn lemma_polynom2d_combine_value<const DEGREE: usize>(
    p: Polynom2d<DEGREE>,
    q: Polynom2d<DEGREE>,
    r: Polynom2d<DEGREE>,
    subtract: bool,
    x: i64,
    y: i64,
)
    requires
        p.coefficients@.len() == q.coefficients@.len(),
        r.coefficients@.len() == p.coefficients@.len(),
        forall|k: int|
            0 <= k < r.coefficients@.len() ==> r.coefficients@[k] == combined_coefficients(
                p.coefficients@,
                q.coefficients@,
                subtract,
            )[k],
    ensures
        r.value(x, y) == p.value(x, y) + (if subtract {
            -q.value(x, y)
        } else {
            q.value(x, y)
        }),
{
    lemma_views_combine(r.terms_view(), p.terms_view(), q.terms_view(), subtract, seq![x, y]);
}

/// Adding `g` and then subtracting it again gives back the coefficients
/// of `f`, when both have the same number of coefficients.
pub proof fn lemma_coefficients_add_sub_cancel(
    f: Seq<i64>,
    g: Seq<i64>,
    sum: Seq<i64>,
    back: Seq<i64>,
)
    requires
        f.len() == g.len(),
        sum.len() == combined_coefficients(f, g, false).len(),
        forall|k: int| 0 <= k < sum.len() ==> sum[k] == combined_coefficients(f, g, false)[k],
        back.len() == combined_coefficients(sum, g, true).len(),
        forall|k: int| 0 <= k < back.len() ==> back[k] == combined_coefficients(sum, g, true)[k],
    ensures
        back == f,
{
    assert(back =~= f);
}

/// A polynomial in `x`, `y`, `z` and `w`; `coefficients[k]` belongs to the
/// k-th quadruple of exponents of `terms4(DEGREE)`.
#[derive(Debug, Clone)]
pub struct Polynom4d<const DEGREE: usize> {
    pub coefficients: Vec<i64>,
}

/// The terms of a four-variable polynomial: each coefficient with its
/// exponents, as far as both lists go.
pub open spec fn poly4_terms(coefficients: Seq<i64>, d: int) -> Seq<TermView> {
    let t = terms4(d);
    let n = if t.len() < coefficients.len() {
        t.len()
    } else {
        coefficients.len()
    };
    Seq::new(
        n,
        |k: int|
            (coefficients[k] as int, seq![t[k].0 as int, t[k].1 as int, t[k].2 as int, t[k].3 as int]),
    )
}

impl<const DEGREE: usize> Polynom4d<DEGREE> {
    /// The exponent quadruples `(i, j, k, l)` with `i + j + k + l < DEGREE`,
    /// in lexicographic order.
    pub fn get_terms() -> (r: Vec<(usize, usize, usize, usize)>)
        ensures
            r@ == terms4(DEGREE as int),
    {
        let ghost d = DEGREE as int;
        let mut terms: Vec<(usize, usize, usize, usize)> = Vec::new();
        let mut i: usize = 0;
        while i < DEGREE
            invariant
                d == DEGREE,
                i <= DEGREE,
                terms@ == block1(d, i as int),
            decreases DEGREE - i,
        {
            let ghost b1 = terms@;
            let mut j: usize = 0;
            assert(b1 + block2(d, i as int, 0) =~= b1);
            while j < DEGREE - i
                invariant
                    d == DEGREE,
                    i < DEGREE,
                    j <= DEGREE - i,
                    b1 == block1(d, i as int),
                    terms@ == b1 + block2(d, i as int, j as int),
                decreases DEGREE - i - j,
            {
                let ghost b2 = terms@;
                let mut k: usize = 0;
                assert(b2 + block3(d, i as int, j as int, 0) =~= b2);
                while k < DEGREE - (i + j)
                    invariant
                        d == DEGREE,
                        i < DEGREE,
                        j < DEGREE - i,
                        k <= DEGREE - (i + j),
                        b1 == block1(d, i as int),
                        b2 == b1 + block2(d, i as int, j as int),
                        terms@ == b2 + block3(d, i as int, j as int, k as int),
                    decreases DEGREE - (i + j) - k,
                {
                    let ghost b3 = terms@;
                    let ghost row = row4(d, i as int, j as int, k as int);
                    let mut l: usize = 0;
                    assert(b3 + row.take(0) =~= b3);
                    while l < DEGREE - (i + j + k)
                        invariant
                            d == DEGREE,
                            i < DEGREE,
                            j < DEGREE - i,
                            k < DEGREE - (i + j),
                            l <= DEGREE - (i + j + k),
                            row == row4(d, i as int, j as int, k as int),
                            terms@ == b3 + row.take(l as int),
                        decreases DEGREE - (i + j + k) - l,
                    {
                        terms.push((i, j, k, l));
                        assert(b3 + row.take(l + 1) =~= (b3 + row.take(l as int)).push(
                            (i, j, k, l),
                        ));
                        l = l + 1;
                    }
                    assert(row.take(l as int) =~= row);
                    assert(b2 + block3(d, i as int, j as int, k + 1) =~= b3 + row);
                    k = k + 1;
                }
                assert(b1 + block2(d, i as int, j + 1) =~= b2 + block3(
                    d,
                    i as int,
                    j as int,
                    d - (i + j),
                ));
                j = j + 1;
            }
            assert(block1(d, i + 1) =~= b1 + block2(d, i as int, d - i));
            i = i + 1;
        }
        terms
    }

    /// The number of exponent quadruples,
    /// `DEGREE * (DEGREE + 1) * (DEGREE + 2) * (DEGREE + 3) / 24`.
    pub fn get_num_terms() -> (r: usize)
        requires
            pen(DEGREE as int) <= usize::MAX,
        ensures
            r == terms4(DEGREE as int).len(),
            r == pen(DEGREE as int),
    {
        let ghost d = DEGREE as int;
        proof {
            lemma_terms4_len(d);
        }
        let mut num_terms: usize = 0;
        let mut i: usize = 0;
        while i < DEGREE
            invariant
                d == DEGREE,
                i <= DEGREE,
                pen(d) <= usize::MAX,
                num_terms == pen(d) - pen(d - i),
            decreases DEGREE - i,
        {
            let mut j: usize = 0;
            proof {
                lemma_block2_len(d, i as int, 0);
            }
            while j < DEGREE - i
                invariant
                    d == DEGREE,
                    i < DEGREE,
                    j <= DEGREE - i,
                    pen(d) <= usize::MAX,
                    num_terms == (pen(d) - pen(d - i)) + (tet(d - i) - tet(d - i - j)),
                decreases DEGREE - i - j,
            {
                let mut k: usize = 0;
                while k < DEGREE - (i + j)
                    invariant
                        d == DEGREE,
                        i < DEGREE,
                        j < DEGREE - i,
                        k <= DEGREE - (i + j),
                        pen(d) <= usize::MAX,
                        num_terms == (pen(d) - pen(d - i)) + (tet(d - i) - tet(d - i - j)) + (tri(
                            d - (i + j),
                        ) - tri(d - (i + j) - k)),
                    decreases DEGREE - (i + j) - k,
                {
                    let mut l: usize = 0;
                    while l < DEGREE - (i + j + k)
                        invariant
                            d == DEGREE,
                            i < DEGREE,
                            j < DEGREE - i,
                            k < DEGREE - (i + j),
                            l <= DEGREE - (i + j + k),
                            pen(d) <= usize::MAX,
                            num_terms == (pen(d) - pen(d - i)) + (tet(d - i) - tet(d - i - j)) + (
                            tri(d - (i + j)) - tri(d - (i + j) - k)) + l,
                        decreases DEGREE - (i + j + k) - l,
                    {
                        proof {
                            lemma_count4_bound(d, i as int, j as int, k as int, l as int);
                        }
                        num_terms = num_terms + 1;
                        l = l + 1;
                    }
                    assert(tri(d - (i + j) - k) == tri(d - (i + j) - (k + 1)) + (d - (i + j) - k));
                    k = k + 1;
                }
                assert(tri(d - (i + j) - (d - (i + j))) == 0);
                assert(tet(d - i - j) == tet(d - i - (j + 1)) + tri(d - i - j));
                j = j + 1;
            }
            assert(tet(d - i - (d - i)) == 0);
            assert(pen(d - i) == pen(d - (i + 1)) + tet(d - i));
            i = i + 1;
        }
        num_terms
    }

    /// The coefficients with their exponent quadruples.
    pub open spec fn terms_view(self) -> Seq<TermView> {
        poly4_terms(self.coefficients@, DEGREE as int)
    }

    /// The value of the polynomial at `(x, y, z, w)`.
    pub open spec fn value(self, x: i64, y: i64, z: i64, w: i64) -> int {
        sum_value(self.terms_view(), seq![x, y, z, w])
    }

    /// Evaluating at `(x, y, z, w)` stays within `i64`.
    pub open spec fn eval_defined(self, x: i64, y: i64, z: i64, w: i64) -> bool {
        views_eval_defined(self.terms_view(), seq![x, y, z, w])
    }

    /// Evaluate polynomial at a point
    pub fn eval(&self, x: i64, y: i64, z: i64, w: i64) -> (r: i64)
        requires
            self.eval_defined(x, y, z, w),
        ensures
            r == self.value(x, y, z, w),
    {
        let terms = Self::get_terms();
        let n = if terms.len() < self.coefficients.len() {
            terms.len()
        } else {
            self.coefficients.len()
        };
        let ghost v = self.terms_view();
        let ghost p = seq![x, y, z, w];
        let mut sum: i64 = 0;
        let mut m: usize = 0;
        while m < n
            invariant
                m <= n,
                n == v.len(),
                n <= terms.len(),
                n <= self.coefficients.len(),
                terms@ == terms4(DEGREE as int),
                v == self.terms_view(),
                p == seq![x, y, z, w],
                self.eval_defined(x, y, z, w),
                sum == sum_value(v.take(m as int), p),
            decreases n - m,
        {
            let (i, j, k, l) = terms[m];
            let coefficient = self.coefficients[m];
            let ghost t = v[m as int];
            proof {
                assert(t == (
                    coefficient as int,
                    seq![i as int, j as int, k as int, l as int],
                ));
                assert(power_prefix_fits(t.0, t.1, p, 4));
                assert(fits_i64(ipow(p[0] as int, t.1[0])));
                assert(fits_i64(ipow(p[1] as int, t.1[1])));
                assert(fits_i64(ipow(p[2] as int, t.1[2])));
                assert(fits_i64(ipow(p[3] as int, t.1[3])));
                assert(fits_i64(power_prefix(t.0, t.1, p, 1)));
                assert(fits_i64(power_prefix(t.0, t.1, p, 2)));
                assert(fits_i64(power_prefix(t.0, t.1, p, 3)));
                assert(fits_i64(power_prefix(t.0, t.1, p, 4)));
                assert(power_prefix(t.0, t.1, p, 0) == coefficient);
            }
            let term = coefficient * x.upow(i) * y.upow(j) * z.upow(k) * w.upow(l);
            proof {
                assert(term == term_value(t, p));
                assert(v.take(m + 1) =~= v.take(m as int).push(t));
                lemma_sum_value_push(v.take(m as int), t, p);
                assert(fits_i64(sum_value(v.take(m + 1), p)));
            }
            sum = sum + term;
            m = m + 1;
        }
        assert(v.take(n as int) =~= v);
        sum
    }

    /// The monomial `coefficient * x^i * y^j * z^k * w^l`.
    pub fn get_monomial(&self, i: usize, j: usize, k: usize, l: usize, coefficient: i64) -> (r:
        Monomial<4>)
        ensures
            r.coefficient == coefficient,
            r.exponents@ == seq![i, j, k, l],
    {
        let r = Monomial { coefficient, exponents: [i, j, k, l] };
        assert(r.exponents@ =~= seq![i, j, k, l]);
        r
    }

    /// The coefficient-wise sum.
    pub fn add(&self, rhs: &Polynom4d<DEGREE>) -> (r: Polynom4d<DEGREE>)
        requires
            combine_fits(self.coefficients@, rhs.coefficients@, false),
        ensures
            r.coefficients@.len() == combined_coefficients(
                self.coefficients@,
                rhs.coefficients@,
                false,
            ).len(),
            forall|k: int|
                0 <= k < r.coefficients@.len() ==> r.coefficients@[k] == combined_coefficients(
                    self.coefficients@,
                    rhs.coefficients@,
                    false,
                )[k],
    {
        Polynom4d { coefficients: combine_coefficients(&self.coefficients, &rhs.coefficients, false) }
    }

    /// The coefficient-wise difference.
    pub fn sub(&self, rhs: &Polynom4d<DEGREE>) -> (r: Polynom4d<DEGREE>)
        requires
            combine_fits(self.coefficients@, rhs.coefficients@, true),
        ensures
            r.coefficients@.len() == combined_coefficients(
                self.coefficients@,
                rhs.coefficients@,
                true,
            ).len(),
            forall|k: int|
                0 <= k < r.coefficients@.len() ==> r.coefficients@[k] == combined_coefficients(
                    self.coefficients@,
                    rhs.coefficients@,
                    true,
                )[k],
    {
        Polynom4d { coefficients: combine_coefficients(&self.coefficients, &rhs.coefficients, true) }
    }

    /// Whether the coefficients agree as far as both go.
    pub fn eq(&self, other: &Polynom4d<DEGREE>) -> (r: bool)
        ensures
            r == forall|k: int|
                0 <= k < self.coefficients@.len() && k < other.coefficients@.len()
                    ==> self.coefficients@[k] == other.coefficients@[k],
    {
        coefficients_equal(&self.coefficients, &other.coefficients)
    }
}

/// The value of a coefficient-wise sum (or difference) of two polynomials
/// with the same number of coefficients is the sum (or difference) of
/// their values.
pub proof fn lemma_polynom4d_combine_value<const DEGREE: usize>(
    p: Polynom4d<DEGREE>,
    q: Polynom4d<DEGREE>,
    r: Polynom4d<DEGREE>,
    subtract: bool,
    x: i64,
    y: i64,
    z: i64,
    w: i64,
)
    requires
        p.coefficients@.len() == q.coefficients@.len(),
        r.coefficients@.len() == p.coefficients@.len(),
        forall|k: int|
            0 <= k < r.coefficients@.len() ==> r.coefficients@[k] == combined_coefficients(
                p.coefficients@,
                q.coefficients@,
                subtract,
            )[k],
    ensures
        r.value(x, y, z, w) == p.value(x, y, z, w) + (if subtract {
            -q.value(x, y, z, w)
        } else {
            q.value(x, y, z, w)
        }),
{
    lemma_views_combine(
        r.terms_view(),
        p.terms_view(),
        q.terms_view(),
        subtract,
        seq![x, y, z, w],
    );
}

proof fn lemma_tri_step(t: int)
    requires
        t > 0,
    ensures
        tri(t) == tri(t - 1) + t,
{
}

proof fn lemma_tri_monotone(s: int, t: int)
    requires
        0 <= s <= t,
    ensures
        tri(s) <= tri(t),
    decreases t - s,
{
    if s < t {
        lemma_tri_monotone(s, t - 1);
    }
}

impl<const DEGREE: usize> Polynom2d<DEGREE> {
    /// The polynomial written out term by term, for example `5+2y+3x`.
    pub fn to_string(&self) -> (s: String)
        requires
            forall|k: int|
                0 <= k < self.terms_view().len() ==> term_text_defined(
                    #[trigger] self.terms_view()[k],
                ),
        ensures
            s@ == grid_text(self.terms_view()),
    {
        let terms = Self::get_terms();
        let n = if terms.len() < self.coefficients.len() {
            terms.len()
        } else {
            self.coefficients.len()
        };
        let ghost v = self.terms_view();
        let mut out: Vec<char> = Vec::new();
        let mut k: usize = 0;
        assert(v.take(0) =~= Seq::<TermView>::empty());
        while k < n
            invariant
                k <= n,
                n == v.len(),
                n <= terms.len(),
                n <= self.coefficients.len(),
                terms@ == terms2(DEGREE as int),
                v == self.terms_view(),
                forall|m: int| 0 <= m < v.len() ==> term_text_defined(#[trigger] v[m]),
                out@ == grid_text(v.take(k as int)),
            decreases n - k,
        {
            let (i, j) = terms[k];
            let c = self.coefficients[k];
            let e = [i, j];
            proof {
                assert(exps_of(e@) =~= seq![i as int, j as int]);
                assert(v[k as int] == (c as int, exps_of(e@)));
                assert(term_text_defined(v[k as int]));
            }
            push_term(&mut out, c, &e);
            proof {
                assert(v.take(k + 1) =~= v.take(k as int).push(v[k as int]));
                lemma_grid_text_push(v.take(k as int), v[k as int]);
            }
            k = k + 1;
        }
        assert(v.take(n as int) =~= v);
        chars_to_string(&out)
    }
}

impl<const DEGREE: usize> Polynom4d<DEGREE> {
    /// The polynomial written out term by term, for example `1+2w+3z`.
    pub fn to_string(&self) -> (s: String)
        requires
            forall|k: int|
                0 <= k < self.terms_view().len() ==> term_text_defined(
                    #[trigger] self.terms_view()[k],
                ),
        ensures
            s@ == grid_text(self.terms_view()),
    {
        let terms = Self::get_terms();
        let n = if terms.len() < self.coefficients.len() {
            terms.len()
        } else {
            self.coefficients.len()
        };
        let ghost v = self.terms_view();
        let mut out: Vec<char> = Vec::new();
        let mut k: usize = 0;
        assert(v.take(0) =~= Seq::<TermView>::empty());
        while k < n
            invariant
                k <= n,
                n == v.len(),
                n <= terms.len(),
                n <= self.coefficients.len(),
                terms@ == terms4(DEGREE as int),
                v == self.terms_view(),
                forall|m: int| 0 <= m < v.len() ==> term_text_defined(#[trigger] v[m]),
                out@ == grid_text(v.take(k as int)),
            decreases n - k,
        {
            let (i, j, kk, l) = terms[k];
            let c = self.coefficients[k];
            let e = [i, j, kk, l];
            proof {
                assert(exps_of(e@) =~= seq![i as int, j as int, kk as int, l as int]);
                assert(v[k as int] == (c as int, exps_of(e@)));
                assert(term_text_defined(v[k as int]));
            }
            push_term(&mut out, c, &e);
            proof {
                assert(v.take(k + 1) =~= v.take(k as int).push(v[k as int]));
                lemma_grid_text_push(v.take(k as int), v[k as int]);
            }
            k = k + 1;
        }
        assert(v.take(n as int) =~= v);
        chars_to_string(&out)
    }
}

/// In a two-variable polynomial of bounded total degree, the coefficient
/// at position `tri(DEGREE) - tri(DEGREE - i) + j` belongs to `x^i * y^j`.
pub proof fn lemma_poly2_coefficient_position(coefficients: Seq<i64>, d: int, i: int, j: int)
    requires
        0 <= d <= usize::MAX + 1,
        0 <= i,
        0 <= j,
        i + j < d,
        tri(d) - tri(d - i) + j < coefficients.len(),
    ensures
        ({
            let k = tri(d) - tri(d - i) + j;
            &&& 0 <= k < poly2_terms(coefficients, d).len()
            &&& poly2_terms(coefficients, d)[k] == (coefficients[k] as int, seq![i, j])
        }),
{
    lemma_terms2_shape(d);
    let k = tri(d) - tri(d - i) + j;
    let t = terms2(d);
    assert(t[k] == (i as usize, j as usize));
    assert(t.contains((i as usize, j as usize)));
    lemma_terms2_len(d);
    lemma_terms2_position_bound(d, i, j);
    assert(poly2_terms(coefficients, d)[k].1 =~= seq![i, j]);
}

proof fn lemma_terms2_position_bound(d: int, i: int, j: int)
    requires
        0 <= i,
        0 <= j,
        i + j < d,
    ensures
        0 <= tri(d) - tri(d - i) + j < tri(d),
{
    lemma_tri_mono(d - i, d);
    lemma_tri_mono(0, d - i - 1);
    assert(tri(d - i) == tri(d - i - 1) + (d - i));
    assert(tri(0) == 0);
}

proof fn lemma_tri_mono(a: int, b: int)
    requires
        0 <= a <= b,
    ensures
        tri(a) <= tri(b),
    decreases b - a,
{
    if a < b {
        lemma_tri_mono(a, b - 1);
    }
}

/// In a four-variable polynomial of bounded total degree, the coefficient
/// at the position where the nested loops visit `(i, j, k, l)` belongs to
/// `x^i * y^j * z^k * w^l`.
pub proof fn lemma_poly4_coefficient_position(
    coefficients: Seq<i64>,
    d: int,
    i: int,
    j: int,
    k: int,
    l: int,
)
    requires
        d <= usize::MAX + 1,
        in_loops4(d, i, j, k, l),
        position4(d, i, j, k, l) < coefficients.len(),
    ensures
        ({
            let m = position4(d, i, j, k, l);
            &&& 0 <= m < poly4_terms(coefficients, d).len()
            &&& poly4_terms(coefficients, d)[m] == (coefficients[m] as int, seq![i, j, k, l])
        }),
{
    lemma_position4(d, i, j, k, l);
    let m = position4(d, i, j, k, l);
    assert(poly4_terms(coefficients, d)[m].1 =~= seq![i, j, k, l]);
}

} // verus!
