//! Sparse polynomials: a polynomial is a list of monomials, each a
//! coefficient together with one exponent per variable.

use vstd::prelude::*;
use crate::power::{fits_i64, ipow, PowUsize};
use vstd::arithmetic::power::{pow, lemma_pow_adds};

verus! {

/// The mathematical view of a monomial: its coefficient and its exponents.
pub type TermView = (int, Seq<int>);

/// A term of a polynomial, for example `5*x^3*y^5`.
#[derive(Debug, Clone, Copy, PartialEq)]
pub struct Monomial<const VARIABLES: usize> {
    /// the multiplicative coefficient
    pub coefficient: i64,
    /// the exponents of the variables in order
    pub exponents: [usize; VARIABLES],
}

/// `c` multiplied by the first `k` factors `point[v]^exps[v]`, in the
/// order in which evaluation multiplies them.
pub open spec fn power_prefix(c: int, exps: Seq<int>, point: Seq<i64>, k: int) -> int
    decreases k,
{
    if k <= 0 {
        c
    } else {
        power_prefix(c, exps, point, k - 1) * ipow(point[k - 1] as int, exps[k - 1])
    }
}

/// Evaluation of the first `k` factors stays within `i64`.
pub open spec fn power_prefix_fits(c: int, exps: Seq<int>, point: Seq<i64>, k: int) -> bool {
    &&& forall|v: int| 0 <= v < k ==> fits_i64(#[trigger] ipow(point[v] as int, exps[v]))
    &&& forall|j: int| 0 <= j <= k ==> fits_i64(#[trigger] power_prefix(c, exps, point, j))
}

/// The value of a term at a point.
pub open spec fn term_value(t: TermView, point: Seq<i64>) -> int {
    power_prefix(t.0, t.1, point, t.1.len() as int)
}

pub open spec fn exponents_view<const VARIABLES: usize>(e: [usize; VARIABLES]) -> Seq<int> {
    e@.map_values(|x: usize| x as int)
}

impl<const VARIABLES: usize> View for Monomial<VARIABLES> {
    type V = TermView;

    open spec fn view(&self) -> TermView {
        (self.coefficient as int, exponents_view(self.exponents))
    }
}

impl<const VARIABLES: usize> Monomial<VARIABLES> {
    /// Evaluating `self` at `point` stays within `i64`.
    pub open spec fn eval_defined(self, point: Seq<i64>) -> bool {
        power_prefix_fits(self@.0, self@.1, point, VARIABLES as int)
    }

    /// Evaluate monomial at a point
    pub fn eval(&self, point: [i64; VARIABLES]) -> (r: i64)
        requires
            self.eval_defined(point@),
        ensures
            r == term_value(self@, point@),
    {
        let mut sum: i64 = self.coefficient;
        let mut v: usize = 0;
        while v < VARIABLES
            invariant
                v <= VARIABLES,
                self.eval_defined(point@),
                sum == power_prefix(self@.0, self@.1, point@, v as int),
            decreases VARIABLES - v,
        {
            assert(self@.1[v as int] == self.exponents@[v as int] as int);
            assert(fits_i64(ipow(point@[v as int] as int, self@.1[v as int])));
            let f = point[v].upow(self.exponents[v]);
            assert(fits_i64(power_prefix(self@.0, self@.1, point@, v + 1)));
            sum = sum * f;
            v = v + 1;
        }
        sum
    }

    /// Evaluating the exponents of `self` at `point` stays within `i64`.
    pub open spec fn res_defined(self, point: Seq<i64>) -> bool {
        power_prefix_fits(1, self@.1, point, VARIABLES as int)
    }

    /// The product `point[v]^exponents[v]` over all variables.
    pub fn res(&self, point: [i64; VARIABLES]) -> (r: i64)
        requires
            self.res_defined(point@),
        ensures
            r == term_value((1, self@.1), point@),
    {
        let mut sum: i64 = 1;
        let mut v: usize = 0;
        while v < VARIABLES
            invariant
                v <= VARIABLES,
                self.res_defined(point@),
                sum == power_prefix(1, self@.1, point@, v as int),
            decreases VARIABLES - v,
        {
            assert(self@.1[v as int] == self.exponents@[v as int] as int);
            assert(fits_i64(ipow(point@[v as int] as int, self@.1[v as int])));
            let f = point[v].upow(self.exponents[v]);
            assert(fits_i64(power_prefix(1, self@.1, point@, v + 1)));
            sum = sum * f;
            v = v + 1;
        }
        sum
    }

    /// Evaluate the exponents of the monomial at a point
    pub fn eval_exp(&self, point: [i64; VARIABLES]) -> (r: i64)
        requires
            self.res_defined(point@),
        ensures
            r == term_value((1, self@.1), point@),
    {
        let mut sum: i64 = 1;
        let mut v: usize = 0;
        while v < VARIABLES
            invariant
                v <= VARIABLES,
                self.res_defined(point@),
                sum == power_prefix(1, self@.1, point@, v as int),
            decreases VARIABLES - v,
        {
            assert(self@.1[v as int] == self.exponents@[v as int] as int);
            assert(fits_i64(ipow(point@[v as int] as int, self@.1[v as int])));
            let f = point[v].upow(self.exponents[v]);
            assert(fits_i64(power_prefix(1, self@.1, point@, v + 1)));
            sum = sum * f;
            v = v + 1;
        }
        sum
    }

    /// The exponents of `self` and `other` added variable by variable fit
    /// in `usize`, and their product evaluated at `point` stays within `i64`.
    pub open spec fn combine_res_defined(self, other: Self, point: Seq<i64>) -> bool {
        &&& forall|v: int|
            0 <= v < VARIABLES ==> #[trigger] self.exponents@[v] + other.exponents@[v]
                <= usize::MAX
        &&& power_prefix_fits(1, exponents_sum(self@.1, other@.1), point, VARIABLES as int)
    }

    /// The product `point[v]^(exponents[v] + other.exponents[v])` over all variables.
    pub fn combine_res(&self, other: &Monomial<VARIABLES>, point: [i64; VARIABLES]) -> (r: i64)
        requires
            self.combine_res_defined(*other, point@),
        ensures
            r == term_value((1, exponents_sum(self@.1, other@.1)), point@),
    {
        let ghost e = exponents_sum(self@.1, other@.1);
        let mut sum: i64 = 1;
        let mut v: usize = 0;
        while v < VARIABLES
            invariant
                v <= VARIABLES,
                self.combine_res_defined(*other, point@),
                e == exponents_sum(self@.1, other@.1),
                sum == power_prefix(1, e, point@, v as int),
            decreases VARIABLES - v,
        {
            assert(self.exponents@[v as int] + other.exponents@[v as int] <= usize::MAX);
            let exponent = self.exponents[v] + other.exponents[v];
            assert(e[v as int] == exponent as int);
            assert(fits_i64(ipow(point@[v as int] as int, e[v as int])));
            let f = point[v].upow(exponent);
            assert(fits_i64(power_prefix(1, e, point@, v + 1)));
            sum = sum * f;
            v = v + 1;
        }
        sum
    }

    /// The exponents of `self` sum to a value that fits in `usize`.
    pub open spec fn degree_defined(self) -> bool {
        forall|k: int| 0 <= k <= VARIABLES ==> #[trigger] seq_sum(self@.1.take(k)) <= usize::MAX
    }

    /// Get the degree of the Monomial
    pub fn degree(&self) -> (r: usize)
        requires
            self.degree_defined(),
        ensures
            r == term_degree(self@),
    {
        let mut sum: usize = 0;
        let mut v: usize = 0;
        while v < VARIABLES
            invariant
                v <= VARIABLES,
                self.degree_defined(),
                sum == seq_sum(self@.1.take(v as int)),
            decreases VARIABLES - v,
        {
            proof {
                lemma_seq_sum_push(self@.1.take(v as int), self@.1[v as int]);
                assert(self@.1.take(v + 1) =~= self@.1.take(v as int).push(self@.1[v as int]));
                assert(seq_sum(self@.1.take(v + 1)) <= usize::MAX);
            }
            sum = sum + self.exponents[v];
            v = v + 1;
        }
        assert(self@.1.take(VARIABLES as int) =~= self@.1);
        sum
    }
}

impl<const VARIABLES: usize> Monomial<VARIABLES> {
    /// The product of two monomials: coefficients multiply and exponents add.
    pub fn mul(self, rhs: Self) -> (r: Self)
        requires
            forall|v: int|
                0 <= v < VARIABLES ==> #[trigger] self.exponents@[v] + rhs.exponents@[v]
                    <= usize::MAX,
            fits_i64(self.coefficient * rhs.coefficient),
        ensures
            r@ == term_product(self@, rhs@),
    {
        let mut exponents = self.exponents;
        let mut i: usize = 0;
        while i < VARIABLES
            invariant
                i <= VARIABLES,
                forall|v: int|
                    0 <= v < VARIABLES ==> #[trigger] self.exponents@[v] + rhs.exponents@[v]
                        <= usize::MAX,
                forall|v: int|
                    0 <= v < i ==> #[trigger] exponents@[v] == self.exponents@[v]
                        + rhs.exponents@[v],
            decreases VARIABLES - i,
        {
            assert(self.exponents@[i as int] + rhs.exponents@[i as int] <= usize::MAX);
            exponents[i] = self.exponents[i] + rhs.exponents[i];
            i = i + 1;
        }
        let r = Monomial { coefficient: self.coefficient * rhs.coefficient, exponents };
        assert(r@.1 =~= exponents_sum(self@.1, rhs@.1));
        r
    }

    /// The monomial with its coefficient multiplied by `rhs`.
    pub fn scale(&self, rhs: i64) -> (r: Self)
        requires
            fits_i64(self.coefficient * rhs),
        ensures
            r@ == (self@.0 * rhs, self@.1),
    {
        Monomial { coefficient: self.coefficient * rhs, exponents: self.exponents }
    }
}

/// The product of two terms.
pub open spec fn term_product(a: TermView, b: TermView) -> TermView {
    (a.0 * b.0, exponents_sum(a.1, b.1))
}

/// Exponents added variable by variable.
pub open spec fn exponents_sum(a: Seq<int>, b: Seq<int>) -> Seq<int> {
    Seq::new(a.len(), |v: int| a[v] + b[v])
}

/// The sum of a sequence of integers.
pub open spec fn seq_sum(s: Seq<int>) -> int
    decreases s.len(),
{
    if s.len() == 0 {
        0
    } else {
        s[0] + seq_sum(s.drop_first())
    }
}

/// The total degree of a term.
pub open spec fn term_degree(t: TermView) -> int {
    seq_sum(t.1)
}

pub proof fn lemma_seq_sum_push(s: Seq<int>, x: int)
    ensures
        seq_sum(s.push(x)) == seq_sum(s) + x,
    decreases s.len(),
{
    let t = s.push(x);
    assert(seq_sum(t) == t[0] + seq_sum(t.drop_first()));
    if s.len() > 0 {
        lemma_seq_sum_push(s.drop_first(), x);
        assert(t.drop_first() =~= s.drop_first().push(x));
    } else {
        assert(t.drop_first() =~= Seq::<int>::empty());
        assert(seq_sum(t.drop_first()) == 0);
    }
}

/// A sparse polynomial consisting of a Vec of Monomials.
#[derive(Debug, Clone, PartialEq)]
pub struct Polynomial<const VARIABLES: usize> {
    pub terms: Vec<Monomial<VARIABLES>>,
}

/// The views of a sequence of monomials.
pub open spec fn terms_view<const VARIABLES: usize>(terms: Seq<Monomial<VARIABLES>>) -> Seq<
    TermView,
> {
    terms.map_values(|m: Monomial<VARIABLES>| m@)
}

impl<const VARIABLES: usize> View for Polynomial<VARIABLES> {
    type V = Seq<TermView>;

    open spec fn view(&self) -> Seq<TermView> {
        terms_view(self.terms@)
    }
}

/// The value of a sum of terms at a point.
pub open spec fn sum_value(terms: Seq<TermView>, point: Seq<i64>) -> int
    decreases terms.len(),
{
    if terms.len() == 0 {
        0
    } else {
        term_value(terms[0], point) + sum_value(terms.drop_first(), point)
    }
}

pub proof fn lemma_sum_value_concat(s: Seq<TermView>, t: Seq<TermView>, point: Seq<i64>)
    ensures
        sum_value(s + t, point) == sum_value(s, point) + sum_value(t, point),
    decreases s.len(),
{
    if s.len() == 0 {
        assert(s + t =~= t);
    } else {
        lemma_sum_value_concat(s.drop_first(), t, point);
        assert((s + t).drop_first() =~= s.drop_first() + t);
    }
}

pub proof fn lemma_sum_value_push(s: Seq<TermView>, x: TermView, point: Seq<i64>)
    ensures
        sum_value(s.push(x), point) == sum_value(s, point) + term_value(x, point),
{
    lemma_sum_value_concat(s, seq![x], point);
    assert(s + seq![x] =~= s.push(x));
    let one = seq![x];
    assert(one.drop_first() =~= Seq::<TermView>::empty());
    assert(sum_value(one.drop_first(), point) == 0);
    assert(sum_value(one, point) == term_value(one[0], point) + sum_value(one.drop_first(), point));
}

/// Every term evaluates within `i64` at `point`, and so does every running sum.
pub open spec fn sum_eval_defined<const VARIABLES: usize>(
    terms: Seq<Monomial<VARIABLES>>,
    point: Seq<i64>,
) -> bool {
    views_eval_defined(terms_view(terms), point)
}

/// Every term evaluates within `i64` at `point`, and so does every running
/// sum, taking the terms in order.
pub open spec fn views_eval_defined(terms: Seq<TermView>, point: Seq<i64>) -> bool {
    &&& forall|i: int|
        0 <= i < terms.len() ==> power_prefix_fits(
            (#[trigger] terms[i]).0,
            terms[i].1,
            point,
            terms[i].1.len() as int,
        )
    &&& forall|k: int| 0 <= k <= terms.len() ==> fits_i64(#[trigger] sum_value(terms.take(k), point))
}

impl<const VARIABLES: usize> Polynomial<VARIABLES> {
    /// Evaluating `self` at `point` stays within `i64`.
    pub open spec fn eval_defined(self, point: Seq<i64>) -> bool {
        sum_eval_defined(self.terms@, point)
    }

    /// Evaluate the polynomial at a point
    pub fn eval(&self, point: [i64; VARIABLES]) -> (r: i64)
        requires
            self.eval_defined(point@),
        ensures
            r == sum_value(self@, point@),
    {
        let mut sum: i64 = 0;
        let mut i: usize = 0;
        while i < self.terms.len()
            invariant
                i <= self.terms.len(),
                self.eval_defined(point@),
                sum == sum_value(self@.take(i as int), point@),
            decreases self.terms.len() - i,
        {
            assert(self@[i as int] == self.terms@[i as int]@);
            let t = self.terms[i].eval(point);
            proof {
                assert(self@.take(i + 1) =~= self@.take(i as int).push(self@[i as int]));
                lemma_sum_value_push(self@.take(i as int), self@[i as int], point@);
                assert(fits_i64(sum_value(terms_view(self.terms@).take(i + 1), point@)));
            }
            sum = sum + t;
            i = i + 1;
        }
        assert(self@.take(self.terms.len() as int) =~= self@);
        sum
    }
}

/// `a` and `b` agree before position `k` and `a[k] < b[k]`.
pub open spec fn lt_at(a: Seq<int>, b: Seq<int>, k: int) -> bool {
    &&& 0 <= k < a.len()
    &&& k < b.len()
    &&& a[k] < b[k]
    &&& forall|m: int| 0 <= m < k ==> a[m] == b[m]
}

/// Lexicographic order of exponent sequences (as arrays compare).
pub open spec fn exps_lt(a: Seq<int>, b: Seq<int>) -> bool {
    exists|k: int| #[trigger] lt_at(a, b, k)
}

pub proof fn lemma_exps_lt_asymmetric(a: Seq<int>, b: Seq<int>)
    ensures
        !(exps_lt(a, b) && exps_lt(b, a)),
        exps_lt(a, b) ==> a != b,
{
    if exps_lt(a, b) {
        let k = choose|k: int| lt_at(a, b, k);
        if exps_lt(b, a) {
            let k2 = choose|k2: int| lt_at(b, a, k2);
            if k < k2 {
                assert(b[k] == a[k]);
            } else if k2 < k {
                assert(a[k2] == b[k2]);
            }
        }
    }
}

pub proof fn lemma_exps_lt_transitive(a: Seq<int>, b: Seq<int>, c: Seq<int>)
    requires
        exps_lt(a, b),
        exps_lt(b, c),
    ensures
        exps_lt(a, c),
{
    let k1 = choose|k: int| lt_at(a, b, k);
    let k2 = choose|k: int| lt_at(b, c, k);
    if k1 <= k2 {
        assert(lt_at(a, c, k1));
    } else {
        assert(lt_at(a, c, k2));
    }
}

/// The outcome of comparing two exponent arrays.
#[derive(Debug, Clone, Copy, PartialEq, Eq, Structural)]
pub enum ExponentOrder {
    Less,
    Equal,
    Greater,
}

/// Compares two exponent arrays lexicographically.
pub fn compare_exponents<const VARIABLES: usize>(
    a: &[usize; VARIABLES],
    b: &[usize; VARIABLES],
) -> (r: ExponentOrder)
    ensures
        (r == ExponentOrder::Less) == exps_lt(exponents_view(*a), exponents_view(*b)),
        (r == ExponentOrder::Equal) == (exponents_view(*a) == exponents_view(*b)),
        (r == ExponentOrder::Greater) == exps_lt(exponents_view(*b), exponents_view(*a)),
{
    let ghost va = exponents_view(*a);
    let ghost vb = exponents_view(*b);
    proof {
        lemma_exps_lt_asymmetric(va, vb);
        lemma_exps_lt_asymmetric(vb, va);
    }
    let mut k: usize = 0;
    while k < VARIABLES
        invariant
            k <= VARIABLES,
            va == exponents_view(*a),
            vb == exponents_view(*b),
            va.len() == VARIABLES,
            vb.len() == VARIABLES,
            forall|m: int| 0 <= m < k ==> va[m] == vb[m],
        decreases VARIABLES - k,
    {
        if a[k] < b[k] {
            assert(lt_at(va, vb, k as int));
            return ExponentOrder::Less;
        }
        if a[k] > b[k] {
            assert(lt_at(vb, va, k as int));
            return ExponentOrder::Greater;
        }
        k = k + 1;
    }
    assert(va =~= vb);
    assert(!exps_lt(va, vb)) by {
        if exps_lt(va, vb) {
            let j = choose|j: int| lt_at(va, vb, j);
        }
    }
    ExponentOrder::Equal
}

/// The coefficient of two like terms combined.
pub open spec fn combined_coefficient(a: int, b: int, subtract: bool) -> int {
    if subtract {
        a - b
    } else {
        a + b
    }
}

/// The coefficient of a term taken from the right operand alone.
pub open spec fn right_coefficient(b: int, subtract: bool) -> int {
    if subtract {
        -b
    } else {
        b
    }
}

/// The terms of `a` and `b` merged in ascending order of exponents; like
/// terms at the heads of both are combined. With `subtract`, the terms of
/// `b` enter negated.
pub open spec fn merged(a: Seq<TermView>, b: Seq<TermView>, subtract: bool) -> Seq<TermView>
    decreases a.len() + b.len(),
{
    if a.len() == 0 && b.len() == 0 {
        Seq::empty()
    } else if b.len() == 0 || (a.len() > 0 && exps_lt(a[0].1, b[0].1)) {
        seq![a[0]] + merged(a.drop_first(), b, subtract)
    } else if a.len() > 0 && a[0].1 == b[0].1 {
        seq![(combined_coefficient(a[0].0, b[0].0, subtract), a[0].1)] + merged(
            a.drop_first(),
            b.drop_first(),
            subtract,
        )
    } else {
        seq![(right_coefficient(b[0].0, subtract), b[0].1)] + merged(a, b.drop_first(), subtract)
    }
}

/// Every coefficient that the merge computes fits in `i64`.
pub open spec fn merge_fits(a: Seq<TermView>, b: Seq<TermView>, subtract: bool) -> bool
    decreases a.len() + b.len(),
{
    if a.len() == 0 && b.len() == 0 {
        true
    } else if b.len() == 0 || (a.len() > 0 && exps_lt(a[0].1, b[0].1)) {
        merge_fits(a.drop_first(), b, subtract)
    } else if a.len() > 0 && a[0].1 == b[0].1 {
        fits_i64(combined_coefficient(a[0].0, b[0].0, subtract)) && merge_fits(
            a.drop_first(),
            b.drop_first(),
            subtract,
        )
    } else {
        fits_i64(right_coefficient(b[0].0, subtract)) && merge_fits(a, b.drop_first(), subtract)
    }
}

/// The terms whose coefficient is not zero, in order.
pub open spec fn nonzero_terms(s: Seq<TermView>) -> Seq<TermView>
    decreases s.len(),
{
    if s.len() == 0 {
        Seq::empty()
    } else if s.last().0 != 0 {
        nonzero_terms(s.drop_last()).push(s.last())
    } else {
        nonzero_terms(s.drop_last())
    }
}

fn merge_terms<const VARIABLES: usize>(
    a: &Vec<Monomial<VARIABLES>>,
    b: &Vec<Monomial<VARIABLES>>,
    subtract: bool,
) -> (r: Vec<Monomial<VARIABLES>>)
    requires
        merge_fits(terms_view(a@), terms_view(b@), subtract),
    ensures
        terms_view(r@) == merged(terms_view(a@), terms_view(b@), subtract),
{
    let ghost va = terms_view(a@);
    let ghost vb = terms_view(b@);
    let mut result: Vec<Monomial<VARIABLES>> = Vec::new();
    let mut i: usize = 0;
    let mut j: usize = 0;
    assert(va.skip(0) =~= va);
    assert(vb.skip(0) =~= vb);
    assert(terms_view(result@) + merged(va, vb, subtract) =~= merged(va, vb, subtract));
    while i < a.len() || j < b.len()
        invariant
            i <= a.len(),
            j <= b.len(),
            va == terms_view(a@),
            vb == terms_view(b@),
            merge_fits(va.skip(i as int), vb.skip(j as int), subtract),
            terms_view(result@) + merged(va.skip(i as int), vb.skip(j as int), subtract) == merged(
                va,
                vb,
                subtract,
            ),
        decreases a.len() - i + b.len() - j,
    {
        let ghost sa = va.skip(i as int);
        let ghost sb = vb.skip(j as int);
        let ghost old_result = terms_view(result@);
        let which = if i < a.len() && j < b.len() {
            compare_exponents(&a[i].exponents, &b[j].exponents)
        } else if i < a.len() {
            ExponentOrder::Less
        } else {
            ExponentOrder::Greater
        };
        proof {
            if i < a.len() {
                assert(sa[0] == a@[i as int]@);
                assert(sa.drop_first() =~= va.skip(i + 1));
            }
            if j < b.len() {
                assert(sb[0] == b@[j as int]@);
                assert(sb.drop_first() =~= vb.skip(j + 1));
            }
        }
        let smallest = match which {
            ExponentOrder::Less => {
                let m = a[i];
                i = i + 1;
                m
            },
            ExponentOrder::Equal => {
                let cur = a[i];
                let other = b[j];
                let coefficient = if subtract {
                    cur.coefficient - other.coefficient
                } else {
                    cur.coefficient + other.coefficient
                };
                i = i + 1;
                j = j + 1;
                Monomial { coefficient, exponents: cur.exponents }
            },
            ExponentOrder::Greater => {
                let mut res = b[j];
                if subtract {
                    res.coefficient = -res.coefficient;
                }
                j = j + 1;
                res
            },
        };
        let ghost step = merged(sa, sb, subtract);
        result.push(smallest);
        proof {
            assert(terms_view(result@) =~= old_result.push(smallest@));
            assert(step =~= seq![smallest@] + merged(va.skip(i as int), vb.skip(j as int), subtract));
            assert(terms_view(result@) + merged(va.skip(i as int), vb.skip(j as int), subtract)
                =~= old_result + step);
        }
    }
    assert(va.skip(i as int) =~= Seq::<TermView>::empty());
    assert(vb.skip(j as int) =~= Seq::<TermView>::empty());
    assert(terms_view(result@) + Seq::<TermView>::empty() =~= terms_view(result@));
    result
}

fn remove_zero_terms<const VARIABLES: usize>(terms: Vec<Monomial<VARIABLES>>) -> (r: Vec<
    Monomial<VARIABLES>,
>)
    ensures
        terms_view(r@) == nonzero_terms(terms_view(terms@)),
{
    let ghost v = terms_view(terms@);
    let mut result: Vec<Monomial<VARIABLES>> = Vec::new();
    let mut i: usize = 0;
    while i < terms.len()
        invariant
            i <= terms.len(),
            v == terms_view(terms@),
            terms_view(result@) == nonzero_terms(v.take(i as int)),
        decreases terms.len() - i,
    {
        let ghost before = terms_view(result@);
        assert(v.take(i + 1).drop_last() =~= v.take(i as int));
        assert(v.take(i + 1).last() == terms@[i as int]@);
        if terms[i].coefficient != 0 {
            result.push(terms[i]);
            assert(terms_view(result@) =~= before.push(terms@[i as int]@));
        }
        i = i + 1;
    }
    assert(v.take(terms.len() as int) =~= v);
    result
}

impl<const VARIABLES: usize> Polynomial<VARIABLES> {
    /// The sum of two polynomials: the terms merged in ascending order of
    /// exponents, like terms at the heads combined, zero terms removed.
    pub fn add(&self, other: &Polynomial<VARIABLES>) -> (r: Polynomial<VARIABLES>)
        requires
            merge_fits(self@, other@, false),
        ensures
            r@ == nonzero_terms(merged(self@, other@, false)),
    {
        let result = merge_terms(&self.terms, &other.terms, false);
        Polynomial { terms: remove_zero_terms(result) }
    }

    /// The difference of two polynomials: as `add`, with the terms of
    /// `other` negated.
    pub fn sub(&self, other: &Polynomial<VARIABLES>) -> (r: Polynomial<VARIABLES>)
        requires
            merge_fits(self@, other@, true),
        ensures
            r@ == nonzero_terms(merged(self@, other@, true)),
    {
        let result = merge_terms(&self.terms, &other.terms, true);
        Polynomial { terms: remove_zero_terms(result) }
    }
}

proof fn lemma_power_prefix_linear(c: int, exps: Seq<int>, point: Seq<i64>, k: int)
    ensures
        power_prefix(c, exps, point, k) == c * power_prefix(1, exps, point, k),
    decreases k,
{
    if k > 0 {
        lemma_power_prefix_linear(c, exps, point, k - 1);
        let p = power_prefix(1, exps, point, k - 1);
        let f = ipow(point[k - 1] as int, exps[k - 1]);
        assert((c * p) * f == c * (p * f)) by (nonlinear_arith);
    }
}

/// A term's value is its coefficient times the value of its exponents.
pub proof fn lemma_term_value_linear(t: TermView, point: Seq<i64>)
    ensures
        term_value(t, point) == t.0 * term_value((1, t.1), point),
{
    lemma_power_prefix_linear(t.0, t.1, point, t.1.len() as int);
}

proof fn lemma_combined_term_value(a: int, b: int, e: Seq<int>, subtract: bool, point: Seq<i64>)
    ensures
        term_value((combined_coefficient(a, b, subtract), e), point) == term_value((a, e), point)
            + (if subtract {
            -term_value((b, e), point)
        } else {
            term_value((b, e), point)
        }),
        term_value((right_coefficient(b, subtract), e), point) == (if subtract {
            -term_value((b, e), point)
        } else {
            term_value((b, e), point)
        }),
{
    let p = term_value((1, e), point);
    lemma_term_value_linear((combined_coefficient(a, b, subtract), e), point);
    lemma_term_value_linear((right_coefficient(b, subtract), e), point);
    lemma_term_value_linear((a, e), point);
    lemma_term_value_linear((b, e), point);
    assert((a + b) * p == a * p + b * p) by (nonlinear_arith);
    assert((a - b) * p == a * p - b * p) by (nonlinear_arith);
    assert((-b) * p == -(b * p)) by (nonlinear_arith);
}

proof fn lemma_sum_value_cons(x: TermView, s: Seq<TermView>, point: Seq<i64>)
    ensures
        sum_value(seq![x] + s, point) == term_value(x, point) + sum_value(s, point),
{
    assert((seq![x] + s).drop_first() =~= s);
    assert((seq![x] + s)[0] == x);
}

/// Merging adds (or, with `subtract`, subtracts) the values.
pub proof fn lemma_merged_value(
    a: Seq<TermView>,
    b: Seq<TermView>,
    subtract: bool,
    point: Seq<i64>,
)
    ensures
        sum_value(merged(a, b, subtract), point) == sum_value(a, point) + (if subtract {
            -sum_value(b, point)
        } else {
            sum_value(b, point)
        }),
    decreases a.len() + b.len(),
{
    if a.len() == 0 && b.len() == 0 {
    } else if b.len() == 0 || (a.len() > 0 && exps_lt(a[0].1, b[0].1)) {
        lemma_merged_value(a.drop_first(), b, subtract, point);
        lemma_sum_value_cons(a[0], merged(a.drop_first(), b, subtract), point);
    } else if a.len() > 0 && a[0].1 == b[0].1 {
        lemma_merged_value(a.drop_first(), b.drop_first(), subtract, point);
        lemma_sum_value_cons(
            (combined_coefficient(a[0].0, b[0].0, subtract), a[0].1),
            merged(a.drop_first(), b.drop_first(), subtract),
            point,
        );
        lemma_combined_term_value(a[0].0, b[0].0, a[0].1, subtract, point);
    } else {
        lemma_merged_value(a, b.drop_first(), subtract, point);
        lemma_sum_value_cons(
            (right_coefficient(b[0].0, subtract), b[0].1),
            merged(a, b.drop_first(), subtract),
            point,
        );
        lemma_combined_term_value(0, b[0].0, b[0].1, subtract, point);
    }
}

proof fn lemma_sum_value_last(s: Seq<TermView>, point: Seq<i64>)
    requires
        s.len() > 0,
    ensures
        sum_value(s, point) == sum_value(s.drop_last(), point) + term_value(s.last(), point),
{
    lemma_sum_value_push(s.drop_last(), s.last(), point);
    assert(s.drop_last().push(s.last()) =~= s);
}

/// Removing the terms with coefficient zero keeps the value.
pub proof fn lemma_nonzero_terms_value(s: Seq<TermView>, point: Seq<i64>)
    ensures
        sum_value(nonzero_terms(s), point) == sum_value(s, point),
    decreases s.len(),
{
    if s.len() > 0 {
        lemma_nonzero_terms_value(s.drop_last(), point);
        lemma_sum_value_last(s, point);
        if s.last().0 != 0 {
            lemma_sum_value_push(nonzero_terms(s.drop_last()), s.last(), point);
        } else {
            lemma_term_value_linear(s.last(), point);
        }
    }
}

/// The value of a sum of polynomials is the sum of their values.
pub proof fn lemma_add_value<const VARIABLES: usize>(
    p: Polynomial<VARIABLES>,
    q: Polynomial<VARIABLES>,
    point: Seq<i64>,
)
    ensures
        sum_value(nonzero_terms(merged(p@, q@, false)), point) == sum_value(p@, point) + sum_value(
            q@,
            point,
        ),
{
    lemma_nonzero_terms_value(merged(p@, q@, false), point);
    lemma_merged_value(p@, q@, false, point);
}

/// The value of a difference of polynomials is the difference of their values.
pub proof fn lemma_sub_value<const VARIABLES: usize>(
    p: Polynomial<VARIABLES>,
    q: Polynomial<VARIABLES>,
    point: Seq<i64>,
)
    ensures
        sum_value(nonzero_terms(merged(p@, q@, true)), point) == sum_value(p@, point) - sum_value(
            q@,
            point,
        ),
{
    lemma_nonzero_terms_value(merged(p@, q@, true), point);
    lemma_merged_value(p@, q@, true, point);
}

/// Lexicographic order of exponent sequences, or equality.
pub open spec fn exps_le(a: Seq<int>, b: Seq<int>) -> bool {
    exps_lt(a, b) || a == b
}

/// `x` inserted into `t` after the last term whose exponents are at most
/// those of `x`.
pub open spec fn insert_stable(t: Seq<TermView>, x: TermView) -> Seq<TermView>
    decreases t.len(),
{
    if t.len() == 0 {
        seq![x]
    } else if exps_le(t.last().1, x.1) {
        t.push(x)
    } else {
        insert_stable(t.drop_last(), x).push(t.last())
    }
}

/// The terms sorted by exponents, terms with equal exponents kept in
/// the order in which they came.
pub open spec fn stable_sorted(s: Seq<TermView>) -> Seq<TermView>
    decreases s.len(),
{
    if s.len() == 0 {
        Seq::empty()
    } else {
        insert_stable(stable_sorted(s.drop_last()), s.last())
    }
}

/// Sorts the terms by their exponents, lexicographically, keeping the
/// order of terms with equal exponents.
///
/// Calls `slice::sort_by_key`, which std documents as a stable sort; with
/// the exponent arrays as keys, which std orders lexicographically, its
/// result is `stable_sorted` of the input.
#[verifier::external_body]
pub(crate) fn sort_by_exponents<const VARIABLES: usize>(terms: &mut Vec<Monomial<VARIABLES>>)
    ensures
        terms_view(final(terms)@) == stable_sorted(terms_view(old(terms)@)),
        final(terms)@.len() == old(terms)@.len(),
{
    terms.sort_by_key(|m| m.exponents);
}

/// Adjacent terms with equal exponents combined into one, in order.
pub open spec fn consolidated(s: Seq<TermView>) -> Seq<TermView>
    decreases s.len(),
{
    if s.len() == 0 {
        Seq::empty()
    } else {
        let r = consolidated(s.drop_last());
        if r.len() > 0 && r.last().1 == s.last().1 {
            r.drop_last().push((r.last().0 + s.last().0, s.last().1))
        } else {
            r.push(s.last())
        }
    }
}

/// Every coefficient that consolidation computes fits in `i64`.
pub open spec fn consolidate_fits(s: Seq<TermView>) -> bool
    decreases s.len(),
{
    if s.len() == 0 {
        true
    } else {
        let r = consolidated(s.drop_last());
        &&& consolidate_fits(s.drop_last())
        &&& (r.len() > 0 && r.last().1 == s.last().1) ==> fits_i64(r.last().0 + s.last().0)
    }
}

fn consolidate_terms<const VARIABLES: usize>(terms: &mut Vec<Monomial<VARIABLES>>)
    requires
        consolidate_fits(terms_view(old(terms)@)),
    ensures
        terms_view(final(terms)@) == consolidated(terms_view(old(terms)@)),
{
    let ghost v = terms_view(terms@);
    let mut result: Vec<Monomial<VARIABLES>> = Vec::new();
    let mut i: usize = 0;
    while i < terms.len()
        invariant
            i <= terms.len(),
            v == terms_view(terms@),
            consolidate_fits(v),
            terms_view(result@) == consolidated(v.take(i as int)),
        decreases terms.len() - i,
    {
        let ghost before = terms_view(result@);
        let ghost pre = v.take(i + 1);
        proof {
            assert(pre.drop_last() =~= v.take(i as int));
            assert(pre.last() == terms@[i as int]@);
            lemma_consolidate_fits_prefix(v, i + 1);
        }
        let t = terms[i];
        let n = result.len();
        let same = if n > 0 {
            compare_exponents(&result[n - 1].exponents, &t.exponents) == ExponentOrder::Equal
        } else {
            false
        };
        if same {
            let last = result[n - 1];
            let combined = Monomial { coefficient: last.coefficient + t.coefficient, exponents: t.exponents };
            result.set(n - 1, combined);
            assert(terms_view(result@) =~= before.drop_last().push(combined@));
        } else {
            result.push(t);
            assert(terms_view(result@) =~= before.push(t@));
        }
        i = i + 1;
    }
    assert(v.take(terms.len() as int) =~= v);
    *terms = result;
}

proof fn lemma_consolidate_fits_prefix(s: Seq<TermView>, k: int)
    requires
        consolidate_fits(s),
        0 <= k <= s.len(),
    ensures
        consolidate_fits(s.take(k)),
    decreases s.len() - k,
{
    if k < s.len() {
        lemma_consolidate_fits_prefix(s, k + 1);
        assert(s.take(k + 1).drop_last() =~= s.take(k));
    } else {
        assert(s.take(k) =~= s);
    }
}

impl<const VARIABLES: usize> Polynomial<VARIABLES> {
    /// Building a polynomial from `terms` computes only coefficients that
    /// fit in `i64`.
    pub open spec fn new_defined(terms: Seq<Monomial<VARIABLES>>) -> bool {
        consolidate_fits(stable_sorted(terms_view(terms)))
    }

    /// New from terms: sorts them by exponents and consolidates like terms.
    pub fn new(terms: Vec<Monomial<VARIABLES>>) -> (r: Polynomial<VARIABLES>)
        requires
            Self::new_defined(terms@),
        ensures
            r@ == consolidated(stable_sorted(terms_view(terms@))),
    {
        let mut terms = terms;
        sort_by_exponents(&mut terms);
        consolidate_terms(&mut terms);
        Polynomial { terms }
    }

    /// Consolidates adjacent like terms.
    pub fn consolidate(&mut self)
        requires
            consolidate_fits(old(self)@),
        ensures
            final(self)@ == consolidated(old(self)@),
    {
        consolidate_terms(&mut self.terms);
    }
}

proof fn lemma_insert_stable_value(t: Seq<TermView>, x: TermView, point: Seq<i64>)
    ensures
        sum_value(insert_stable(t, x), point) == sum_value(t, point) + term_value(x, point),
    decreases t.len(),
{
    if t.len() == 0 {
        lemma_sum_value_push(t, x, point);
        assert(t.push(x) =~= seq![x]);
    } else if exps_le(t.last().1, x.1) {
        lemma_sum_value_push(t, x, point);
    } else {
        lemma_insert_stable_value(t.drop_last(), x, point);
        lemma_sum_value_push(insert_stable(t.drop_last(), x), t.last(), point);
        lemma_sum_value_last(t, point);
    }
}

/// Sorting keeps the value.
pub proof fn lemma_stable_sorted_value(s: Seq<TermView>, point: Seq<i64>)
    ensures
        sum_value(stable_sorted(s), point) == sum_value(s, point),
    decreases s.len(),
{
    if s.len() > 0 {
        lemma_stable_sorted_value(s.drop_last(), point);
        lemma_insert_stable_value(stable_sorted(s.drop_last()), s.last(), point);
        lemma_sum_value_last(s, point);
    }
}

/// Consolidating like terms keeps the value.
pub proof fn lemma_consolidated_value(s: Seq<TermView>, point: Seq<i64>)
    ensures
        sum_value(consolidated(s), point) == sum_value(s, point),
    decreases s.len(),
{
    if s.len() > 0 {
        lemma_consolidated_value(s.drop_last(), point);
        lemma_sum_value_last(s, point);
        let r = consolidated(s.drop_last());
        if r.len() > 0 && r.last().1 == s.last().1 {
            lemma_sum_value_last(r, point);
            lemma_sum_value_push(r.drop_last(), (r.last().0 + s.last().0, s.last().1), point);
            lemma_combined_term_value(r.last().0, s.last().0, s.last().1, false, point);
        } else {
            lemma_sum_value_push(r, s.last(), point);
        }
    }
}

/// A polynomial built from terms has the value of the sum of the terms.
pub proof fn lemma_new_value(s: Seq<TermView>, point: Seq<i64>)
    ensures
        sum_value(consolidated(stable_sorted(s)), point) == sum_value(s, point),
{
    lemma_consolidated_value(stable_sorted(s), point);
    lemma_stable_sorted_value(s, point);
}

/// Any two exponent sequences of one length are ordered one way or the other.
pub proof fn lemma_exps_total(a: Seq<int>, b: Seq<int>)
    requires
        a.len() == b.len(),
    ensures
        exps_lt(a, b) || a == b || exps_lt(b, a),
{
    lemma_exps_total_from(a, b, 0);
}

proof fn lemma_exps_total_from(a: Seq<int>, b: Seq<int>, k: int)
    requires
        a.len() == b.len(),
        0 <= k <= a.len(),
        forall|m: int| 0 <= m < k ==> a[m] == b[m],
    ensures
        exps_lt(a, b) || a == b || exps_lt(b, a),
    decreases a.len() - k,
{
    if k == a.len() {
        assert(a =~= b);
    } else if a[k] < b[k] {
        assert(lt_at(a, b, k));
    } else if a[k] > b[k] {
        assert(lt_at(b, a, k));
    } else {
        lemma_exps_total_from(a, b, k + 1);
    }
}

proof fn lemma_exps_le_transitive(a: Seq<int>, b: Seq<int>, c: Seq<int>)
    requires
        exps_le(a, b),
        exps_le(b, c),
    ensures
        exps_le(a, c),
        exps_lt(a, b) || exps_lt(b, c) ==> exps_lt(a, c),
{
    if exps_lt(a, b) && exps_lt(b, c) {
        lemma_exps_lt_transitive(a, b, c);
    }
}

/// The terms are in ascending order of exponents, like terms allowed.
pub open spec fn sorted_weak(s: Seq<TermView>) -> bool {
    forall|i: int, j: int| 0 <= i < j < s.len() ==> exps_le(s[i].1, s[j].1)
}

/// The terms are in strictly ascending order of exponents: no two are alike.
pub open spec fn sorted_strict(s: Seq<TermView>) -> bool {
    forall|i: int, j: int| 0 <= i < j < s.len() ==> exps_lt(s[i].1, s[j].1)
}

/// All terms have `n` exponents.
pub open spec fn uniform_len(s: Seq<TermView>, n: int) -> bool {
    forall|i: int| 0 <= i < s.len() ==> (#[trigger] s[i]).1.len() == n
}

proof fn lemma_insert_stable_bounded(t: Seq<TermView>, x: TermView, y: Seq<int>)
    requires
        forall|j: int| 0 <= j < t.len() ==> exps_le((#[trigger] t[j]).1, y),
        exps_le(x.1, y),
    ensures
        forall|i: int|
            0 <= i < insert_stable(t, x).len() ==> exps_le((#[trigger] insert_stable(t, x)[i]).1, y),
        insert_stable(t, x).len() == t.len() + 1,
    decreases t.len(),
{
    if t.len() == 0 {
    } else if exps_le(t.last().1, x.1) {
    } else {
        lemma_insert_stable_bounded(t.drop_last(), x, y);
        assert(t.last() == t[t.len() - 1]);
    }
}

proof fn lemma_insert_stable_uniform(t: Seq<TermView>, x: TermView, n: int)
    requires
        uniform_len(t, n),
        x.1.len() == n,
    ensures
        uniform_len(insert_stable(t, x), n),
        insert_stable(t, x).len() == t.len() + 1,
    decreases t.len(),
{
    if t.len() > 0 && !exps_le(t.last().1, x.1) {
        lemma_insert_stable_uniform(t.drop_last(), x, n);
    }
}

proof fn lemma_insert_stable_sorted(t: Seq<TermView>, x: TermView, n: int)
    requires
        uniform_len(t, n),
        x.1.len() == n,
        sorted_weak(t),
    ensures
        sorted_weak(insert_stable(t, x)),
    decreases t.len(),
{
    if t.len() == 0 {
    } else if exps_le(t.last().1, x.1) {
        let r = t.push(x);
        assert forall|i: int, j: int| 0 <= i < j < r.len() implies exps_le(r[i].1, r[j].1) by {
            if j == t.len() {
                if i < t.len() - 1 {
                    lemma_exps_le_transitive(t[i].1, t.last().1, x.1);
                }
            }
        }
    } else {
        let tl = t.drop_last();
        let last = t.last();
        lemma_insert_stable_sorted(tl, x, n);
        lemma_exps_total(last.1, x.1);
        assert forall|j: int| 0 <= j < tl.len() implies exps_le((#[trigger] tl[j]).1, last.1) by {
            assert(tl[j] == t[j]);
        }
        lemma_insert_stable_bounded(tl, x, last.1);
        let inner = insert_stable(tl, x);
        let r = inner.push(last);
        assert forall|i: int, j: int| 0 <= i < j < r.len() implies exps_le(r[i].1, r[j].1) by {
            if j == inner.len() {
                assert(exps_le(inner[i].1, last.1));
            } else {
                assert(r[i] == inner[i] && r[j] == inner[j]);
            }
        }
    }
}

/// Sorting yields terms in ascending order of exponents.
pub proof fn lemma_stable_sorted_sorted(s: Seq<TermView>, n: int)
    requires
        uniform_len(s, n),
    ensures
        sorted_weak(stable_sorted(s)),
        uniform_len(stable_sorted(s), n),
        stable_sorted(s).len() == s.len(),
    decreases s.len(),
{
    if s.len() > 0 {
        let sl = s.drop_last();
        assert(uniform_len(sl, n)) by {
            assert forall|i: int| 0 <= i < sl.len() implies (#[trigger] sl[i]).1.len() == n by {
                assert(sl[i] == s[i]);
            }
        }
        lemma_stable_sorted_sorted(sl, n);
        assert(s.last() == s[s.len() - 1]);
        lemma_insert_stable_sorted(stable_sorted(sl), s.last(), n);
        lemma_insert_stable_uniform(stable_sorted(sl), s.last(), n);
    }
}

proof fn lemma_consolidated_last(s: Seq<TermView>)
    requires
        s.len() > 0,
    ensures
        consolidated(s).len() > 0,
        consolidated(s).last().1 == s.last().1,
        consolidated(s).len() <= s.len(),
    decreases s.len(),
{
    if s.len() > 1 {
        lemma_consolidated_last(s.drop_last());
    }
    lemma_consolidated_len(s);
}

proof fn lemma_consolidated_len(s: Seq<TermView>)
    ensures
        consolidated(s).len() <= s.len(),
    decreases s.len(),
{
    if s.len() > 0 {
        lemma_consolidated_len(s.drop_last());
    }
}

/// Consolidating terms in ascending order of exponents leaves no two
/// alike.
pub proof fn lemma_consolidated_strict(s: Seq<TermView>)
    requires
        sorted_weak(s),
    ensures
        sorted_strict(consolidated(s)),
    decreases s.len(),
{
    if s.len() > 0 {
        let sl = s.drop_last();
        assert(sorted_weak(sl)) by {
            assert forall|i: int, j: int| 0 <= i < j < sl.len() implies exps_le(
                sl[i].1,
                sl[j].1,
            ) by {
                assert(sl[i] == s[i] && sl[j] == s[j]);
            }
        }
        lemma_consolidated_strict(sl);
        let r = consolidated(sl);
        let x = s.last();
        if r.len() > 0 {
            lemma_consolidated_last(sl);
            assert(sl.last() == s[s.len() - 2]);
            assert(exps_le(s[s.len() - 2].1, s[s.len() - 1].1));
            let c = consolidated(s);
            if r.last().1 == x.1 {
                assert forall|i: int, j: int| 0 <= i < j < c.len() implies exps_lt(
                    c[i].1,
                    c[j].1,
                ) by {
                    assert(c[i].1 == r[i].1);
                    assert(c[j].1 == r[j].1);
                }
            } else {
                assert(exps_lt(r.last().1, x.1));
                assert forall|i: int, j: int| 0 <= i < j < c.len() implies exps_lt(
                    c[i].1,
                    c[j].1,
                ) by {
                    if j == r.len() {
                        if i < r.len() - 1 {
                            lemma_exps_lt_transitive(r[i].1, r.last().1, x.1);
                        }
                    } else {
                        assert(c[i] == r[i] && c[j] == r[j]);
                    }
                }
            }
        }
    }
}

pub proof fn lemma_terms_view_uniform<const VARIABLES: usize>(terms: Seq<Monomial<VARIABLES>>)
    ensures
        uniform_len(terms_view(terms), VARIABLES as int),
        terms_view(terms).len() == terms.len(),
{
    assert forall|i: int| 0 <= i < terms_view(terms).len() implies (#[trigger] terms_view(
        terms,
    )[i]).1.len() == VARIABLES as int by {
        assert(terms_view(terms)[i] == terms[i]@);
    }
}

/// A polynomial built from terms has no two like terms, and they are in
/// ascending order of exponents.
pub proof fn lemma_new_sorted<const VARIABLES: usize>(terms: Seq<Monomial<VARIABLES>>)
    ensures
        sorted_strict(consolidated(stable_sorted(terms_view(terms)))),
{
    lemma_terms_view_uniform(terms);
    lemma_stable_sorted_sorted(terms_view(terms), VARIABLES as int);
    lemma_consolidated_strict(stable_sorted(terms_view(terms)));
}

/// Products of terms whose degrees add up to more than this are dropped.
pub const TRUNC_DEGREE: usize = 50;

/// The products of `x` with each term of `b`, in order, leaving out those
/// whose degree would exceed `TRUNC_DEGREE`.
pub open spec fn product_row(x: TermView, b: Seq<TermView>) -> Seq<TermView>
    decreases b.len(),
{
    if b.len() == 0 {
        Seq::empty()
    } else if term_degree(x) + term_degree(b.last()) <= TRUNC_DEGREE {
        product_row(x, b.drop_last()).push(term_product(x, b.last()))
    } else {
        product_row(x, b.drop_last())
    }
}

/// The rows of products of the terms of `a` with the terms of `b`.
pub open spec fn product_terms(a: Seq<TermView>, b: Seq<TermView>) -> Seq<TermView>
    decreases a.len(),
{
    if a.len() == 0 {
        Seq::empty()
    } else {
        product_terms(a.drop_last(), b) + product_row(a.last(), b)
    }
}

/// Multiplying the polynomials with terms `a` and `b` computes only values
/// that fit in their types.
pub open spec fn mul_defined<const VARIABLES: usize>(
    a: Seq<Monomial<VARIABLES>>,
    b: Seq<Monomial<VARIABLES>>,
) -> bool {
    &&& forall|i: int| 0 <= i < a.len() ==> (#[trigger] a[i]).degree_defined()
    &&& forall|j: int| 0 <= j < b.len() ==> (#[trigger] b[j]).degree_defined()
    &&& forall|i: int, j: int|
        0 <= i < a.len() && 0 <= j < b.len() ==> term_degree(#[trigger] a[i]@) + term_degree(
            #[trigger] b[j]@,
        ) <= usize::MAX
    &&& forall|i: int, j: int|
        0 <= i < a.len() && 0 <= j < b.len() && term_degree(#[trigger] a[i]@) + term_degree(
            #[trigger] b[j]@,
        ) <= TRUNC_DEGREE ==> {
            &&& fits_i64(a[i].coefficient * b[j].coefficient)
            &&& forall|v: int|
                0 <= v < VARIABLES ==> #[trigger] a[i].exponents@[v] + b[j].exponents@[v]
                    <= usize::MAX
        }
    &&& consolidate_fits(product_terms(terms_view(a), terms_view(b)))
}

/// The terms scaled by `n`.
pub open spec fn scaled_terms(s: Seq<TermView>, n: int) -> Seq<TermView> {
    Seq::new(s.len(), |k: int| (s[k].0 * n, s[k].1))
}

/// Rust's integer division, rounding toward zero.
pub open spec fn trunc_div(a: int, b: int) -> int {
    let q = abs_int(a) / abs_int(b);
    if (a < 0) != (b < 0) {
        -q
    } else {
        q
    }
}

pub open spec fn abs_int(v: int) -> int {
    if v < 0 {
        -v
    } else {
        v
    }
}

/// `a / b` for `i64`, rounding toward zero as Rust does.
pub fn div_toward_zero(a: i64, b: i64) -> (r: i64)
    requires
        b != 0,
        !(a == i64::MIN && b == -1),
    ensures
        r == trunc_div(a as int, b as int),
{
    if b > 0 {
        a / b
    } else if b == i64::MIN {
        proof {
            let x = abs_int(a as int);
            let d = abs_int(b as int);
            if a == i64::MIN {
                vstd::arithmetic::div_mod::lemma_div_basics(d);
            } else {
                vstd::arithmetic::div_mod::lemma_basic_div(x, d);
            }
        }
        if a == i64::MIN {
            1
        } else {
            0
        }
    } else if b == -1 {
        proof {
            vstd::arithmetic::div_mod::lemma_div_basics(abs_int(a as int));
        }
        -a
    } else {
        let d: i64 = -b;
        let q = a / d;
        proof {
            let x = abs_int(a as int);
            vstd::arithmetic::div_mod::lemma_div_is_ordered_by_denominator(x, 2, d as int);
            vstd::arithmetic::div_mod::lemma_div_pos_is_pos(x, d as int);
            assert(x / 2 <= 0x4000_0000_0000_0000);
            assert(q == x / (d as int) || q == -(x / (d as int)));
        }
        -q
    }
}

/// The terms with each coefficient divided by `n`, rounding toward zero.
pub open spec fn divided_terms(s: Seq<TermView>, n: int) -> Seq<TermView> {
    Seq::new(s.len(), |k: int| (trunc_div(s[k].0, n), s[k].1))
}

impl<const VARIABLES: usize> Polynomial<VARIABLES> {
    /// The product of two polynomials: the products of all pairs of terms,
    /// row by row, leaving out those of degree above `TRUNC_DEGREE`, with
    /// adjacent like terms consolidated.
    pub fn mul(&self, rhs: &Polynomial<VARIABLES>) -> (r: Polynomial<VARIABLES>)
        requires
            mul_defined(self.terms@, rhs.terms@),
        ensures
            r@ == consolidated(product_terms(self@, rhs@)),
    {
        let ghost va = self@;
        let ghost vb = rhs@;
        let mut terms: Vec<Monomial<VARIABLES>> = Vec::new();
        let mut i: usize = 0;
        while i < self.terms.len()
            invariant
                i <= self.terms.len(),
                va == self@,
                vb == rhs@,
                mul_defined(self.terms@, rhs.terms@),
                terms_view(terms@) == product_terms(va.take(i as int), vb),
            decreases self.terms.len() - i,
        {
            let ghost before = terms_view(terms@);
            let mut j: usize = 0;
            assert(vb.take(0) =~= Seq::<TermView>::empty());
            assert(before + product_row(va[i as int], vb.take(0)) =~= before);
            while j < rhs.terms.len()
                invariant
                    i < self.terms.len(),
                    j <= rhs.terms.len(),
                    va == self@,
                    vb == rhs@,
                    mul_defined(self.terms@, rhs.terms@),
                    before == product_terms(va.take(i as int), vb),
                    terms_view(terms@) == before + product_row(va[i as int], vb.take(j as int)),
                decreases rhs.terms.len() - j,
            {
                let ghost row = product_row(va[i as int], vb.take(j as int));
                assert(vb.take(j + 1).drop_last() =~= vb.take(j as int));
                assert(vb.take(j + 1).last() == rhs.terms@[j as int]@);
                assert(va[i as int] == self.terms@[i as int]@);
                assert(term_degree(self.terms@[i as int]@) + term_degree(rhs.terms@[j as int]@)
                    <= usize::MAX);
                let d = self.terms[i].degree() + rhs.terms[j].degree();
                if d <= TRUNC_DEGREE {
                    let product = self.terms[i].mul(rhs.terms[j]);
                    let ghost old_terms = terms_view(terms@);
                    terms.push(product);
                    assert(terms_view(terms@) =~= old_terms.push(product@));
                    assert(before + row.push(product@) =~= (before + row).push(product@));
                }
                j = j + 1;
            }
            assert(vb.take(rhs.terms.len() as int) =~= vb);
            assert(va.take(i + 1).drop_last() =~= va.take(i as int));
            assert(va.take(i + 1).last() == va[i as int]);
            i = i + 1;
        }
        assert(va.take(self.terms.len() as int) =~= va);
        consolidate_terms(&mut terms);
        Polynomial { terms }
    }

    /// The polynomial with every coefficient multiplied by `rhs`, adjacent
    /// like terms consolidated.
    pub fn mul_scalar(&self, rhs: i64) -> (r: Polynomial<VARIABLES>)
        requires
            forall|k: int|
                0 <= k < self.terms@.len() ==> fits_i64(
                    #[trigger] self.terms@[k].coefficient * rhs,
                ),
            consolidate_fits(scaled_terms(self@, rhs as int)),
        ensures
            r@ == consolidated(scaled_terms(self@, rhs as int)),
    {
        let mut terms: Vec<Monomial<VARIABLES>> = Vec::new();
        let mut i: usize = 0;
        while i < self.terms.len()
            invariant
                i <= self.terms.len(),
                forall|k: int|
                    0 <= k < self.terms@.len() ==> fits_i64(
                        #[trigger] self.terms@[k].coefficient * rhs,
                    ),
                terms_view(terms@) == scaled_terms(self@, rhs as int).take(i as int),
            decreases self.terms.len() - i,
        {
            assert(self@[i as int] == self.terms@[i as int]@);
            let product = self.terms[i].scale(rhs);
            let ghost old_terms = terms_view(terms@);
            terms.push(product);
            assert(terms_view(terms@) =~= old_terms.push(product@));
            assert(terms_view(terms@) =~= scaled_terms(self@, rhs as int).take(i + 1));
            i = i + 1;
        }
        assert(scaled_terms(self@, rhs as int).take(self.terms.len() as int) =~= scaled_terms(
            self@,
            rhs as int,
        ));
        consolidate_terms(&mut terms);
        Polynomial { terms }
    }

    /// The polynomial with every coefficient divided by `rhs`, rounding
    /// toward zero.
    pub fn div(&self, rhs: i64) -> (r: Polynomial<VARIABLES>)
        requires
            rhs != 0,
            rhs == -1 ==> forall|k: int|
                0 <= k < self.terms@.len() ==> #[trigger] self.terms@[k].coefficient != i64::MIN,
        ensures
            r@ == divided_terms(self@, rhs as int),
    {
        let mut terms: Vec<Monomial<VARIABLES>> = Vec::new();
        let mut i: usize = 0;
        while i < self.terms.len()
            invariant
                i <= self.terms.len(),
                rhs != 0,
                rhs == -1 ==> forall|k: int|
                    0 <= k < self.terms@.len() ==> #[trigger] self.terms@[k].coefficient
                        != i64::MIN,
                terms_view(terms@) == divided_terms(self@, rhs as int).take(i as int),
            decreases self.terms.len() - i,
        {
            let term = self.terms[i];
            assert(rhs == -1 ==> self.terms@[i as int].coefficient != i64::MIN);
            let coefficient = div_toward_zero(term.coefficient, rhs);
            let m = Monomial { coefficient, exponents: term.exponents };
            assert(self@[i as int] == self.terms@[i as int]@);
            assert(m@ == (trunc_div(self@[i as int].0, rhs as int), self@[i as int].1));
            let ghost old_terms = terms_view(terms@);
            terms.push(m);
            assert(terms_view(terms@) =~= old_terms.push(m@));
            assert(terms_view(terms@) =~= divided_terms(self@, rhs as int).take(i + 1));
            i = i + 1;
        }
        assert(divided_terms(self@, rhs as int).take(self.terms.len() as int) =~= divided_terms(
            self@,
            rhs as int,
        ));
        Polynomial { terms }
    }

    /// Negation as this library defines it: the terms are returned as they
    /// are (the negated copy is discarded).
    pub fn neg(self) -> (r: Polynomial<VARIABLES>)
        requires
            forall|k: int|
                0 <= k < self.terms@.len() ==> #[trigger] self.terms@[k].coefficient != i64::MIN,
        ensures
            r@ == self@,
    {
        let mut terms = self.terms.clone();
        let mut i: usize = 0;
        while i < terms.len()
            invariant
                i <= terms.len(),
                terms@.len() == self.terms@.len(),
                forall|k: int| i <= k < terms@.len() ==> #[trigger] terms@[k] == self.terms@[k],
                forall|k: int|
                    0 <= k < self.terms@.len() ==> #[trigger] self.terms@[k].coefficient
                        != i64::MIN,
            decreases terms.len() - i,
        {
            let mut term = terms[i];
            term.coefficient = -term.coefficient;
            terms.set(i, term);
            i = i + 1;
        }
        Polynomial { terms: self.terms }
    }
}

/// Exponents of two terms that may be added with powers still computed
/// exactly: non-negative, and their sums within `u32`.
pub open spec fn exponents_addable(a: Seq<int>, b: Seq<int>) -> bool {
    &&& a.len() == b.len()
    &&& forall|v: int|
        0 <= v < a.len() ==> 0 <= #[trigger] a[v] && 0 <= #[trigger] b[v] && a[v] + b[v]
            <= u32::MAX
}

proof fn lemma_power_prefix_product(
    c1: int,
    c2: int,
    e1: Seq<int>,
    e2: Seq<int>,
    point: Seq<i64>,
    k: int,
)
    requires
        exponents_addable(e1, e2),
        k <= e1.len(),
    ensures
        power_prefix(c1 * c2, exponents_sum(e1, e2), point, k) == power_prefix(c1, e1, point, k)
            * power_prefix(c2, e2, point, k),
    decreases k,
{
    if k > 0 {
        lemma_power_prefix_product(c1, c2, e1, e2, point, k - 1);
        let x = point[k - 1] as int;
        let a = e1[k - 1];
        let b = e2[k - 1];
        assert(exponents_sum(e1, e2)[k - 1] == a + b);
        assert(0 <= a && 0 <= b && a + b <= u32::MAX);
        assert(((a + b) as u32) as nat == a + b);
        assert((a as u32) as nat == a);
        assert((b as u32) as nat == b);
        lemma_pow_adds(x, a as nat, b as nat);
        let p1 = power_prefix(c1, e1, point, k - 1);
        let p2 = power_prefix(c2, e2, point, k - 1);
        let f = pow(x, a as nat);
        let g = pow(x, b as nat);
        assert((p1 * p2) * (f * g) == (p1 * f) * (p2 * g)) by (nonlinear_arith);
    }
}

/// The value of a product of terms is the product of their values.
pub proof fn lemma_term_product_value(x: TermView, y: TermView, point: Seq<i64>)
    requires
        exponents_addable(x.1, y.1),
    ensures
        term_value(term_product(x, y), point) == term_value(x, point) * term_value(y, point),
{
    lemma_power_prefix_product(x.0, y.0, x.1, y.1, point, x.1.len() as int);
}

proof fn lemma_seq_sum_bounds(s: Seq<int>, v: int)
    requires
        forall|i: int| 0 <= i < s.len() ==> 0 <= #[trigger] s[i],
        0 <= v < s.len(),
    ensures
        s[v] <= seq_sum(s),
        0 <= seq_sum(s),
    decreases s.len(),
{
    let t = s.drop_first();
    assert forall|i: int| 0 <= i < t.len() implies 0 <= #[trigger] t[i] by {
        assert(t[i] == s[i + 1]);
    }
    assert(seq_sum(s) == s[0] + seq_sum(t));
    if v > 0 {
        lemma_seq_sum_bounds(t, v - 1);
        assert(t[v - 1] == s[v]);
        assert(0 <= s[0]);
    } else if s.len() > 1 {
        lemma_seq_sum_bounds(t, 0);
    } else {
        assert(t.len() == 0);
        assert(seq_sum(t) == 0);
    }
}

proof fn lemma_monomial_exponents_nonneg<const VARIABLES: usize>(m: Monomial<VARIABLES>)
    ensures
        forall|v: int| 0 <= v < m@.1.len() ==> 0 <= #[trigger] m@.1[v] <= term_degree(m@),
        m@.1.len() == VARIABLES,
        0 <= term_degree(m@),
{
    assert forall|v: int| 0 <= v < m@.1.len() implies 0 <= #[trigger] m@.1[v] <= term_degree(
        m@,
    ) by {
        lemma_seq_sum_bounds(m@.1, v);
    }
    if VARIABLES > 0 {
        lemma_seq_sum_bounds(m@.1, 0);
    }
}

proof fn lemma_product_row_value<const VARIABLES: usize>(
    x: Monomial<VARIABLES>,
    b: Seq<Monomial<VARIABLES>>,
    point: Seq<i64>,
)
    requires
        forall|j: int|
            0 <= j < b.len() ==> term_degree(x@) + term_degree(#[trigger] b[j]@) <= TRUNC_DEGREE,
    ensures
        sum_value(product_row(x@, terms_view(b)), point) == term_value(x@, point) * sum_value(
            terms_view(b),
            point,
        ),
    decreases b.len(),
{
    let vb = terms_view(b);
    if b.len() == 0 {
        assert(term_value(x@, point) * 0 == 0) by (nonlinear_arith);
    } else {
        let bl = b.drop_last();
        assert(terms_view(bl) =~= vb.drop_last());
        assert(vb.last() == b.last()@);
        assert forall|j: int|
            0 <= j < bl.len() implies term_degree(x@) + term_degree(#[trigger] bl[j]@)
            <= TRUNC_DEGREE by {
            assert(bl[j] == b[j]);
        }
        lemma_product_row_value(x, bl, point);
        assert(term_degree(x@) + term_degree(b[b.len() - 1]@) <= TRUNC_DEGREE);
        lemma_monomial_exponents_nonneg(x);
        lemma_monomial_exponents_nonneg(b.last());
        assert(exponents_addable(x@.1, b.last()@.1));
        lemma_term_product_value(x@, b.last()@, point);
        lemma_sum_value_push(
            product_row(x@, vb.drop_last()),
            term_product(x@, vb.last()),
            point,
        );
        lemma_sum_value_last(vb, point);
        let t = term_value(x@, point);
        let r = sum_value(vb.drop_last(), point);
        let l = term_value(vb.last(), point);
        assert(t * r + t * l == t * (r + l)) by (nonlinear_arith);
    }
}

proof fn lemma_product_terms_value<const VARIABLES: usize>(
    a: Seq<Monomial<VARIABLES>>,
    b: Seq<Monomial<VARIABLES>>,
    point: Seq<i64>,
)
    requires
        forall|i: int, j: int|
            0 <= i < a.len() && 0 <= j < b.len() ==> term_degree(#[trigger] a[i]@) + term_degree(
                #[trigger] b[j]@,
            ) <= TRUNC_DEGREE,
    ensures
        sum_value(product_terms(terms_view(a), terms_view(b)), point) == sum_value(
            terms_view(a),
            point,
        ) * sum_value(terms_view(b), point),
    decreases a.len(),
{
    let va = terms_view(a);
    let vb = terms_view(b);
    if a.len() == 0 {
        assert(0 * sum_value(vb, point) == 0) by (nonlinear_arith);
    } else {
        let al = a.drop_last();
        assert(terms_view(al) =~= va.drop_last());
        assert(va.last() == a.last()@);
        assert forall|i: int, j: int|
            0 <= i < al.len() && 0 <= j < b.len() implies term_degree(#[trigger] al[i]@)
            + term_degree(#[trigger] b[j]@) <= TRUNC_DEGREE by {
            assert(al[i] == a[i]);
        }
        lemma_product_terms_value(al, b, point);
        assert forall|j: int|
            0 <= j < b.len() implies term_degree(a.last()@) + term_degree(#[trigger] b[j]@)
            <= TRUNC_DEGREE by {
            assert(a.last() == a[a.len() - 1]);
        }
        lemma_product_row_value(a.last(), b, point);
        lemma_sum_value_concat(product_terms(va.drop_last(), vb), product_row(va.last(), vb), point);
        lemma_sum_value_last(va, point);
        let r = sum_value(va.drop_last(), point);
        let l = term_value(va.last(), point);
        let q = sum_value(vb, point);
        assert(r * q + l * q == (r + l) * q) by (nonlinear_arith);
    }
}

/// When no product of terms exceeds `TRUNC_DEGREE`, the value of a product
/// of polynomials is the product of their values.
pub proof fn lemma_mul_value<const VARIABLES: usize>(
    p: Polynomial<VARIABLES>,
    q: Polynomial<VARIABLES>,
    point: Seq<i64>,
)
    requires
        forall|i: int, j: int|
            0 <= i < p.terms@.len() && 0 <= j < q.terms@.len() ==> term_degree(
                #[trigger] p.terms@[i]@,
            ) + term_degree(#[trigger] q.terms@[j]@) <= TRUNC_DEGREE,
    ensures
        sum_value(consolidated(product_terms(p@, q@)), point) == sum_value(p@, point) * sum_value(
            q@,
            point,
        ),
{
    lemma_product_terms_value(p.terms@, q.terms@, point);
    lemma_consolidated_value(product_terms(p@, q@), point);
}

/// The value of a monomial product is the product of the values, when the
/// summed exponents stay within `u32`.
pub proof fn lemma_monomial_mul_value<const VARIABLES: usize>(
    a: Monomial<VARIABLES>,
    b: Monomial<VARIABLES>,
    point: Seq<i64>,
)
    requires
        forall|v: int|
            0 <= v < VARIABLES ==> #[trigger] a.exponents@[v] + b.exponents@[v] <= u32::MAX,
    ensures
        term_value(term_product(a@, b@), point) == term_value(a@, point) * term_value(b@, point),
{
    lemma_monomial_exponents_nonneg(a);
    lemma_monomial_exponents_nonneg(b);
    assert forall|v: int| 0 <= v < a@.1.len() implies 0 <= #[trigger] a@.1[v] && 0
        <= #[trigger] b@.1[v] && a@.1[v] + b@.1[v] <= u32::MAX by {
        assert(a@.1[v] == a.exponents@[v] as int);
        assert(b@.1[v] == b.exponents@[v] as int);
    }
    lemma_term_product_value(a@, b@, point);
}

proof fn lemma_scaled_value(s: Seq<TermView>, n: int, point: Seq<i64>)
    ensures
        sum_value(scaled_terms(s, n), point) == n * sum_value(s, point),
    decreases s.len(),
{
    if s.len() == 0 {
        assert(n * 0 == 0) by (nonlinear_arith);
    } else {
        lemma_scaled_value(s.drop_first(), n, point);
        assert(scaled_terms(s, n).drop_first() =~= scaled_terms(s.drop_first(), n));
        lemma_term_value_linear(s[0], point);
        lemma_term_value_linear((s[0].0 * n, s[0].1), point);
        let c = s[0].0;
        let e = term_value((1, s[0].1), point);
        let r = sum_value(s.drop_first(), point);
        assert((c * n) * e + n * r == n * (c * e + r)) by (nonlinear_arith);
    }
}

/// Multiplying by a scalar multiplies the value.
pub proof fn lemma_mul_scalar_value<const VARIABLES: usize>(
    p: Polynomial<VARIABLES>,
    n: i64,
    point: Seq<i64>,
)
    ensures
        sum_value(consolidated(scaled_terms(p@, n as int)), point) == n * sum_value(p@, point),
{
    lemma_consolidated_value(scaled_terms(p@, n as int), point);
    lemma_scaled_value(p@, n as int, point);
}

/// The value of a monomial is its coefficient times the value of its
/// exponents (what `res` and `eval_exp` compute).
pub proof fn lemma_eval_is_coefficient_times_res<const VARIABLES: usize>(
    m: Monomial<VARIABLES>,
    point: Seq<i64>,
)
    ensures
        term_value(m@, point) == m.coefficient * term_value((1, m@.1), point),
{
    lemma_term_value_linear(m@, point);
}

/// `combine_res` is the product of the two monomials' `res`, when the
/// summed exponents stay within `u32`.
pub proof fn lemma_combine_res_is_product<const VARIABLES: usize>(
    a: Monomial<VARIABLES>,
    b: Monomial<VARIABLES>,
    point: Seq<i64>,
)
    requires
        forall|v: int|
            0 <= v < VARIABLES ==> #[trigger] a.exponents@[v] + b.exponents@[v] <= u32::MAX,
    ensures
        term_value((1, exponents_sum(a@.1, b@.1)), point) == term_value((1, a@.1), point)
            * term_value((1, b@.1), point),
{
    lemma_monomial_exponents_nonneg(a);
    lemma_monomial_exponents_nonneg(b);
    assert forall|v: int| 0 <= v < a@.1.len() implies 0 <= #[trigger] a@.1[v] && 0
        <= #[trigger] b@.1[v] && a@.1[v] + b@.1[v] <= u32::MAX by {
        assert(a@.1[v] == a.exponents@[v] as int);
        assert(b@.1[v] == b.exponents@[v] as int);
    }
    lemma_power_prefix_product(1, 1, a@.1, b@.1, point, a@.1.len() as int);
}


/// Every term of a merge has exponents above `y` when every term of both
/// operands has.
proof fn lemma_merged_above(a: Seq<TermView>, b: Seq<TermView>, subtract: bool, y: Seq<int>)
    requires
        forall|k: int| 0 <= k < a.len() ==> exps_lt(y, (#[trigger] a[k]).1),
        forall|k: int| 0 <= k < b.len() ==> exps_lt(y, (#[trigger] b[k]).1),
    ensures
        forall|i: int|
            0 <= i < merged(a, b, subtract).len() ==> exps_lt(
                y,
                (#[trigger] merged(a, b, subtract)[i]).1,
            ),
    decreases a.len() + b.len(),
{
    let m = merged(a, b, subtract);
    if a.len() == 0 && b.len() == 0 {
    } else if b.len() == 0 || (a.len() > 0 && exps_lt(a[0].1, b[0].1)) {
        lemma_merged_above(a.drop_first(), b, subtract, y);
        assert forall|i: int| 0 <= i < m.len() implies exps_lt(y, (#[trigger] m[i]).1) by {
            if i > 0 {
                assert(m[i] == merged(a.drop_first(), b, subtract)[i - 1]);
            } else {
                assert(m[0] == a[0]);
            }
        }
    } else if a.len() > 0 && a[0].1 == b[0].1 {
        lemma_merged_above(a.drop_first(), b.drop_first(), subtract, y);
        assert forall|i: int| 0 <= i < m.len() implies exps_lt(y, (#[trigger] m[i]).1) by {
            if i > 0 {
                assert(m[i] == merged(a.drop_first(), b.drop_first(), subtract)[i - 1]);
            } else {
                assert(m[0].1 == a[0].1);
            }
        }
    } else {
        lemma_merged_above(a, b.drop_first(), subtract, y);
        assert forall|i: int| 0 <= i < m.len() implies exps_lt(y, (#[trigger] m[i]).1) by {
            if i > 0 {
                assert(m[i] == merged(a, b.drop_first(), subtract)[i - 1]);
            } else {
                assert(m[0].1 == b[0].1);
            }
        }
    }
}

/// A term in front of a strictly ascending sequence whose terms all lie
/// above it keeps the sequence strictly ascending.
proof fn lemma_sorted_strict_cons(h: TermView, t: Seq<TermView>)
    requires
        sorted_strict(t),
        forall|i: int| 0 <= i < t.len() ==> exps_lt(h.1, (#[trigger] t[i]).1),
    ensures
        sorted_strict(seq![h] + t),
{
    let c = seq![h] + t;
    assert forall|i: int, j: int| 0 <= i < j < c.len() implies exps_lt(c[i].1, c[j].1) by {
        assert(c[j] == t[j - 1]);
        if i > 0 {
            assert(c[i] == t[i - 1]);
        } else {
            assert(c[i] == h);
        }
    }
}

/// Merging two strictly ascending term sequences of one arity gives a
/// strictly ascending sequence.
pub proof fn lemma_merged_strict(a: Seq<TermView>, b: Seq<TermView>, subtract: bool, n: int)
    requires
        sorted_strict(a),
        sorted_strict(b),
        uniform_len(a, n),
        uniform_len(b, n),
    ensures
        sorted_strict(merged(a, b, subtract)),
    decreases a.len() + b.len(),
{
    if a.len() == 0 && b.len() == 0 {
    } else if b.len() == 0 || (a.len() > 0 && exps_lt(a[0].1, b[0].1)) {
        let a1 = a.drop_first();
        assert(sorted_strict(a1)) by {
            assert forall|i: int, j: int| 0 <= i < j < a1.len() implies exps_lt(
                a1[i].1,
                a1[j].1,
            ) by {
                assert(a1[i] == a[i + 1] && a1[j] == a[j + 1]);
            }
        }
        assert(uniform_len(a1, n)) by {
            assert forall|i: int| 0 <= i < a1.len() implies (#[trigger] a1[i]).1.len() == n by {
                assert(a1[i] == a[i + 1]);
            }
        }
        lemma_merged_strict(a1, b, subtract, n);
        assert forall|k: int| 0 <= k < a1.len() implies exps_lt(a[0].1, (#[trigger] a1[k]).1) by {
            assert(a1[k] == a[k + 1]);
        }
        assert forall|k: int| 0 <= k < b.len() implies exps_lt(a[0].1, (#[trigger] b[k]).1) by {
            if k > 0 {
                lemma_exps_lt_transitive(a[0].1, b[0].1, b[k].1);
            }
        }
        lemma_merged_above(a1, b, subtract, a[0].1);
        lemma_sorted_strict_cons(a[0], merged(a1, b, subtract));
    } else if a.len() > 0 && a[0].1 == b[0].1 {
        let a1 = a.drop_first();
        let b1 = b.drop_first();
        assert(sorted_strict(a1)) by {
            assert forall|i: int, j: int| 0 <= i < j < a1.len() implies exps_lt(
                a1[i].1,
                a1[j].1,
            ) by {
                assert(a1[i] == a[i + 1] && a1[j] == a[j + 1]);
            }
        }
        assert(sorted_strict(b1)) by {
            assert forall|i: int, j: int| 0 <= i < j < b1.len() implies exps_lt(
                b1[i].1,
                b1[j].1,
            ) by {
                assert(b1[i] == b[i + 1] && b1[j] == b[j + 1]);
            }
        }
        assert(uniform_len(a1, n)) by {
            assert forall|i: int| 0 <= i < a1.len() implies (#[trigger] a1[i]).1.len() == n by {
                assert(a1[i] == a[i + 1]);
            }
        }
        assert(uniform_len(b1, n)) by {
            assert forall|i: int| 0 <= i < b1.len() implies (#[trigger] b1[i]).1.len() == n by {
                assert(b1[i] == b[i + 1]);
            }
        }
        lemma_merged_strict(a1, b1, subtract, n);
        assert forall|k: int| 0 <= k < a1.len() implies exps_lt(a[0].1, (#[trigger] a1[k]).1) by {
            assert(a1[k] == a[k + 1]);
        }
        assert forall|k: int| 0 <= k < b1.len() implies exps_lt(a[0].1, (#[trigger] b1[k]).1) by {
            assert(b1[k] == b[k + 1]);
        }
        lemma_merged_above(a1, b1, subtract, a[0].1);
        let h = (combined_coefficient(a[0].0, b[0].0, subtract), a[0].1);
        lemma_sorted_strict_cons(h, merged(a1, b1, subtract));
    } else {
        let b1 = b.drop_first();
        assert(sorted_strict(b1)) by {
            assert forall|i: int, j: int| 0 <= i < j < b1.len() implies exps_lt(
                b1[i].1,
                b1[j].1,
            ) by {
                assert(b1[i] == b[i + 1] && b1[j] == b[j + 1]);
            }
        }
        assert(uniform_len(b1, n)) by {
            assert forall|i: int| 0 <= i < b1.len() implies (#[trigger] b1[i]).1.len() == n by {
                assert(b1[i] == b[i + 1]);
            }
        }
        lemma_merged_strict(a, b1, subtract, n);
        if a.len() > 0 {
            lemma_exps_total(a[0].1, b[0].1);
        }
        assert forall|k: int| 0 <= k < a.len() implies exps_lt(b[0].1, (#[trigger] a[k]).1) by {
            if k > 0 {
                lemma_exps_lt_transitive(b[0].1, a[0].1, a[k].1);
            }
        }
        assert forall|k: int| 0 <= k < b1.len() implies exps_lt(b[0].1, (#[trigger] b1[k]).1) by {
            assert(b1[k] == b[k + 1]);
        }
        lemma_merged_above(a, b1, subtract, b[0].1);
        let h = (right_coefficient(b[0].0, subtract), b[0].1);
        lemma_sorted_strict_cons(h, merged(a, b1, subtract));
    }
}

/// Every term kept by `nonzero_terms` lies below `y` when every term of
/// the input does.
proof fn lemma_nonzero_terms_below(s: Seq<TermView>, y: Seq<int>)
    requires
        forall|k: int| 0 <= k < s.len() ==> exps_lt((#[trigger] s[k]).1, y),
    ensures
        forall|i: int|
            0 <= i < nonzero_terms(s).len() ==> exps_lt((#[trigger] nonzero_terms(s)[i]).1, y),
    decreases s.len(),
{
    if s.len() > 0 {
        let sl = s.drop_last();
        assert forall|k: int| 0 <= k < sl.len() implies exps_lt((#[trigger] sl[k]).1, y) by {
            assert(sl[k] == s[k]);
        }
        lemma_nonzero_terms_below(sl, y);
        let r = nonzero_terms(sl);
        let c = nonzero_terms(s);
        assert forall|i: int| 0 <= i < c.len() implies exps_lt((#[trigger] c[i]).1, y) by {
            if i < r.len() {
                assert(c[i] == r[i]);
            } else {
                assert(c[i] == s.last());
            }
        }
    }
}

/// Leaving out the zero terms keeps a strictly ascending sequence strictly
/// ascending.
pub proof fn lemma_nonzero_terms_strict(s: Seq<TermView>)
    requires
        sorted_strict(s),
    ensures
        sorted_strict(nonzero_terms(s)),
    decreases s.len(),
{
    if s.len() > 0 {
        let sl = s.drop_last();
        assert(sorted_strict(sl)) by {
            assert forall|i: int, j: int| 0 <= i < j < sl.len() implies exps_lt(
                sl[i].1,
                sl[j].1,
            ) by {
                assert(sl[i] == s[i] && sl[j] == s[j]);
            }
        }
        lemma_nonzero_terms_strict(sl);
        let r = nonzero_terms(sl);
        assert forall|k: int| 0 <= k < sl.len() implies exps_lt((#[trigger] sl[k]).1, s.last().1) by {
            assert(sl[k] == s[k]);
        }
        lemma_nonzero_terms_below(sl, s.last().1);
        if s.last().0 != 0 {
            let c = r.push(s.last());
            assert forall|i: int, j: int| 0 <= i < j < c.len() implies exps_lt(c[i].1, c[j].1) by {
                assert(c[i] == r[i]);
                if j < r.len() {
                    assert(c[j] == r[j]);
                }
            }
        }
    }
}

/// The sum and the difference of two polynomials whose terms are in
/// strictly ascending order of exponents again have their terms in
/// strictly ascending order.
pub proof fn lemma_add_sub_sorted<const VARIABLES: usize>(
    p: Polynomial<VARIABLES>,
    q: Polynomial<VARIABLES>,
    subtract: bool,
)
    requires
        sorted_strict(p@),
        sorted_strict(q@),
    ensures
        sorted_strict(nonzero_terms(merged(p@, q@, subtract))),
{
    lemma_terms_view_uniform(p.terms@);
    lemma_terms_view_uniform(q.terms@);
    lemma_merged_strict(p@, q@, subtract, VARIABLES as int);
    lemma_nonzero_terms_strict(merged(p@, q@, subtract));
}

/// Consolidating terms that are already strictly ascending changes nothing.
pub proof fn lemma_consolidated_of_strict(s: Seq<TermView>)
    requires
        sorted_strict(s),
    ensures
        consolidated(s) == s,
    decreases s.len(),
{
    if s.len() > 0 {
        let sl = s.drop_last();
        assert(sorted_strict(sl)) by {
            assert forall|i: int, j: int| 0 <= i < j < sl.len() implies exps_lt(
                sl[i].1,
                sl[j].1,
            ) by {
                assert(sl[i] == s[i] && sl[j] == s[j]);
            }
        }
        lemma_consolidated_of_strict(sl);
        if sl.len() > 0 {
            assert(sl.last() == s[s.len() - 2]);
            lemma_exps_lt_asymmetric(s[s.len() - 2].1, s.last().1);
        }
        assert(sl.push(s.last()) =~= s);
    }
}

/// Scaling every coefficient by `n`, or dividing every coefficient by
/// `n`, keeps the terms of a polynomial in strictly ascending order, and
/// scaling then leaves nothing to consolidate.
pub proof fn lemma_scale_div_sorted<const VARIABLES: usize>(p: Polynomial<VARIABLES>, n: int)
    requires
        sorted_strict(p@),
    ensures
        consolidated(scaled_terms(p@, n)) == scaled_terms(p@, n),
        sorted_strict(scaled_terms(p@, n)),
        sorted_strict(divided_terms(p@, n)),
{
    let s = scaled_terms(p@, n);
    let d = divided_terms(p@, n);
    assert forall|i: int, j: int| 0 <= i < j < s.len() implies exps_lt(s[i].1, s[j].1) by {
        assert(s[i].1 == p@[i].1 && s[j].1 == p@[j].1);
    }
    assert forall|i: int, j: int| 0 <= i < j < d.len() implies exps_lt(d[i].1, d[j].1) by {
        assert(d[i].1 == p@[i].1 && d[j].1 == p@[j].1);
    }
    lemma_consolidated_of_strict(s);
}

/// No two neighbouring terms have the same exponents.
pub open spec fn adjacent_distinct(s: Seq<TermView>) -> bool {
    forall|i: int| 0 < i < s.len() ==> (#[trigger] s[i]).1 != s[i - 1].1
}

proof fn lemma_consolidated_adjacent_distinct(s: Seq<TermView>)
    ensures
        adjacent_distinct(consolidated(s)),
    decreases s.len(),
{
    if s.len() > 0 {
        let sl = s.drop_last();
        lemma_consolidated_adjacent_distinct(sl);
        let r = consolidated(sl);
        let c = consolidated(s);
        let x = s.last();
        if r.len() > 0 && r.last().1 == x.1 {
            assert forall|i: int| 0 < i < c.len() implies (#[trigger] c[i]).1 != c[i - 1].1 by {
                assert(c[i].1 == r[i].1);
                assert(c[i - 1].1 == r[i - 1].1);
            }
        } else {
            assert forall|i: int| 0 < i < c.len() implies (#[trigger] c[i]).1 != c[i - 1].1 by {
                assert(c[i - 1] == r[i - 1]);
                if i < r.len() {
                    assert(c[i] == r[i]);
                }
            }
        }
    }
}

proof fn lemma_consolidated_of_distinct(s: Seq<TermView>)
    requires
        adjacent_distinct(s),
    ensures
        consolidated(s) == s,
    decreases s.len(),
{
    if s.len() > 0 {
        let sl = s.drop_last();
        assert(adjacent_distinct(sl)) by {
            assert forall|i: int| 0 < i < sl.len() implies (#[trigger] sl[i]).1 != sl[i - 1].1 by {
                assert(sl[i] == s[i] && sl[i - 1] == s[i - 1]);
            }
        }
        lemma_consolidated_of_distinct(sl);
        if sl.len() > 0 {
            assert(s[s.len() - 1].1 != s[s.len() - 2].1);
            assert(sl.last() == s[s.len() - 2]);
        }
        assert(sl.push(s.last()) =~= s);
    }
}

/// Consolidating twice is consolidating once: after one pass no two
/// neighbouring terms are alike.
pub proof fn lemma_consolidate_idempotent(s: Seq<TermView>)
    ensures
        consolidated(consolidated(s)) == consolidated(s),
{
    lemma_consolidated_adjacent_distinct(s);
    lemma_consolidated_of_distinct(consolidated(s));
}

proof fn lemma_insert_stable_multiset(t: Seq<TermView>, x: TermView)
    ensures
        insert_stable(t, x).to_multiset() =~= t.to_multiset().insert(x),
    decreases t.len(),
{
    broadcast use vstd::seq_lib::group_to_multiset_ensures;

    if t.len() == 0 {
        assert(seq![x] =~= t.push(x));
    } else if exps_le(t.last().1, x.1) {
    } else {
        let tl = t.drop_last();
        lemma_insert_stable_multiset(tl, x);
        assert(tl.push(t.last()) =~= t);
    }
}

/// Sorting keeps the terms: the sorted sequence holds each term as often
/// as the input does.
pub proof fn lemma_stable_sorted_multiset(s: Seq<TermView>)
    ensures
        stable_sorted(s).to_multiset() =~= s.to_multiset(),
    decreases s.len(),
{
    broadcast use vstd::seq_lib::group_to_multiset_ensures;

    if s.len() > 0 {
        let sl = s.drop_last();
        lemma_stable_sorted_multiset(sl);
        lemma_insert_stable_multiset(stable_sorted(sl), s.last());
        assert(sl.push(s.last()) =~= s);
    }
}

} // verus!
