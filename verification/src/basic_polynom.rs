//! A polynomial with one coefficient per variable: the term of variable
//! `e` is `coefficients[e] * point[e]^(e + 1)`.

use vstd::prelude::*;
use crate::power::{fits_i64, ipow, PowUsize};
use crate::sparse_polynom::{seq_sum, lemma_seq_sum_push};

verus! {

#[derive(Debug, Clone)]
pub struct Polynom {
    pub coefficients: Vec<i64>,
    pub degree: usize,
    pub variables: usize,
}

/// The terms `coefficients[e] * point[e]^(e + 1)`.
pub open spec fn basic_terms(coefficients: Seq<i64>, point: Seq<i64>) -> Seq<int> {
    Seq::new(point.len(), |e: int| coefficients[e] * ipow(point[e] as int, e + 1))
}

impl Polynom {
    /// Evaluating at `point` is defined: the point has one component per
    /// variable, there is a coefficient for each, and every power, term
    /// and running sum fits in `i64`.
    pub open spec fn eval_defined(self, point: Seq<i64>) -> bool {
        &&& point.len() == self.variables
        &&& point.len() <= self.coefficients@.len()
        &&& forall|e: int|
            0 <= e < point.len() ==> fits_i64(#[trigger] ipow(point[e] as int, e + 1)) && fits_i64(
                self.coefficients@[e] * ipow(point[e] as int, e + 1),
            )
        &&& forall|k: int|
            0 <= k <= point.len() ==> fits_i64(
                #[trigger] seq_sum(basic_terms(self.coefficients@, point).take(k)),
            )
    }

    /// Computes the sum of the terms at `point` and discards it.
    pub fn eval(&self, point: Vec<i64>)
        requires
            self.eval_defined(point@),
    {
        let ghost s = basic_terms(self.coefficients@, point@);
        let mut sum: i64 = 0;
        let mut exp: usize = 0;
        assert(s.take(0) =~= Seq::<int>::empty());
        while exp < point.len()
            invariant
                exp <= point@.len(),
                self.eval_defined(point@),
                s == basic_terms(self.coefficients@, point@),
                sum == seq_sum(s.take(exp as int)),
            decreases point@.len() - exp,
        {
            let component = point[exp];
            proof {
                assert(fits_i64(ipow(point@[exp as int] as int, exp + 1)));
                assert(s.take(exp + 1) =~= s.take(exp as int).push(s[exp as int]));
                lemma_seq_sum_push(s.take(exp as int), s[exp as int]);
                assert(fits_i64(seq_sum(s.take(exp + 1))));
            }
            let term = self.coefficients[exp] * component.upow(exp + 1);
            sum = sum + term;
            exp = exp + 1;
        }
    }
}

} // verus!
