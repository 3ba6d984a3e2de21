use polynomial_optics::sparse_polynom::{
    compare_exponents, div_toward_zero, ExponentOrder, Monomial, Polynomial, TRUNC_DEGREE,
};

fn mono<const V: usize>(coefficient: i64, exponents: [usize; V]) -> Monomial<V> {
    Monomial { coefficient, exponents }
}

fn pairs<const V: usize>(p: &Polynomial<V>) -> Vec<(i64, [usize; V])> {
    p.terms.iter().map(|m| (m.coefficient, m.exponents)).collect()
}

#[test]
fn monomial_eval_multiplies_powers() {
    let pol = mono(1, [2, 3, 5]);
    assert_eq!(pol.eval([3, 2, 1]), 72);
    assert_eq!(pol.eval([3, 2, 2]), 9 * 8 * 32);
    let scaled = mono(-4, [2, 3, 5]);
    assert_eq!(scaled.eval([3, 2, 2]), -4 * 9 * 8 * 32);
}

#[test]
fn monomial_eval_zero_exponents_is_coefficient() {
    let pol = mono(7, [0, 0]);
    assert_eq!(pol.eval([123, -55]), 7);
}

#[test]
fn monomial_res_and_eval_exp_leave_out_coefficient() {
    let pol = mono(5, [2, 3, 5]);
    assert_eq!(pol.res([3, 2, 1]), 72);
    assert_eq!(pol.eval_exp([3, 2, 1]), 72);
    assert_eq!(pol.eval([3, 2, 1]), 360);
    assert_eq!(pol.eval([3, 2, 1]), pol.coefficient * pol.res([3, 2, 1]));
}

#[test]
fn monomial_combine_res_adds_exponents() {
    let a = mono(9, [1, 0]);
    let b = mono(-2, [0, 2]);
    assert_eq!(a.combine_res(&b, [2, 3]), 18);
    let product = a.mul(b);
    assert_eq!(product.res([2, 3]), a.combine_res(&b, [2, 3]));
}

#[test]
fn monomial_degree_sums_exponents() {
    assert_eq!(mono(1, [2, 3, 5]).degree(), 10);
    assert_eq!(mono(1, [0, 0, 0, 0]).degree(), 0);
}

#[test]
fn monomial_mul_multiplies_coefficients_and_adds_exponents() {
    let p = mono(2, [1, 2]).mul(mono(3, [0, 1]));
    assert_eq!(p.coefficient, 6);
    assert_eq!(p.exponents, [1, 3]);
    let a = mono(2, [1, 2]);
    let b = mono(3, [0, 1]);
    assert_eq!(a.mul(b).eval([5, -2]), a.eval([5, -2]) * b.eval([5, -2]));
}

#[test]
fn monomial_scale_keeps_exponents() {
    let p = mono(2, [1, 2]).scale(-4);
    assert_eq!(p.coefficient, -8);
    assert_eq!(p.exponents, [1, 2]);
}

#[test]
fn compare_exponents_is_lexicographic() {
    assert_eq!(compare_exponents(&[0, 5], &[1, 0]), ExponentOrder::Less);
    assert_eq!(compare_exponents(&[1, 0], &[0, 5]), ExponentOrder::Greater);
    assert_eq!(compare_exponents(&[2, 3], &[2, 3]), ExponentOrder::Equal);
    assert_eq!(compare_exponents(&[2, 3, 1], &[2, 3, 4]), ExponentOrder::Less);
}

#[test]
fn polynomial_new_merges_equal_terms() {
    let part1 = mono(1, [2, 3, 5]);
    let part2 = mono(1, [2, 3, 5]);
    let pol = Polynomial::new(vec![part1, part2]);
    assert_eq!(pairs(&pol), vec![(2, [2, 3, 5])]);
}

#[test]
fn polynomial_new_single_term() {
    let pol = Polynomial::new(vec![mono(1, [2, 3, 5])]);
    assert_eq!(pairs(&pol), vec![(1, [2, 3, 5])]);
}

#[test]
fn polynomial_new_sorts_and_consolidates() {
    let pol = Polynomial::new(vec![mono(1, [1, 0]), mono(2, [0, 1]), mono(3, [1, 0])]);
    assert_eq!(pairs(&pol), vec![(2, [0, 1]), (4, [1, 0])]);
}

#[test]
fn polynomial_new_keeps_value() {
    let terms = vec![mono(4, [2, 0]), mono(-1, [0, 3]), mono(6, [2, 0]), mono(5, [0, 0])];
    let direct: i64 = terms.iter().map(|m| m.eval([2, 3])).sum();
    let pol = Polynomial::new(terms);
    assert_eq!(pol.eval([2, 3]), direct);
    assert_eq!(direct, 40 - 27 + 5);
}

#[test]
fn polynomial_new_empty() {
    let pol: Polynomial<2> = Polynomial::new(vec![]);
    assert!(pol.terms.is_empty());
    assert_eq!(pol.eval([3, 4]), 0);
}

#[test]
fn polynomial_eval_sums_terms() {
    let pol = Polynomial::new(vec![mono(3, [3, 5]), mono(1, [1, 0])]);
    assert_eq!(pol.eval([1, 1]), 4);
    assert_eq!(pol.eval([2, 1]), 26);
}

#[test]
fn polynomial_consolidate_combines_neighbours() {
    let mut pol = Polynomial { terms: vec![mono(1, [0, 1]), mono(2, [0, 1]), mono(5, [1, 1]), mono(-5, [1, 1])] };
    pol.consolidate();
    assert_eq!(pairs(&pol), vec![(3, [0, 1]), (0, [1, 1])]);
}

#[test]
fn polynomial_add_merges_and_drops_zero_terms() {
    let p = Polynomial::new(vec![mono(1, [0, 1]), mono(2, [1, 0])]);
    let q = Polynomial::new(vec![mono(-1, [0, 1]), mono(5, [2, 0])]);
    let sum = p.add(&q);
    assert_eq!(pairs(&sum), vec![(2, [1, 0]), (5, [2, 0])]);
    assert_eq!(sum.eval([3, 7]), p.eval([3, 7]) + q.eval([3, 7]));
}

#[test]
fn polynomial_sub_negates_right_terms() {
    let p = Polynomial::new(vec![mono(1, [0, 1]), mono(2, [1, 0])]);
    let q = Polynomial::new(vec![mono(-1, [0, 1]), mono(5, [2, 0])]);
    let diff = p.sub(&q);
    assert_eq!(pairs(&diff), vec![(2, [0, 1]), (2, [1, 0]), (-5, [2, 0])]);
    assert_eq!(diff.eval([3, 7]), p.eval([3, 7]) - q.eval([3, 7]));
}

#[test]
fn polynomial_sub_of_itself_is_empty() {
    let p = Polynomial::new(vec![mono(4, [0, 1]), mono(-2, [3, 0])]);
    let diff = p.sub(&p);
    assert!(diff.terms.is_empty());
}

#[test]
fn polynomial_mul_expands_products() {
    let p = Polynomial::new(vec![mono(1, [0]), mono(1, [1])]);
    let q = Polynomial::new(vec![mono(-1, [0]), mono(1, [1])]);
    let prod = p.mul(&q);
    assert_eq!(pairs(&prod), vec![(-1, [0]), (0, [1]), (1, [2])]);
    assert_eq!(prod.eval([3]), 8);
    assert_eq!(prod.eval([3]), p.eval([3]) * q.eval([3]));
}

#[test]
fn polynomial_mul_doc_example_squares() {
    let part = mono(1, [2, 3, 5]);
    let pol = Polynomial::new(vec![part, part]);
    let square = pol.mul(&pol);
    assert_eq!(pairs(&square), vec![(4, [4, 6, 10])]);
}

#[test]
fn polynomial_mul_drops_terms_above_trunc_degree() {
    assert_eq!(TRUNC_DEGREE, 50);
    let high = Polynomial::new(vec![mono(1, [30]), mono(2, [1])]);
    let prod = high.mul(&high);
    assert_eq!(pairs(&prod), vec![(4, [2]), (4, [31])]);
    let edge = Polynomial::new(vec![mono(1, [25])]);
    assert_eq!(pairs(&edge.mul(&edge)), vec![(1, [50])]);
}

#[test]
fn polynomial_mul_scalar_scales_every_term() {
    let p = Polynomial::new(vec![mono(1, [0, 1]), mono(-2, [1, 0])]);
    let scaled = p.mul_scalar(3);
    assert_eq!(pairs(&scaled), vec![(3, [0, 1]), (-6, [1, 0])]);
    assert_eq!(scaled.eval([4, 5]), 3 * p.eval([4, 5]));
}

#[test]
fn polynomial_div_rounds_toward_zero() {
    let p = Polynomial::new(vec![mono(-7, [0]), mono(7, [1])]);
    let half = p.div(2);
    assert_eq!(pairs(&half), vec![(-3, [0]), (3, [1])]);
    let neg = p.div(-2);
    assert_eq!(pairs(&neg), vec![(3, [0]), (-3, [1])]);
}

#[test]
fn div_toward_zero_matches_rust_division() {
    assert_eq!(div_toward_zero(-7, 2), -3);
    assert_eq!(div_toward_zero(7, -2), -3);
    assert_eq!(div_toward_zero(-9, -4), 2);
    assert_eq!(div_toward_zero(i64::MIN, i64::MIN), 1);
    assert_eq!(div_toward_zero(5, i64::MIN), 0);
    assert_eq!(div_toward_zero(i64::MAX, -1), -i64::MAX);
    for a in [-100i64, -33, -1, 0, 1, 17, 99] {
        for b in [-7i64, -3, -1, 1, 2, 5] {
            assert_eq!(div_toward_zero(a, b), a / b);
        }
    }
}

#[test]
fn polynomial_neg_returns_terms_unchanged() {
    let p = Polynomial::new(vec![mono(1, [0, 1]), mono(-2, [1, 0])]);
    let n = p.clone().neg();
    assert_eq!(pairs(&n), pairs(&p));
}
