use polynomial_optics::dense_polynom;
use polynomial_optics::polynom;
use polynomial_optics::sparse_polynom::{Monomial, Polynomial};

#[test]
fn monomial_text_omits_unit_coefficient() {
    let pol = Monomial { coefficient: 1, exponents: [2, 3, 5] };
    assert_eq!(pol.to_string(), "x^2y^3z^5");
}

#[test]
fn monomial_text_writes_other_coefficients() {
    assert_eq!(Monomial { coefficient: 5, exponents: [3, 5] }.to_string(), "5x^3y^5");
    assert_eq!(Monomial { coefficient: -1, exponents: [1, 0] }.to_string(), "-1x");
    assert_eq!(Monomial { coefficient: 12, exponents: [0, 0, 0, 1] }.to_string(), "12w");
}

#[test]
fn monomial_text_constants_and_zero() {
    assert_eq!(Monomial { coefficient: 1, exponents: [0, 0] }.to_string(), "1");
    assert_eq!(Monomial { coefficient: 0, exponents: [4, 1] }.to_string(), "");
    assert_eq!(Monomial { coefficient: i64::MIN, exponents: [0] }.to_string(), "-9223372036854775808");
}

#[test]
fn polynomial_text_empty_is_zero() {
    let p: Polynomial<2> = Polynomial::new(vec![]);
    assert_eq!(p.to_string(), "0");
}

#[test]
fn polynomial_text_joins_sorted_terms() {
    let part = Monomial { coefficient: 1, exponents: [2, 3, 5] };
    assert_eq!(Polynomial::new(vec![part, part]).to_string(), "2x^2y^3z^5");
    let p = Polynomial::new(vec![
        Monomial { coefficient: 1, exponents: [1, 0] },
        Monomial { coefficient: 2, exponents: [0, 1] },
    ]);
    assert_eq!(p.to_string(), "2y + x");
}

#[test]
fn polynomial_text_sorts_unsorted_terms_and_skips_zero() {
    let p = Polynomial { terms: vec![Monomial { coefficient: 0, exponents: [1] }, Monomial { coefficient: 3, exponents: [0] }] };
    assert_eq!(p.to_string(), "3");
    let q = Polynomial { terms: vec![Monomial { coefficient: 0, exponents: [0] }, Monomial { coefficient: 2, exponents: [1] }] };
    assert_eq!(q.to_string(), " + 2x");
}

#[test]
fn dense2_text() {
    let f = dense_polynom::Polynom2d { coefficients: [[380, 47], [3, 1]] };
    assert_eq!(f.to_string(), "380+47y+3x+1xy");
    let g = dense_polynom::Polynom2d { coefficients: [[1, -2], [3, -4]] };
    assert_eq!(g.to_string(), "1-2y+3x-4xy");
    let h = dense_polynom::Polynom2d { coefficients: [[-7, 0, 1], [0, 0, 0], [2, 0, 0]] };
    assert_eq!(h.to_string(), "-7+0y+1y^2+0x+0xy+0xy^2+2x^2+0x^2y+0x^2y^2");
}

#[test]
fn dense4_text() {
    let f = dense_polynom::Polynom4d { coefficients: [[[[1, 2], [1, 2]], [[1, 2], [1, 2]]], [[[1, 2], [1, 2]], [[1, 2], [1, 2]]]] };
    assert_eq!(
        f.to_string(),
        "1+2w+1z+2zw+1y+2yw+1yz+2yzw+1x+2xw+1xz+2xzw+1xy+2xyw+1xyz+2xyzw"
    );
}

#[test]
fn triangular_text() {
    let p = polynom::Polynom2d::<2> { coefficients: vec![5, 2, 3] };
    assert_eq!(p.to_string(), "5+2y+3x");
    let q = polynom::Polynom2d::<3> { coefficients: vec![1, 2, 3, 4, 5, -6] };
    assert_eq!(q.to_string(), "1+2y+3y^2+4x+5xy-6x^2");
    let r = polynom::Polynom4d::<2> { coefficients: vec![1, 2, 3, 4, 5] };
    assert_eq!(r.to_string(), "1+2w+3z+4y+5x");
    let empty = polynom::Polynom2d::<3> { coefficients: vec![] };
    assert_eq!(empty.to_string(), "");
}
