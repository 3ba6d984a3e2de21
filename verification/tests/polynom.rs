use polynomial_optics::polynom::{Polynom2d, Polynom4d};

#[test]
fn triangular2_terms_in_lexicographic_order() {
    assert_eq!(Polynom2d::<3>::get_terms(), vec![(0, 0), (0, 1), (0, 2), (1, 0), (1, 1), (2, 0)]);
    assert_eq!(Polynom2d::<0>::get_terms(), vec![]);
    assert_eq!(Polynom2d::<1>::get_terms(), vec![(0, 0)]);
}

#[test]
fn triangular2_num_terms_is_triangle_number() {
    assert_eq!(Polynom2d::<0>::get_num_terms(), 0);
    assert_eq!(Polynom2d::<3>::get_num_terms(), 6);
    assert_eq!(Polynom2d::<10>::get_num_terms(), 55);
    assert_eq!(Polynom2d::<7>::get_num_terms(), Polynom2d::<7>::get_terms().len());
}

#[test]
fn triangular2_eval_pairs_coefficients_with_terms() {
    // 5 + 2y + 3x at DEGREE 2: terms (0,0), (0,1), (1,0)
    let p = Polynom2d::<2> { coefficients: vec![5, 2, 3] };
    assert_eq!(p.eval(10, 100), 5 + 200 + 30);
    assert_eq!(p.eval(0, 0), 5);
}

#[test]
fn triangular2_eval_ignores_extra_and_missing_coefficients() {
    let short = Polynom2d::<3> { coefficients: vec![1, 1] };
    assert_eq!(short.eval(2, 3), 1 + 3);
    let long = Polynom2d::<1> { coefficients: vec![4, 100, 100] };
    assert_eq!(long.eval(2, 3), 4);
}

#[test]
fn triangular2_eval_grid_rows_are_y() {
    let p = Polynom2d::<2> { coefficients: vec![5, 2, 3] };
    let grid = p.eval_grid(&[0, 1, 2], &[10, 20]);
    assert_eq!(grid.len(), 2);
    assert_eq!(grid[0], vec![25, 28, 31]);
    assert_eq!(grid[1], vec![45, 48, 51]);
    assert_eq!(grid[1][2], p.eval(2, 20));
    assert!(p.eval_grid(&[], &[1]).iter().all(|row| row.is_empty()));
}

#[test]
fn triangular2_add_sub_coefficientwise() {
    let f = Polynom2d::<2> { coefficients: vec![382, 47, 3] };
    let g = Polynom2d::<2> { coefficients: vec![3, 2, 1] };
    assert_eq!(f.add(&g).coefficients, vec![385, 49, 4]);
    assert_eq!(f.sub(&g).coefficients, vec![379, 45, 2]);
    assert!(f.add(&g).eq(&Polynom2d { coefficients: vec![385, 49, 4] }));
    assert_eq!(f.add(&g).eval(3, -2), f.eval(3, -2) + g.eval(3, -2));
    assert_eq!(f.sub(&g).eval(3, -2), f.eval(3, -2) - g.eval(3, -2));
}

#[test]
fn triangular2_add_stops_at_shorter() {
    let f = Polynom2d::<2> { coefficients: vec![1, 2, 3] };
    let g = Polynom2d::<2> { coefficients: vec![10] };
    assert_eq!(f.add(&g).coefficients, vec![11]);
}

#[test]
fn triangular2_eq_compares_common_prefix() {
    let f = Polynom2d::<2> { coefficients: vec![1, 2, 3] };
    let g = Polynom2d::<2> { coefficients: vec![1, 2] };
    let h = Polynom2d::<2> { coefficients: vec![1, 9, 3] };
    assert!(f.eq(&g));
    assert!(!f.eq(&h));
}

#[test]
fn triangular2_get_monomial() {
    let p = Polynom2d::<2> { coefficients: vec![] };
    let m = p.get_monomial(1, 4, -6);
    assert_eq!(m.coefficient, -6);
    assert_eq!(m.exponents, [1, 4]);
}

#[test]
fn triangular4_terms_in_lexicographic_order() {
    assert_eq!(
        Polynom4d::<2>::get_terms(),
        vec![(0, 0, 0, 0), (0, 0, 0, 1), (0, 0, 1, 0), (0, 1, 0, 0), (1, 0, 0, 0)]
    );
    let t = Polynom4d::<4>::get_terms();
    assert!(t.iter().all(|&(i, j, k, l)| i + j + k + l < 4));
    assert!(t.windows(2).all(|w| w[0] < w[1]));
}

#[test]
fn triangular4_num_terms_is_pentatope_number() {
    assert_eq!(Polynom4d::<0>::get_num_terms(), 0);
    assert_eq!(Polynom4d::<2>::get_num_terms(), 5);
    assert_eq!(Polynom4d::<3>::get_num_terms(), 15);
    assert_eq!(Polynom4d::<5>::get_num_terms(), 70);
    assert_eq!(Polynom4d::<6>::get_num_terms(), Polynom4d::<6>::get_terms().len());
}

#[test]
fn triangular4_eval_and_combine() {
    // 1 + 2w + 3z + 4y + 5x
    let p = Polynom4d::<2> { coefficients: vec![1, 2, 3, 4, 5] };
    assert_eq!(p.eval(1, 10, 100, 1000), 1 + 2000 + 300 + 40 + 5);
    let q = Polynom4d::<2> { coefficients: vec![1, 1, 1, 1, 1] };
    assert_eq!(p.add(&q).coefficients, vec![2, 3, 4, 5, 6]);
    assert_eq!(p.sub(&q).coefficients, vec![0, 1, 2, 3, 4]);
    assert_eq!(p.add(&q).eval(2, 3, 4, 5), p.eval(2, 3, 4, 5) + q.eval(2, 3, 4, 5));
    assert!(p.sub(&q).add(&q).eq(&p));
    let m = p.get_monomial(1, 0, 2, 3, 9);
    assert_eq!(m.exponents, [1, 0, 2, 3]);
    assert_eq!(m.coefficient, 9);
}
