use polynomial_optics::dense_polynom::{Polynom2d, Polynom4d};

fn corners4<const D: usize>(f: &Polynom4d<D>) -> Vec<(i64, i64, i64, i64, i64)> {
    let mut p = vec![];
    for i in &[-1i64, 1] {
        for j in &[-1i64, 1] {
            for k in &[-1i64, 1] {
                for l in &[-1i64, 1] {
                    p.push((*i, *j, *k, *l, f.eval(*i, *j, *k, *l)));
                }
            }
        }
    }
    p
}

#[test]
fn dense2_eval_sums_grid() {
    let f = Polynom2d { coefficients: [[380, 47], [3, 1]] };
    assert_eq!(f.eval(1, 1), 380 + 47 + 3 + 1);
    assert_eq!(f.eval(2, 5), 380 + 47 * 5 + 3 * 2 + 2 * 5);
    assert_eq!(f.eval(0, 0), 380);
}

#[test]
fn dense2_fit_reproduces_polynomial_at_corners() {
    let f = Polynom2d { coefficients: [[380, 47], [3, 1]] };
    let p = vec![
        (1, 1, f.eval(1, 1)),
        (-1, 1, f.eval(-1, 1)),
        (1, -1, f.eval(1, -1)),
        (-1, -1, f.eval(-1, -1)),
    ];
    let res = Polynom2d::<2>::fit(p);
    assert!(f.eq(&res));
    assert_eq!(res.coefficients, [[380, 47], [3, 1]]);
}

#[test]
fn dense2_fit_divides_toward_zero() {
    let res = Polynom2d::<1>::fit(vec![(1, 1, 3), (1, 1, 4)]);
    assert_eq!(res.coefficients, [[3]]);
    let res = Polynom2d::<1>::fit(vec![(1, 1, -3), (1, 1, -4)]);
    assert_eq!(res.coefficients, [[-3]]);
}

#[test]
fn dense2_add_adds_coefficients() {
    let f = Polynom2d { coefficients: [[382, 47], [3, 1]] };
    let g = Polynom2d { coefficients: [[3, 2], [1, 4]] };
    let res = Polynom2d { coefficients: [[385, 49], [4, 5]] };
    assert!(f.add(g).eq(&res));
    assert_eq!(f.add(g).eval(2, 3), f.eval(2, 3) + g.eval(2, 3));
}

#[test]
fn dense2_sub_subtracts_coefficients() {
    let f = Polynom2d { coefficients: [[382, 47], [3, 1]] };
    let g = Polynom2d { coefficients: [[3, 2], [1, 4]] };
    let res = Polynom2d { coefficients: [[379, 45], [2, -3]] };
    assert!(f.sub(g).eq(&res));
    assert_eq!(f.sub(g).eval(-2, 3), f.eval(-2, 3) - g.eval(-2, 3));
}

#[test]
fn dense2_add_then_sub_gives_back() {
    let f = Polynom2d { coefficients: [[5, -6, 7], [0, 1, 2], [9, 9, -9]] };
    let g = Polynom2d { coefficients: [[1, 2, 3], [4, 5, 6], [7, 8, 9]] };
    assert!(f.add(g).sub(g).eq(&f));
}

#[test]
fn dense2_eq_compares_all_coefficients() {
    let f = Polynom2d { coefficients: [[1, 2], [3, 4]] };
    let g = Polynom2d { coefficients: [[1, 2], [3, 5]] };
    assert!(f.eq(&f));
    assert!(!f.eq(&g));
}

#[test]
fn dense4_eval_sums_grid() {
    let f = Polynom4d { coefficients: [[[[1, 2], [1, 2]], [[1, 2], [1, 2]]], [[[1, 2], [1, 2]], [[1, 2], [1, 2]]]] };
    // (1 + 2w) summed over the eight choices of x^i y^j z^k
    assert_eq!(f.eval(1, 1, 1, 1), 8 * 3);
    assert_eq!(f.eval(0, 0, 0, 5), 11);
    assert_eq!(f.eval(2, 1, 1, 0), (1 + 2) * 2 * 2);
}

#[test]
fn dense4_fit_reproduces_polynomial_at_corners() {
    let f = Polynom4d { coefficients: [[[[1, 2], [1, 2]], [[1, 2], [1, 2]]], [[[1, 2], [1, 2]], [[1, 2], [1, 2]]]] };
    let p = corners4(&f);
    assert_eq!(p.len(), 16);
    let res = Polynom4d::<2>::fit(p);
    assert!(f.eq(&res));
}

#[test]
fn dense4_fit_distinct_coefficients() {
    let f = Polynom4d { coefficients: [[[[3, -2], [5, 7]], [[11, 13], [-17, 19]]], [[[23, 29], [31, -37]], [[41, 43], [47, 53]]]] };
    let res = Polynom4d::<2>::fit(corners4(&f));
    assert_eq!(res.coefficients, f.coefficients);
}

#[test]
fn dense4_add_sub_eq() {
    let f = Polynom4d { coefficients: [[[[1, 2], [3, 4]], [[5, 6], [7, 8]]], [[[9, 10], [11, 12]], [[13, 14], [15, 16]]]] };
    let g = Polynom4d { coefficients: [[[[1, 1], [1, 1]], [[1, 1], [1, 1]]], [[[1, 1], [1, 1]], [[1, 1], [1, 1]]]] };
    let sum = f.add(g);
    assert_eq!(sum.coefficients[1][0][1][0], 12);
    assert_eq!(sum.eval(1, 2, 3, 4), f.eval(1, 2, 3, 4) + g.eval(1, 2, 3, 4));
    let diff = f.sub(g);
    assert_eq!(diff.coefficients[0][0][0][0], 0);
    assert_eq!(diff.eval(-1, 2, 0, 3), f.eval(-1, 2, 0, 3) - g.eval(-1, 2, 0, 3));
    assert!(sum.sub(g).eq(&f));
    assert!(!sum.eq(&f));
}
