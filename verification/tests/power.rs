use polynomial_optics::basic_polynom::Polynom;
use polynomial_optics::power::PowUsize;

#[test]
fn upow_integer_powers() {
    assert_eq!(3i64.upow(4), 81);
    assert_eq!((-2i64).upow(3), -8);
    assert_eq!(5i64.upow(0), 1);
    assert_eq!(0i64.upow(0), 1);
    assert_eq!(0i64.upow(7), 0);
    assert_eq!(2i64.upow(62), 1i64 << 62);
    assert_eq!((-2i64).upow(63), i64::MIN);
}

#[test]
fn basic_polynom_eval_accepts_matching_point() {
    let p = Polynom { coefficients: vec![1, 2, 3], degree: 3, variables: 2 };
    p.eval(vec![3, 4]);
    let empty = Polynom { coefficients: vec![], degree: 0, variables: 0 };
    empty.eval(vec![]);
}
