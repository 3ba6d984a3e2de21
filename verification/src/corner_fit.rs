//! Fitting samples taken at the corners of the unit square or hypercube:
//! with two exponents per variable, the fit gives back every coefficient.

use vstd::prelude::*;
use crate::power::{fits_i64, ipow};
use crate::sparse_polynom::{
    TermView, power_prefix, term_value, sum_value, lemma_sum_value_push, lemma_sum_value_concat,
    seq_sum, abs_int,
};
use crate::dense_polynom::{
    Polynom2d, Polynom4d, grid2_row, grid2_rows, fit2_coefficient, fit2_numerators,
    fit2_denominators, fit4_coefficient, fit4_numerators, fit4_denominators, sample_point4,
    in_grid4, grid4_coefficient, digits4,
};

verus! {

/// The four corners `(±1, ±1)`, each with the value of `f` there.
pub open spec fn corner_samples2(f: Polynom2d<2>) -> Seq<(i64, i64, i64)> {
    seq![
        (1i64, 1i64, f.value(1i64, 1i64) as i64),
        (-1i64, 1i64, f.value(-1i64, 1i64) as i64),
        (1i64, -1i64, f.value(1i64, -1i64) as i64),
        (-1i64, -1i64, f.value(-1i64, -1i64) as i64),
    ]
}

proof fn lemma_unit_powers(x: i64)
    requires
        x == 1 || x == -1,
    ensures
        ipow(x as int, 0) == 1,
        ipow(x as int, 1) == x,
        ipow(x as int, 2) == 1,
{
    reveal(vstd::arithmetic::power::pow);
    assert(vstd::arithmetic::power::pow(x as int, 0) == 1);
    assert(vstd::arithmetic::power::pow(x as int, 1) == x * vstd::arithmetic::power::pow(
        x as int,
        0,
    ));
    assert(vstd::arithmetic::power::pow(x as int, 2) == x * vstd::arithmetic::power::pow(
        x as int,
        1,
    ));
}

/// A term `c * x^i * y^j` at a point with coordinates `±1`.
proof fn lemma_unit_term(c: int, i: int, j: int, x: i64, y: i64)
    requires
        x == 1 || x == -1,
        y == 1 || y == -1,
        0 <= i <= 2,
        0 <= j <= 2,
    ensures
        power_prefix(c, seq![i, j], seq![x, y], 2) == c * ipow(x as int, i) * ipow(y as int, j),
{
    let e = seq![i, j];
    let p = seq![x, y];
    assert(power_prefix(c, e, p, 0) == c);
    assert(power_prefix(c, e, p, 1) == c * ipow(p[0] as int, e[0]));
    assert(power_prefix(c, e, p, 2) == power_prefix(c, e, p, 1) * ipow(p[1] as int, e[1]));
}

/// The value of a polynomial with two exponents per variable at a point
/// with coordinates `±1`.
proof fn lemma_value2_unit(f: Polynom2d<2>, x: i64, y: i64)
    requires
        x == 1 || x == -1,
        y == 1 || y == -1,
    ensures
        f.value(x, y) == f.coefficients@[0]@[0] + f.coefficients@[0]@[1] * y
            + f.coefficients@[1]@[0] * x + f.coefficients@[1]@[1] * x * y,
{
    let c = f.coefficients;
    let p = seq![x, y];
    lemma_unit_powers(x);
    lemma_unit_powers(y);
    let r0 = grid2_row(c, 0);
    let r1 = grid2_row(c, 1);
    assert(grid2_rows(c, 0) =~= Seq::<TermView>::empty());
    assert(grid2_rows(c, 1) == grid2_rows(c, 0) + r0);
    assert(grid2_rows(c, 2) == grid2_rows(c, 1) + r1);
    assert(grid2_rows(c, 0) + r0 =~= r0);
    lemma_sum_value_concat(r0, r1, p);
    let e = Seq::<TermView>::empty();
    assert(r0 =~= e.push(r0[0]).push(r0[1]));
    assert(r1 =~= e.push(r1[0]).push(r1[1]));
    lemma_sum_value_push(e, r0[0], p);
    lemma_sum_value_push(e.push(r0[0]), r0[1], p);
    lemma_sum_value_push(e, r1[0], p);
    lemma_sum_value_push(e.push(r1[0]), r1[1], p);
    assert(sum_value(e, p) == 0);
    assert(r0[0] == (c@[0]@[0] as int, seq![0int, 0int]));
    assert(r0[1] == (c@[0]@[1] as int, seq![0int, 1int]));
    assert(r1[0] == (c@[1]@[0] as int, seq![1int, 0int]));
    assert(r1[1] == (c@[1]@[1] as int, seq![1int, 1int]));
    lemma_unit_term(c@[0]@[0] as int, 0, 0, x, y);
    lemma_unit_term(c@[0]@[1] as int, 0, 1, x, y);
    lemma_unit_term(c@[1]@[0] as int, 1, 0, x, y);
    lemma_unit_term(c@[1]@[1] as int, 1, 1, x, y);
    assert(term_value(r0[0], p) == power_prefix(c@[0]@[0] as int, seq![0int, 0int], p, 2));
    assert(term_value(r0[1], p) == power_prefix(c@[0]@[1] as int, seq![0int, 1int], p, 2));
    assert(term_value(r1[0], p) == power_prefix(c@[1]@[0] as int, seq![1int, 0int], p, 2));
    assert(term_value(r1[1], p) == power_prefix(c@[1]@[1] as int, seq![1int, 1int], p, 2));
}

proof fn lemma_seq_sum4(s: Seq<int>)
    requires
        s.len() == 4,
    ensures
        seq_sum(s) == s[0] + s[1] + s[2] + s[3],
{
    let s1 = s.drop_first();
    let s2 = s1.drop_first();
    let s3 = s2.drop_first();
    let s4 = s3.drop_first();
    assert(seq_sum(s4) == 0);
    assert(seq_sum(s3) == s3[0] + seq_sum(s4));
    assert(seq_sum(s2) == s2[0] + seq_sum(s3));
    assert(seq_sum(s1) == s1[0] + seq_sum(s2));
}

/// The powers of `±1` with exponents `i`, `j`, `2i`, `2j` for `i, j` in
/// `{0, 1}`.
proof fn lemma_unit_ipow(i: int, j: int)
    requires
        0 <= i < 2,
        0 <= j < 2,
    ensures
        ipow(1, i) == 1,
        ipow(1, j) == 1,
        ipow(-1, i) == (if i == 0 { 1int } else { -1int }),
        ipow(-1, j) == (if j == 0 { 1int } else { -1int }),
        ipow(1, 2 * i) == 1,
        ipow(1, 2 * j) == 1,
        ipow(-1, 2 * i) == 1,
        ipow(-1, 2 * j) == 1,
{
    lemma_unit_powers(1i64);
    lemma_unit_powers(-1i64);
}

/// Sampling a polynomial with two exponents per variable at the four
/// corners `(±1, ±1)` and fitting the samples gives back each coefficient.
pub proof fn lemma_fit2_corners(f: Polynom2d<2>)
    requires
        fits_i64(f.value(1i64, 1i64)),
        fits_i64(f.value(-1i64, 1i64)),
        fits_i64(f.value(1i64, -1i64)),
        fits_i64(f.value(-1i64, -1i64)),
    ensures
        forall|i: int, j: int|
            0 <= i < 2 && 0 <= j < 2 ==> #[trigger] fit2_coefficient(corner_samples2(f), i, j)
                == f.coefficients@[i]@[j],
{
    let pts = corner_samples2(f);
    let c00 = f.coefficients@[0]@[0] as int;
    let c01 = f.coefficients@[0]@[1] as int;
    let c10 = f.coefficients@[1]@[0] as int;
    let c11 = f.coefficients@[1]@[1] as int;
    lemma_value2_unit(f, 1i64, 1i64);
    lemma_value2_unit(f, -1i64, 1i64);
    lemma_value2_unit(f, 1i64, -1i64);
    lemma_value2_unit(f, -1i64, -1i64);
    lemma_unit_powers(1i64);
    lemma_unit_powers(-1i64);
    assert forall|i: int, j: int| 0 <= i < 2 && 0 <= j < 2 implies #[trigger] fit2_coefficient(
        pts,
        i,
        j,
    ) == f.coefficients@[i]@[j] by {
        let num = fit2_numerators(pts, i, j);
        let den = fit2_denominators(pts, i, j);
        lemma_seq_sum4(num);
        lemma_seq_sum4(den);
        lemma_unit_term(pts[0].2 as int, i, j, 1i64, 1i64);
        lemma_unit_term(pts[1].2 as int, i, j, -1i64, 1i64);
        lemma_unit_term(pts[2].2 as int, i, j, 1i64, -1i64);
        lemma_unit_term(pts[3].2 as int, i, j, -1i64, -1i64);
        lemma_unit_term(1, 2 * i, 2 * j, 1i64, 1i64);
        lemma_unit_term(1, 2 * i, 2 * j, -1i64, 1i64);
        lemma_unit_term(1, 2 * i, 2 * j, 1i64, -1i64);
        lemma_unit_term(1, 2 * i, 2 * j, -1i64, -1i64);
        lemma_unit_ipow(i, j);
        assert(num[0] == pts[0].2 * ipow(pts[0].0 as int, i) * ipow(pts[0].1 as int, j));
        assert(num[1] == pts[1].2 * ipow(pts[1].0 as int, i) * ipow(pts[1].1 as int, j));
        assert(num[2] == pts[2].2 * ipow(pts[2].0 as int, i) * ipow(pts[2].1 as int, j));
        assert(num[3] == pts[3].2 * ipow(pts[3].0 as int, i) * ipow(pts[3].1 as int, j));
        assert(pts[0].2 == c00 + c01 + c10 + c11);
        assert(pts[1].2 == c00 + c01 - c10 - c11);
        assert(pts[2].2 == c00 - c01 + c10 - c11);
        assert(pts[3].2 == c00 - c01 - c10 + c11);
        assert(seq_sum(den) == 4);
        if i == 0 && j == 0 {
            assert(seq_sum(num) == 4 * c00);
        } else if i == 0 {
            assert(seq_sum(num) == 4 * c01);
        } else if j == 0 {
            assert(seq_sum(num) == 4 * c10);
        } else {
            assert(seq_sum(num) == 4 * c11);
        }
        let n = seq_sum(num);
        let v = f.coefficients@[i]@[j] as int;
        assert(n == 4 * v);
        assert(abs_int(n) == 4 * abs_int(v));
        assert(abs_int(n) / 4 == abs_int(v));
    }
}

/// The sixteen corners `(±1, ±1, ±1, ±1)`, the last coordinate changing
/// fastest and `-1` before `1`, each with the value of `f` there.
pub open spec fn corner_samples4(f: Polynom4d<2>) -> Seq<(i64, i64, i64, i64, i64)> {
    seq![
        (-1i64, -1i64, -1i64, -1i64, f.value(-1i64, -1i64, -1i64, -1i64) as i64),
        (-1i64, -1i64, -1i64, 1i64, f.value(-1i64, -1i64, -1i64, 1i64) as i64),
        (-1i64, -1i64, 1i64, -1i64, f.value(-1i64, -1i64, 1i64, -1i64) as i64),
        (-1i64, -1i64, 1i64, 1i64, f.value(-1i64, -1i64, 1i64, 1i64) as i64),
        (-1i64, 1i64, -1i64, -1i64, f.value(-1i64, 1i64, -1i64, -1i64) as i64),
        (-1i64, 1i64, -1i64, 1i64, f.value(-1i64, 1i64, -1i64, 1i64) as i64),
        (-1i64, 1i64, 1i64, -1i64, f.value(-1i64, 1i64, 1i64, -1i64) as i64),
        (-1i64, 1i64, 1i64, 1i64, f.value(-1i64, 1i64, 1i64, 1i64) as i64),
        (1i64, -1i64, -1i64, -1i64, f.value(1i64, -1i64, -1i64, -1i64) as i64),
        (1i64, -1i64, -1i64, 1i64, f.value(1i64, -1i64, -1i64, 1i64) as i64),
        (1i64, -1i64, 1i64, -1i64, f.value(1i64, -1i64, 1i64, -1i64) as i64),
        (1i64, -1i64, 1i64, 1i64, f.value(1i64, -1i64, 1i64, 1i64) as i64),
        (1i64, 1i64, -1i64, -1i64, f.value(1i64, 1i64, -1i64, -1i64) as i64),
        (1i64, 1i64, -1i64, 1i64, f.value(1i64, 1i64, -1i64, 1i64) as i64),
        (1i64, 1i64, 1i64, -1i64, f.value(1i64, 1i64, 1i64, -1i64) as i64),
        (1i64, 1i64, 1i64, 1i64, f.value(1i64, 1i64, 1i64, 1i64) as i64),
    ]
}

/// One when raising `x` to `e` flips the sign: `x` is `-1` and `e` odd.
pub open spec fn flips(x: int, e: int) -> int {
    if e % 2 == 1 && x == -1 {
        1
    } else {
        0
    }
}

/// `c * x^i * y^j * z^k * w^l` for coordinates `±1`: `c` or `-c`.
pub open spec fn signed_term4(
    c: int,
    x: int,
    y: int,
    z: int,
    w: int,
    i: int,
    j: int,
    k: int,
    l: int,
) -> int {
    if (flips(x, i) + flips(y, j) + flips(z, k) + flips(w, l)) % 2 == 1 {
        -c
    } else {
        c
    }
}

/// The value of a polynomial with two exponents per variable at a point
/// with coordinates `±1`, term by term.
pub open spec fn unit_value4(f: Polynom4d<2>, x: int, y: int, z: int, w: int) -> int {
    signed_term4(f.coefficients@[0]@[0]@[0]@[0] as int, x, y, z, w, 0, 0, 0, 0)
        + signed_term4(f.coefficients@[0]@[0]@[0]@[1] as int, x, y, z, w, 0, 0, 0, 1)
        + signed_term4(f.coefficients@[0]@[0]@[1]@[0] as int, x, y, z, w, 0, 0, 1, 0)
        + signed_term4(f.coefficients@[0]@[0]@[1]@[1] as int, x, y, z, w, 0, 0, 1, 1)
        + signed_term4(f.coefficients@[0]@[1]@[0]@[0] as int, x, y, z, w, 0, 1, 0, 0)
        + signed_term4(f.coefficients@[0]@[1]@[0]@[1] as int, x, y, z, w, 0, 1, 0, 1)
        + signed_term4(f.coefficients@[0]@[1]@[1]@[0] as int, x, y, z, w, 0, 1, 1, 0)
        + signed_term4(f.coefficients@[0]@[1]@[1]@[1] as int, x, y, z, w, 0, 1, 1, 1)
        + signed_term4(f.coefficients@[1]@[0]@[0]@[0] as int, x, y, z, w, 1, 0, 0, 0)
        + signed_term4(f.coefficients@[1]@[0]@[0]@[1] as int, x, y, z, w, 1, 0, 0, 1)
        + signed_term4(f.coefficients@[1]@[0]@[1]@[0] as int, x, y, z, w, 1, 0, 1, 0)
        + signed_term4(f.coefficients@[1]@[0]@[1]@[1] as int, x, y, z, w, 1, 0, 1, 1)
        + signed_term4(f.coefficients@[1]@[1]@[0]@[0] as int, x, y, z, w, 1, 1, 0, 0)
        + signed_term4(f.coefficients@[1]@[1]@[0]@[1] as int, x, y, z, w, 1, 1, 0, 1)
        + signed_term4(f.coefficients@[1]@[1]@[1]@[0] as int, x, y, z, w, 1, 1, 1, 0)
        + signed_term4(f.coefficients@[1]@[1]@[1]@[1] as int, x, y, z, w, 1, 1, 1, 1)
}

proof fn lemma_unit_factor(x: i64, e: int)
    requires
        x == 1 || x == -1,
        0 <= e <= 2,
    ensures
        ipow(x as int, e) == (if flips(x as int, e) == 1 {
            -1int
        } else {
            1int
        }),
{
    lemma_unit_powers(x);
}

/// A term `c * x^i * y^j * z^k * w^l` at a point with coordinates `±1`.
proof fn lemma_unit_term4(c: int, e: Seq<int>, p: Seq<i64>)
    requires
        e.len() == 4,
        p.len() == 4,
        forall|v: int| 0 <= v < 4 ==> (p[v] == 1 || p[v] == -1) && 0 <= e[v] <= 2,
    ensures
        power_prefix(c, e, p, 4) == signed_term4(
            c,
            p[0] as int,
            p[1] as int,
            p[2] as int,
            p[3] as int,
            e[0],
            e[1],
            e[2],
            e[3],
        ),
{
    assert(power_prefix(c, e, p, 0) == c);
    assert(power_prefix(c, e, p, 1) == c * ipow(p[0] as int, e[0]));
    assert(power_prefix(c, e, p, 2) == power_prefix(c, e, p, 1) * ipow(p[1] as int, e[1]));
    assert(power_prefix(c, e, p, 3) == power_prefix(c, e, p, 2) * ipow(p[2] as int, e[2]));
    assert(power_prefix(c, e, p, 4) == power_prefix(c, e, p, 3) * ipow(p[3] as int, e[3]));
    lemma_unit_factor(p[0], e[0]);
    lemma_unit_factor(p[1], e[1]);
    lemma_unit_factor(p[2], e[2]);
    lemma_unit_factor(p[3], e[3]);
    let a0 = ipow(p[0] as int, e[0]);
    let a1 = ipow(p[1] as int, e[1]);
    let a2 = ipow(p[2] as int, e[2]);
    let a3 = ipow(p[3] as int, e[3]);
    let f0 = flips(p[0] as int, e[0]);
    let f1 = flips(p[1] as int, e[1]);
    let f2 = flips(p[2] as int, e[2]);
    let f3 = flips(p[3] as int, e[3]);
    assert(c * a0 * a1 * a2 * a3 == (if (f0 + f1 + f2 + f3) % 2 == 1 {
        -c
    } else {
        c
    })) by (nonlinear_arith)
        requires
            0 <= f0 <= 1,
            0 <= f1 <= 1,
            0 <= f2 <= 1,
            0 <= f3 <= 1,
            a0 == (if f0 == 1 { -1int } else { 1int }),
            a1 == (if f1 == 1 { -1int } else { 1int }),
            a2 == (if f2 == 1 { -1int } else { 1int }),
            a3 == (if f3 == 1 { -1int } else { 1int }),
    ;
}

proof fn lemma_sum_value16(s: Seq<TermView>, p: Seq<i64>)
    requires
        s.len() == 16,
    ensures
        sum_value(s, p) == term_value(s[0], p) + term_value(s[1], p) + term_value(s[2], p)
            + term_value(s[3], p) + term_value(s[4], p) + term_value(s[5], p) + term_value(s[6], p)
            + term_value(s[7], p) + term_value(s[8], p) + term_value(s[9], p) + term_value(s[10], p)
            + term_value(s[11], p) + term_value(s[12], p) + term_value(s[13], p)
            + term_value(s[14], p) + term_value(s[15], p),
{
    let s0 = s;
    let s1 = s0.drop_first();
    let s2 = s1.drop_first();
    let s3 = s2.drop_first();
    let s4 = s3.drop_first();
    let s5 = s4.drop_first();
    let s6 = s5.drop_first();
    let s7 = s6.drop_first();
    let s8 = s7.drop_first();
    let s9 = s8.drop_first();
    let s10 = s9.drop_first();
    let s11 = s10.drop_first();
    let s12 = s11.drop_first();
    let s13 = s12.drop_first();
    let s14 = s13.drop_first();
    let s15 = s14.drop_first();
    let s16 = s15.drop_first();
    assert(sum_value(s16, p) == 0);
    assert(sum_value(s15, p) == term_value(s15[0], p) + sum_value(s16, p));
    assert(s15[0] == s[15]);
    assert(sum_value(s14, p) == term_value(s14[0], p) + sum_value(s15, p));
    assert(s14[0] == s[14]);
    assert(sum_value(s13, p) == term_value(s13[0], p) + sum_value(s14, p));
    assert(s13[0] == s[13]);
    assert(sum_value(s12, p) == term_value(s12[0], p) + sum_value(s13, p));
    assert(s12[0] == s[12]);
    assert(sum_value(s11, p) == term_value(s11[0], p) + sum_value(s12, p));
    assert(s11[0] == s[11]);
    assert(sum_value(s10, p) == term_value(s10[0], p) + sum_value(s11, p));
    assert(s10[0] == s[10]);
    assert(sum_value(s9, p) == term_value(s9[0], p) + sum_value(s10, p));
    assert(s9[0] == s[9]);
    assert(sum_value(s8, p) == term_value(s8[0], p) + sum_value(s9, p));
    assert(s8[0] == s[8]);
    assert(sum_value(s7, p) == term_value(s7[0], p) + sum_value(s8, p));
    assert(s7[0] == s[7]);
    assert(sum_value(s6, p) == term_value(s6[0], p) + sum_value(s7, p));
    assert(s6[0] == s[6]);
    assert(sum_value(s5, p) == term_value(s5[0], p) + sum_value(s6, p));
    assert(s5[0] == s[5]);
    assert(sum_value(s4, p) == term_value(s4[0], p) + sum_value(s5, p));
    assert(s4[0] == s[4]);
    assert(sum_value(s3, p) == term_value(s3[0], p) + sum_value(s4, p));
    assert(s3[0] == s[3]);
    assert(sum_value(s2, p) == term_value(s2[0], p) + sum_value(s3, p));
    assert(s2[0] == s[2]);
    assert(sum_value(s1, p) == term_value(s1[0], p) + sum_value(s2, p));
    assert(s1[0] == s[1]);
    assert(sum_value(s0, p) == term_value(s0[0], p) + sum_value(s1, p));
    assert(s0[0] == s[0]);
}

proof fn lemma_seq_sum16(s: Seq<int>)
    requires
        s.len() == 16,
    ensures
        seq_sum(s) == s[0] + s[1] + s[2] + s[3] + s[4] + s[5] + s[6] + s[7] + s[8] + s[9] + s[10]
            + s[11] + s[12] + s[13] + s[14] + s[15],
{
    let s0 = s;
    let s1 = s0.drop_first();
    let s2 = s1.drop_first();
    let s3 = s2.drop_first();
    let s4 = s3.drop_first();
    let s5 = s4.drop_first();
    let s6 = s5.drop_first();
    let s7 = s6.drop_first();
    let s8 = s7.drop_first();
    let s9 = s8.drop_first();
    let s10 = s9.drop_first();
    let s11 = s10.drop_first();
    let s12 = s11.drop_first();
    let s13 = s12.drop_first();
    let s14 = s13.drop_first();
    let s15 = s14.drop_first();
    let s16 = s15.drop_first();
    assert(seq_sum(s16) == 0);
    assert(seq_sum(s15) == s15[0] + seq_sum(s16));
    assert(s15[0] == s[15]);
    assert(seq_sum(s14) == s14[0] + seq_sum(s15));
    assert(s14[0] == s[14]);
    assert(seq_sum(s13) == s13[0] + seq_sum(s14));
    assert(s13[0] == s[13]);
    assert(seq_sum(s12) == s12[0] + seq_sum(s13));
    assert(s12[0] == s[12]);
    assert(seq_sum(s11) == s11[0] + seq_sum(s12));
    assert(s11[0] == s[11]);
    assert(seq_sum(s10) == s10[0] + seq_sum(s11));
    assert(s10[0] == s[10]);
    assert(seq_sum(s9) == s9[0] + seq_sum(s10));
    assert(s9[0] == s[9]);
    assert(seq_sum(s8) == s8[0] + seq_sum(s9));
    assert(s8[0] == s[8]);
    assert(seq_sum(s7) == s7[0] + seq_sum(s8));
    assert(s7[0] == s[7]);
    assert(seq_sum(s6) == s6[0] + seq_sum(s7));
    assert(s6[0] == s[6]);
    assert(seq_sum(s5) == s5[0] + seq_sum(s6));
    assert(s5[0] == s[5]);
    assert(seq_sum(s4) == s4[0] + seq_sum(s5));
    assert(s4[0] == s[4]);
    assert(seq_sum(s3) == s3[0] + seq_sum(s4));
    assert(s3[0] == s[3]);
    assert(seq_sum(s2) == s2[0] + seq_sum(s3));
    assert(s2[0] == s[2]);
    assert(seq_sum(s1) == s1[0] + seq_sum(s2));
    assert(s1[0] == s[1]);
    assert(seq_sum(s0) == s0[0] + seq_sum(s1));
    assert(s0[0] == s[0]);
}

/// The value of a polynomial with two exponents per variable at a point
/// with coordinates `±1`.
proof fn lemma_value4_unit(f: Polynom4d<2>, x: i64, y: i64, z: i64, w: i64)
    requires
        x == 1 || x == -1,
        y == 1 || y == -1,
        z == 1 || z == -1,
        w == 1 || w == -1,
    ensures
        f.value(x, y, z, w) == unit_value4(f, x as int, y as int, z as int, w as int),
{
    let v = f.terms_view();
    let p = seq![x, y, z, w];
    assert(v.len() == 16);
    lemma_sum_value16(v, p);
    assert(digits4(0, 2) == (0int, 0int, 0int, 0int));
    assert(v[0] == (f.coefficients@[0]@[0]@[0]@[0] as int, seq![0int, 0int, 0int, 0int]));
    lemma_unit_term4(v[0].0, v[0].1, p);
    assert(digits4(1, 2) == (0int, 0int, 0int, 1int));
    assert(v[1] == (f.coefficients@[0]@[0]@[0]@[1] as int, seq![0int, 0int, 0int, 1int]));
    lemma_unit_term4(v[1].0, v[1].1, p);
    assert(digits4(2, 2) == (0int, 0int, 1int, 0int));
    assert(v[2] == (f.coefficients@[0]@[0]@[1]@[0] as int, seq![0int, 0int, 1int, 0int]));
    lemma_unit_term4(v[2].0, v[2].1, p);
    assert(digits4(3, 2) == (0int, 0int, 1int, 1int));
    assert(v[3] == (f.coefficients@[0]@[0]@[1]@[1] as int, seq![0int, 0int, 1int, 1int]));
    lemma_unit_term4(v[3].0, v[3].1, p);
    assert(digits4(4, 2) == (0int, 1int, 0int, 0int));
    assert(v[4] == (f.coefficients@[0]@[1]@[0]@[0] as int, seq![0int, 1int, 0int, 0int]));
    lemma_unit_term4(v[4].0, v[4].1, p);
    assert(digits4(5, 2) == (0int, 1int, 0int, 1int));
    assert(v[5] == (f.coefficients@[0]@[1]@[0]@[1] as int, seq![0int, 1int, 0int, 1int]));
    lemma_unit_term4(v[5].0, v[5].1, p);
    assert(digits4(6, 2) == (0int, 1int, 1int, 0int));
    assert(v[6] == (f.coefficients@[0]@[1]@[1]@[0] as int, seq![0int, 1int, 1int, 0int]));
    lemma_unit_term4(v[6].0, v[6].1, p);
    assert(digits4(7, 2) == (0int, 1int, 1int, 1int));
    assert(v[7] == (f.coefficients@[0]@[1]@[1]@[1] as int, seq![0int, 1int, 1int, 1int]));
    lemma_unit_term4(v[7].0, v[7].1, p);
    assert(digits4(8, 2) == (1int, 0int, 0int, 0int));
    assert(v[8] == (f.coefficients@[1]@[0]@[0]@[0] as int, seq![1int, 0int, 0int, 0int]));
    lemma_unit_term4(v[8].0, v[8].1, p);
    assert(digits4(9, 2) == (1int, 0int, 0int, 1int));
    assert(v[9] == (f.coefficients@[1]@[0]@[0]@[1] as int, seq![1int, 0int, 0int, 1int]));
    lemma_unit_term4(v[9].0, v[9].1, p);
    assert(digits4(10, 2) == (1int, 0int, 1int, 0int));
    assert(v[10] == (f.coefficients@[1]@[0]@[1]@[0] as int, seq![1int, 0int, 1int, 0int]));
    lemma_unit_term4(v[10].0, v[10].1, p);
    assert(digits4(11, 2) == (1int, 0int, 1int, 1int));
    assert(v[11] == (f.coefficients@[1]@[0]@[1]@[1] as int, seq![1int, 0int, 1int, 1int]));
    lemma_unit_term4(v[11].0, v[11].1, p);
    assert(digits4(12, 2) == (1int, 1int, 0int, 0int));
    assert(v[12] == (f.coefficients@[1]@[1]@[0]@[0] as int, seq![1int, 1int, 0int, 0int]));
    lemma_unit_term4(v[12].0, v[12].1, p);
    assert(digits4(13, 2) == (1int, 1int, 0int, 1int));
    assert(v[13] == (f.coefficients@[1]@[1]@[0]@[1] as int, seq![1int, 1int, 0int, 1int]));
    lemma_unit_term4(v[13].0, v[13].1, p);
    assert(digits4(14, 2) == (1int, 1int, 1int, 0int));
    assert(v[14] == (f.coefficients@[1]@[1]@[1]@[0] as int, seq![1int, 1int, 1int, 0int]));
    lemma_unit_term4(v[14].0, v[14].1, p);
    assert(digits4(15, 2) == (1int, 1int, 1int, 1int));
    assert(v[15] == (f.coefficients@[1]@[1]@[1]@[1] as int, seq![1int, 1int, 1int, 1int]));
    lemma_unit_term4(v[15].0, v[15].1, p);
}

proof fn lemma_corner_value_mmmm(f: Polynom4d<2>)
    ensures
        f.value(-1i64, -1i64, -1i64, -1i64) == f.coefficients@[0]@[0]@[0]@[0]
            - f.coefficients@[0]@[0]@[0]@[1] - f.coefficients@[0]@[0]@[1]@[0]
            + f.coefficients@[0]@[0]@[1]@[1] - f.coefficients@[0]@[1]@[0]@[0]
            + f.coefficients@[0]@[1]@[0]@[1] + f.coefficients@[0]@[1]@[1]@[0]
            - f.coefficients@[0]@[1]@[1]@[1] - f.coefficients@[1]@[0]@[0]@[0]
            + f.coefficients@[1]@[0]@[0]@[1] + f.coefficients@[1]@[0]@[1]@[0]
            - f.coefficients@[1]@[0]@[1]@[1] + f.coefficients@[1]@[1]@[0]@[0]
            - f.coefficients@[1]@[1]@[0]@[1] - f.coefficients@[1]@[1]@[1]@[0]
            + f.coefficients@[1]@[1]@[1]@[1],
{
    lemma_value4_unit(f, -1i64, -1i64, -1i64, -1i64);
}

proof fn lemma_corner_value_mmmp(f: Polynom4d<2>)
    ensures
        f.value(-1i64, -1i64, -1i64, 1i64) == f.coefficients@[0]@[0]@[0]@[0]
            + f.coefficients@[0]@[0]@[0]@[1] - f.coefficients@[0]@[0]@[1]@[0]
            - f.coefficients@[0]@[0]@[1]@[1] - f.coefficients@[0]@[1]@[0]@[0]
            - f.coefficients@[0]@[1]@[0]@[1] + f.coefficients@[0]@[1]@[1]@[0]
            + f.coefficients@[0]@[1]@[1]@[1] - f.coefficients@[1]@[0]@[0]@[0]
            - f.coefficients@[1]@[0]@[0]@[1] + f.coefficients@[1]@[0]@[1]@[0]
            + f.coefficients@[1]@[0]@[1]@[1] + f.coefficients@[1]@[1]@[0]@[0]
            + f.coefficients@[1]@[1]@[0]@[1] - f.coefficients@[1]@[1]@[1]@[0]
            - f.coefficients@[1]@[1]@[1]@[1],
{
    lemma_value4_unit(f, -1i64, -1i64, -1i64, 1i64);
}

proof fn lemma_corner_value_mmpm(f: Polynom4d<2>)
    ensures
        f.value(-1i64, -1i64, 1i64, -1i64) == f.coefficients@[0]@[0]@[0]@[0]
            - f.coefficients@[0]@[0]@[0]@[1] + f.coefficients@[0]@[0]@[1]@[0]
            - f.coefficients@[0]@[0]@[1]@[1] - f.coefficients@[0]@[1]@[0]@[0]
            + f.coefficients@[0]@[1]@[0]@[1] - f.coefficients@[0]@[1]@[1]@[0]
            + f.coefficients@[0]@[1]@[1]@[1] - f.coefficients@[1]@[0]@[0]@[0]
            + f.coefficients@[1]@[0]@[0]@[1] - f.coefficients@[1]@[0]@[1]@[0]
            + f.coefficients@[1]@[0]@[1]@[1] + f.coefficients@[1]@[1]@[0]@[0]
            - f.coefficients@[1]@[1]@[0]@[1] + f.coefficients@[1]@[1]@[1]@[0]
            - f.coefficients@[1]@[1]@[1]@[1],
{
    lemma_value4_unit(f, -1i64, -1i64, 1i64, -1i64);
}

proof fn lemma_corner_value_mmpp(f: Polynom4d<2>)
    ensures
        f.value(-1i64, -1i64, 1i64, 1i64) == f.coefficients@[0]@[0]@[0]@[0]
            + f.coefficients@[0]@[0]@[0]@[1] + f.coefficients@[0]@[0]@[1]@[0]
            + f.coefficients@[0]@[0]@[1]@[1] - f.coefficients@[0]@[1]@[0]@[0]
            - f.coefficients@[0]@[1]@[0]@[1] - f.coefficients@[0]@[1]@[1]@[0]
            - f.coefficients@[0]@[1]@[1]@[1] - f.coefficients@[1]@[0]@[0]@[0]
            - f.coefficients@[1]@[0]@[0]@[1] - f.coefficients@[1]@[0]@[1]@[0]
            - f.coefficients@[1]@[0]@[1]@[1] + f.coefficients@[1]@[1]@[0]@[0]
            + f.coefficients@[1]@[1]@[0]@[1] + f.coefficients@[1]@[1]@[1]@[0]
            + f.coefficients@[1]@[1]@[1]@[1],
{
    lemma_value4_unit(f, -1i64, -1i64, 1i64, 1i64);
}

proof fn lemma_corner_value_mpmm(f: Polynom4d<2>)
    ensures
        f.value(-1i64, 1i64, -1i64, -1i64) == f.coefficients@[0]@[0]@[0]@[0]
            - f.coefficients@[0]@[0]@[0]@[1] - f.coefficients@[0]@[0]@[1]@[0]
            + f.coefficients@[0]@[0]@[1]@[1] + f.coefficients@[0]@[1]@[0]@[0]
            - f.coefficients@[0]@[1]@[0]@[1] - f.coefficients@[0]@[1]@[1]@[0]
            + f.coefficients@[0]@[1]@[1]@[1] - f.coefficients@[1]@[0]@[0]@[0]
            + f.coefficients@[1]@[0]@[0]@[1] + f.coefficients@[1]@[0]@[1]@[0]
            - f.coefficients@[1]@[0]@[1]@[1] - f.coefficients@[1]@[1]@[0]@[0]
            + f.coefficients@[1]@[1]@[0]@[1] + f.coefficients@[1]@[1]@[1]@[0]
            - f.coefficients@[1]@[1]@[1]@[1],
{
    lemma_value4_unit(f, -1i64, 1i64, -1i64, -1i64);
}

proof fn lemma_corner_value_mpmp(f: Polynom4d<2>)
    ensures
        f.value(-1i64, 1i64, -1i64, 1i64) == f.coefficients@[0]@[0]@[0]@[0]
            + f.coefficients@[0]@[0]@[0]@[1] - f.coefficients@[0]@[0]@[1]@[0]
            - f.coefficients@[0]@[0]@[1]@[1] + f.coefficients@[0]@[1]@[0]@[0]
            + f.coefficients@[0]@[1]@[0]@[1] - f.coefficients@[0]@[1]@[1]@[0]
            - f.coefficients@[0]@[1]@[1]@[1] - f.coefficients@[1]@[0]@[0]@[0]
            - f.coefficients@[1]@[0]@[0]@[1] + f.coefficients@[1]@[0]@[1]@[0]
            + f.coefficients@[1]@[0]@[1]@[1] - f.coefficients@[1]@[1]@[0]@[0]
            - f.coefficients@[1]@[1]@[0]@[1] + f.coefficients@[1]@[1]@[1]@[0]
            + f.coefficients@[1]@[1]@[1]@[1],
{
    lemma_value4_unit(f, -1i64, 1i64, -1i64, 1i64);
}

proof fn lemma_corner_value_mppm(f: Polynom4d<2>)
    ensures
        f.value(-1i64, 1i64, 1i64, -1i64) == f.coefficients@[0]@[0]@[0]@[0]
            - f.coefficients@[0]@[0]@[0]@[1] + f.coefficients@[0]@[0]@[1]@[0]
            - f.coefficients@[0]@[0]@[1]@[1] + f.coefficients@[0]@[1]@[0]@[0]
            - f.coefficients@[0]@[1]@[0]@[1] + f.coefficients@[0]@[1]@[1]@[0]
            - f.coefficients@[0]@[1]@[1]@[1] - f.coefficients@[1]@[0]@[0]@[0]
            + f.coefficients@[1]@[0]@[0]@[1] - f.coefficients@[1]@[0]@[1]@[0]
            + f.coefficients@[1]@[0]@[1]@[1] - f.coefficients@[1]@[1]@[0]@[0]
            + f.coefficients@[1]@[1]@[0]@[1] - f.coefficients@[1]@[1]@[1]@[0]
            + f.coefficients@[1]@[1]@[1]@[1],
{
    lemma_value4_unit(f, -1i64, 1i64, 1i64, -1i64);
}

proof fn lemma_corner_value_mppp(f: Polynom4d<2>)
    ensures
        f.value(-1i64, 1i64, 1i64, 1i64) == f.coefficients@[0]@[0]@[0]@[0]
            + f.coefficients@[0]@[0]@[0]@[1] + f.coefficients@[0]@[0]@[1]@[0]
            + f.coefficients@[0]@[0]@[1]@[1] + f.coefficients@[0]@[1]@[0]@[0]
            + f.coefficients@[0]@[1]@[0]@[1] + f.coefficients@[0]@[1]@[1]@[0]
            + f.coefficients@[0]@[1]@[1]@[1] - f.coefficients@[1]@[0]@[0]@[0]
            - f.coefficients@[1]@[0]@[0]@[1] - f.coefficients@[1]@[0]@[1]@[0]
            - f.coefficients@[1]@[0]@[1]@[1] - f.coefficients@[1]@[1]@[0]@[0]
            - f.coefficients@[1]@[1]@[0]@[1] - f.coefficients@[1]@[1]@[1]@[0]
            - f.coefficients@[1]@[1]@[1]@[1],
{
    lemma_value4_unit(f, -1i64, 1i64, 1i64, 1i64);
}

proof fn lemma_corner_value_pmmm(f: Polynom4d<2>)
    ensures
        f.value(1i64, -1i64, -1i64, -1i64) == f.coefficients@[0]@[0]@[0]@[0]
            - f.coefficients@[0]@[0]@[0]@[1] - f.coefficients@[0]@[0]@[1]@[0]
            + f.coefficients@[0]@[0]@[1]@[1] - f.coefficients@[0]@[1]@[0]@[0]
            + f.coefficients@[0]@[1]@[0]@[1] + f.coefficients@[0]@[1]@[1]@[0]
            - f.coefficients@[0]@[1]@[1]@[1] + f.coefficients@[1]@[0]@[0]@[0]
            - f.coefficients@[1]@[0]@[0]@[1] - f.coefficients@[1]@[0]@[1]@[0]
            + f.coefficients@[1]@[0]@[1]@[1] - f.coefficients@[1]@[1]@[0]@[0]
            + f.coefficients@[1]@[1]@[0]@[1] + f.coefficients@[1]@[1]@[1]@[0]
            - f.coefficients@[1]@[1]@[1]@[1],
{
    lemma_value4_unit(f, 1i64, -1i64, -1i64, -1i64);
}

proof fn lemma_corner_value_pmmp(f: Polynom4d<2>)
    ensures
        f.value(1i64, -1i64, -1i64, 1i64) == f.coefficients@[0]@[0]@[0]@[0]
            + f.coefficients@[0]@[0]@[0]@[1] - f.coefficients@[0]@[0]@[1]@[0]
            - f.coefficients@[0]@[0]@[1]@[1] - f.coefficients@[0]@[1]@[0]@[0]
            - f.coefficients@[0]@[1]@[0]@[1] + f.coefficients@[0]@[1]@[1]@[0]
            + f.coefficients@[0]@[1]@[1]@[1] + f.coefficients@[1]@[0]@[0]@[0]
            + f.coefficients@[1]@[0]@[0]@[1] - f.coefficients@[1]@[0]@[1]@[0]
            - f.coefficients@[1]@[0]@[1]@[1] - f.coefficients@[1]@[1]@[0]@[0]
            - f.coefficients@[1]@[1]@[0]@[1] + f.coefficients@[1]@[1]@[1]@[0]
            + f.coefficients@[1]@[1]@[1]@[1],
{
    lemma_value4_unit(f, 1i64, -1i64, -1i64, 1i64);
}

proof fn lemma_corner_value_pmpm(f: Polynom4d<2>)
    ensures
        f.value(1i64, -1i64, 1i64, -1i64) == f.coefficients@[0]@[0]@[0]@[0]
            - f.coefficients@[0]@[0]@[0]@[1] + f.coefficients@[0]@[0]@[1]@[0]
            - f.coefficients@[0]@[0]@[1]@[1] - f.coefficients@[0]@[1]@[0]@[0]
            + f.coefficients@[0]@[1]@[0]@[1] - f.coefficients@[0]@[1]@[1]@[0]
            + f.coefficients@[0]@[1]@[1]@[1] + f.coefficients@[1]@[0]@[0]@[0]
            - f.coefficients@[1]@[0]@[0]@[1] + f.coefficients@[1]@[0]@[1]@[0]
            - f.coefficients@[1]@[0]@[1]@[1] - f.coefficients@[1]@[1]@[0]@[0]
            + f.coefficients@[1]@[1]@[0]@[1] - f.coefficients@[1]@[1]@[1]@[0]
            + f.coefficients@[1]@[1]@[1]@[1],
{
    lemma_value4_unit(f, 1i64, -1i64, 1i64, -1i64);
}

proof fn lemma_corner_value_pmpp(f: Polynom4d<2>)
    ensures
        f.value(1i64, -1i64, 1i64, 1i64) == f.coefficients@[0]@[0]@[0]@[0]
            + f.coefficients@[0]@[0]@[0]@[1] + f.coefficients@[0]@[0]@[1]@[0]
            + f.coefficients@[0]@[0]@[1]@[1] - f.coefficients@[0]@[1]@[0]@[0]
            - f.coefficients@[0]@[1]@[0]@[1] - f.coefficients@[0]@[1]@[1]@[0]
            - f.coefficients@[0]@[1]@[1]@[1] + f.coefficients@[1]@[0]@[0]@[0]
            + f.coefficients@[1]@[0]@[0]@[1] + f.coefficients@[1]@[0]@[1]@[0]
            + f.coefficients@[1]@[0]@[1]@[1] - f.coefficients@[1]@[1]@[0]@[0]
            - f.coefficients@[1]@[1]@[0]@[1] - f.coefficients@[1]@[1]@[1]@[0]
            - f.coefficients@[1]@[1]@[1]@[1],
{
    lemma_value4_unit(f, 1i64, -1i64, 1i64, 1i64);
}

proof fn lemma_corner_value_ppmm(f: Polynom4d<2>)
    ensures
        f.value(1i64, 1i64, -1i64, -1i64) == f.coefficients@[0]@[0]@[0]@[0]
            - f.coefficients@[0]@[0]@[0]@[1] - f.coefficients@[0]@[0]@[1]@[0]
            + f.coefficients@[0]@[0]@[1]@[1] + f.coefficients@[0]@[1]@[0]@[0]
            - f.coefficients@[0]@[1]@[0]@[1] - f.coefficients@[0]@[1]@[1]@[0]
            + f.coefficients@[0]@[1]@[1]@[1] + f.coefficients@[1]@[0]@[0]@[0]
            - f.coefficients@[1]@[0]@[0]@[1] - f.coefficients@[1]@[0]@[1]@[0]
            + f.coefficients@[1]@[0]@[1]@[1] + f.coefficients@[1]@[1]@[0]@[0]
            - f.coefficients@[1]@[1]@[0]@[1] - f.coefficients@[1]@[1]@[1]@[0]
            + f.coefficients@[1]@[1]@[1]@[1],
{
    lemma_value4_unit(f, 1i64, 1i64, -1i64, -1i64);
}

proof fn lemma_corner_value_ppmp(f: Polynom4d<2>)
    ensures
        f.value(1i64, 1i64, -1i64, 1i64) == f.coefficients@[0]@[0]@[0]@[0]
            + f.coefficients@[0]@[0]@[0]@[1] - f.coefficients@[0]@[0]@[1]@[0]
            - f.coefficients@[0]@[0]@[1]@[1] + f.coefficients@[0]@[1]@[0]@[0]
            + f.coefficients@[0]@[1]@[0]@[1] - f.coefficients@[0]@[1]@[1]@[0]
            - f.coefficients@[0]@[1]@[1]@[1] + f.coefficients@[1]@[0]@[0]@[0]
            + f.coefficients@[1]@[0]@[0]@[1] - f.coefficients@[1]@[0]@[1]@[0]
            - f.coefficients@[1]@[0]@[1]@[1] + f.coefficients@[1]@[1]@[0]@[0]
            + f.coefficients@[1]@[1]@[0]@[1] - f.coefficients@[1]@[1]@[1]@[0]
            - f.coefficients@[1]@[1]@[1]@[1],
{
    lemma_value4_unit(f, 1i64, 1i64, -1i64, 1i64);
}

proof fn lemma_corner_value_pppm(f: Polynom4d<2>)
    ensures
        f.value(1i64, 1i64, 1i64, -1i64) == f.coefficients@[0]@[0]@[0]@[0]
            - f.coefficients@[0]@[0]@[0]@[1] + f.coefficients@[0]@[0]@[1]@[0]
            - f.coefficients@[0]@[0]@[1]@[1] + f.coefficients@[0]@[1]@[0]@[0]
            - f.coefficients@[0]@[1]@[0]@[1] + f.coefficients@[0]@[1]@[1]@[0]
            - f.coefficients@[0]@[1]@[1]@[1] + f.coefficients@[1]@[0]@[0]@[0]
            - f.coefficients@[1]@[0]@[0]@[1] + f.coefficients@[1]@[0]@[1]@[0]
            - f.coefficients@[1]@[0]@[1]@[1] + f.coefficients@[1]@[1]@[0]@[0]
            - f.coefficients@[1]@[1]@[0]@[1] + f.coefficients@[1]@[1]@[1]@[0]
            - f.coefficients@[1]@[1]@[1]@[1],
{
    lemma_value4_unit(f, 1i64, 1i64, 1i64, -1i64);
}

proof fn lemma_corner_value_pppp(f: Polynom4d<2>)
    ensures
        f.value(1i64, 1i64, 1i64, 1i64) == f.coefficients@[0]@[0]@[0]@[0]
            + f.coefficients@[0]@[0]@[0]@[1] + f.coefficients@[0]@[0]@[1]@[0]
            + f.coefficients@[0]@[0]@[1]@[1] + f.coefficients@[0]@[1]@[0]@[0]
            + f.coefficients@[0]@[1]@[0]@[1] + f.coefficients@[0]@[1]@[1]@[0]
            + f.coefficients@[0]@[1]@[1]@[1] + f.coefficients@[1]@[0]@[0]@[0]
            + f.coefficients@[1]@[0]@[0]@[1] + f.coefficients@[1]@[0]@[1]@[0]
            + f.coefficients@[1]@[0]@[1]@[1] + f.coefficients@[1]@[1]@[0]@[0]
            + f.coefficients@[1]@[1]@[0]@[1] + f.coefficients@[1]@[1]@[1]@[0]
            + f.coefficients@[1]@[1]@[1]@[1],
{
    lemma_value4_unit(f, 1i64, 1i64, 1i64, 1i64);
}

/// The corner samples of `f`: their points, and each value as a signed
/// sum of the coefficients.
proof fn lemma_corner_samples4(f: Polynom4d<2>)
    requires
        fits_i64(f.value(-1i64, -1i64, -1i64, -1i64)),
        fits_i64(f.value(-1i64, -1i64, -1i64, 1i64)),
        fits_i64(f.value(-1i64, -1i64, 1i64, -1i64)),
        fits_i64(f.value(-1i64, -1i64, 1i64, 1i64)),
        fits_i64(f.value(-1i64, 1i64, -1i64, -1i64)),
        fits_i64(f.value(-1i64, 1i64, -1i64, 1i64)),
        fits_i64(f.value(-1i64, 1i64, 1i64, -1i64)),
        fits_i64(f.value(-1i64, 1i64, 1i64, 1i64)),
        fits_i64(f.value(1i64, -1i64, -1i64, -1i64)),
        fits_i64(f.value(1i64, -1i64, -1i64, 1i64)),
        fits_i64(f.value(1i64, -1i64, 1i64, -1i64)),
        fits_i64(f.value(1i64, -1i64, 1i64, 1i64)),
        fits_i64(f.value(1i64, 1i64, -1i64, -1i64)),
        fits_i64(f.value(1i64, 1i64, -1i64, 1i64)),
        fits_i64(f.value(1i64, 1i64, 1i64, -1i64)),
        fits_i64(f.value(1i64, 1i64, 1i64, 1i64)),
    ensures
        corner_samples4(f).len() == 16,
        sample_point4(corner_samples4(f)[0]) == seq![-1i64, -1i64, -1i64, -1i64],
        corner_samples4(f)[0].4 == f.coefficients@[0]@[0]@[0]@[0] - f.coefficients@[0]@[0]@[0]@[1]
            - f.coefficients@[0]@[0]@[1]@[0] + f.coefficients@[0]@[0]@[1]@[1]
            - f.coefficients@[0]@[1]@[0]@[0] + f.coefficients@[0]@[1]@[0]@[1]
            + f.coefficients@[0]@[1]@[1]@[0] - f.coefficients@[0]@[1]@[1]@[1]
            - f.coefficients@[1]@[0]@[0]@[0] + f.coefficients@[1]@[0]@[0]@[1]
            + f.coefficients@[1]@[0]@[1]@[0] - f.coefficients@[1]@[0]@[1]@[1]
            + f.coefficients@[1]@[1]@[0]@[0] - f.coefficients@[1]@[1]@[0]@[1]
            - f.coefficients@[1]@[1]@[1]@[0] + f.coefficients@[1]@[1]@[1]@[1],
        sample_point4(corner_samples4(f)[1]) == seq![-1i64, -1i64, -1i64, 1i64],
        corner_samples4(f)[1].4 == f.coefficients@[0]@[0]@[0]@[0] + f.coefficients@[0]@[0]@[0]@[1]
            - f.coefficients@[0]@[0]@[1]@[0] - f.coefficients@[0]@[0]@[1]@[1]
            - f.coefficients@[0]@[1]@[0]@[0] - f.coefficients@[0]@[1]@[0]@[1]
            + f.coefficients@[0]@[1]@[1]@[0] + f.coefficients@[0]@[1]@[1]@[1]
            - f.coefficients@[1]@[0]@[0]@[0] - f.coefficients@[1]@[0]@[0]@[1]
            + f.coefficients@[1]@[0]@[1]@[0] + f.coefficients@[1]@[0]@[1]@[1]
            + f.coefficients@[1]@[1]@[0]@[0] + f.coefficients@[1]@[1]@[0]@[1]
            - f.coefficients@[1]@[1]@[1]@[0] - f.coefficients@[1]@[1]@[1]@[1],
        sample_point4(corner_samples4(f)[2]) == seq![-1i64, -1i64, 1i64, -1i64],
        corner_samples4(f)[2].4 == f.coefficients@[0]@[0]@[0]@[0] - f.coefficients@[0]@[0]@[0]@[1]
            + f.coefficients@[0]@[0]@[1]@[0] - f.coefficients@[0]@[0]@[1]@[1]
            - f.coefficients@[0]@[1]@[0]@[0] + f.coefficients@[0]@[1]@[0]@[1]
            - f.coefficients@[0]@[1]@[1]@[0] + f.coefficients@[0]@[1]@[1]@[1]
            - f.coefficients@[1]@[0]@[0]@[0] + f.coefficients@[1]@[0]@[0]@[1]
            - f.coefficients@[1]@[0]@[1]@[0] + f.coefficients@[1]@[0]@[1]@[1]
            + f.coefficients@[1]@[1]@[0]@[0] - f.coefficients@[1]@[1]@[0]@[1]
            + f.coefficients@[1]@[1]@[1]@[0] - f.coefficients@[1]@[1]@[1]@[1],
        sample_point4(corner_samples4(f)[3]) == seq![-1i64, -1i64, 1i64, 1i64],
        corner_samples4(f)[3].4 == f.coefficients@[0]@[0]@[0]@[0] + f.coefficients@[0]@[0]@[0]@[1]
            + f.coefficients@[0]@[0]@[1]@[0] + f.coefficients@[0]@[0]@[1]@[1]
            - f.coefficients@[0]@[1]@[0]@[0] - f.coefficients@[0]@[1]@[0]@[1]
            - f.coefficients@[0]@[1]@[1]@[0] - f.coefficients@[0]@[1]@[1]@[1]
            - f.coefficients@[1]@[0]@[0]@[0] - f.coefficients@[1]@[0]@[0]@[1]
            - f.coefficients@[1]@[0]@[1]@[0] - f.coefficients@[1]@[0]@[1]@[1]
            + f.coefficients@[1]@[1]@[0]@[0] + f.coefficients@[1]@[1]@[0]@[1]
            + f.coefficients@[1]@[1]@[1]@[0] + f.coefficients@[1]@[1]@[1]@[1],
        sample_point4(corner_samples4(f)[4]) == seq![-1i64, 1i64, -1i64, -1i64],
        corner_samples4(f)[4].4 == f.coefficients@[0]@[0]@[0]@[0] - f.coefficients@[0]@[0]@[0]@[1]
            - f.coefficients@[0]@[0]@[1]@[0] + f.coefficients@[0]@[0]@[1]@[1]
            + f.coefficients@[0]@[1]@[0]@[0] - f.coefficients@[0]@[1]@[0]@[1]
            - f.coefficients@[0]@[1]@[1]@[0] + f.coefficients@[0]@[1]@[1]@[1]
            - f.coefficients@[1]@[0]@[0]@[0] + f.coefficients@[1]@[0]@[0]@[1]
            + f.coefficients@[1]@[0]@[1]@[0] - f.coefficients@[1]@[0]@[1]@[1]
            - f.coefficients@[1]@[1]@[0]@[0] + f.coefficients@[1]@[1]@[0]@[1]
            + f.coefficients@[1]@[1]@[1]@[0] - f.coefficients@[1]@[1]@[1]@[1],
        sample_point4(corner_samples4(f)[5]) == seq![-1i64, 1i64, -1i64, 1i64],
        corner_samples4(f)[5].4 == f.coefficients@[0]@[0]@[0]@[0] + f.coefficients@[0]@[0]@[0]@[1]
            - f.coefficients@[0]@[0]@[1]@[0] - f.coefficients@[0]@[0]@[1]@[1]
            + f.coefficients@[0]@[1]@[0]@[0] + f.coefficients@[0]@[1]@[0]@[1]
            - f.coefficients@[0]@[1]@[1]@[0] - f.coefficients@[0]@[1]@[1]@[1]
            - f.coefficients@[1]@[0]@[0]@[0] - f.coefficients@[1]@[0]@[0]@[1]
            + f.coefficients@[1]@[0]@[1]@[0] + f.coefficients@[1]@[0]@[1]@[1]
            - f.coefficients@[1]@[1]@[0]@[0] - f.coefficients@[1]@[1]@[0]@[1]
            + f.coefficients@[1]@[1]@[1]@[0] + f.coefficients@[1]@[1]@[1]@[1],
        sample_point4(corner_samples4(f)[6]) == seq![-1i64, 1i64, 1i64, -1i64],
        corner_samples4(f)[6].4 == f.coefficients@[0]@[0]@[0]@[0] - f.coefficients@[0]@[0]@[0]@[1]
            + f.coefficients@[0]@[0]@[1]@[0] - f.coefficients@[0]@[0]@[1]@[1]
            + f.coefficients@[0]@[1]@[0]@[0] - f.coefficients@[0]@[1]@[0]@[1]
            + f.coefficients@[0]@[1]@[1]@[0] - f.coefficients@[0]@[1]@[1]@[1]
            - f.coefficients@[1]@[0]@[0]@[0] + f.coefficients@[1]@[0]@[0]@[1]
            - f.coefficients@[1]@[0]@[1]@[0] + f.coefficients@[1]@[0]@[1]@[1]
            - f.coefficients@[1]@[1]@[0]@[0] + f.coefficients@[1]@[1]@[0]@[1]
            - f.coefficients@[1]@[1]@[1]@[0] + f.coefficients@[1]@[1]@[1]@[1],
        sample_point4(corner_samples4(f)[7]) == seq![-1i64, 1i64, 1i64, 1i64],
        corner_samples4(f)[7].4 == f.coefficients@[0]@[0]@[0]@[0] + f.coefficients@[0]@[0]@[0]@[1]
            + f.coefficients@[0]@[0]@[1]@[0] + f.coefficients@[0]@[0]@[1]@[1]
            + f.coefficients@[0]@[1]@[0]@[0] + f.coefficients@[0]@[1]@[0]@[1]
            + f.coefficients@[0]@[1]@[1]@[0] + f.coefficients@[0]@[1]@[1]@[1]
            - f.coefficients@[1]@[0]@[0]@[0] - f.coefficients@[1]@[0]@[0]@[1]
            - f.coefficients@[1]@[0]@[1]@[0] - f.coefficients@[1]@[0]@[1]@[1]
            - f.coefficients@[1]@[1]@[0]@[0] - f.coefficients@[1]@[1]@[0]@[1]
            - f.coefficients@[1]@[1]@[1]@[0] - f.coefficients@[1]@[1]@[1]@[1],
        sample_point4(corner_samples4(f)[8]) == seq![1i64, -1i64, -1i64, -1i64],
        corner_samples4(f)[8].4 == f.coefficients@[0]@[0]@[0]@[0] - f.coefficients@[0]@[0]@[0]@[1]
            - f.coefficients@[0]@[0]@[1]@[0] + f.coefficients@[0]@[0]@[1]@[1]
            - f.coefficients@[0]@[1]@[0]@[0] + f.coefficients@[0]@[1]@[0]@[1]
            + f.coefficients@[0]@[1]@[1]@[0] - f.coefficients@[0]@[1]@[1]@[1]
            + f.coefficients@[1]@[0]@[0]@[0] - f.coefficients@[1]@[0]@[0]@[1]
            - f.coefficients@[1]@[0]@[1]@[0] + f.coefficients@[1]@[0]@[1]@[1]
            - f.coefficients@[1]@[1]@[0]@[0] + f.coefficients@[1]@[1]@[0]@[1]
            + f.coefficients@[1]@[1]@[1]@[0] - f.coefficients@[1]@[1]@[1]@[1],
        sample_point4(corner_samples4(f)[9]) == seq![1i64, -1i64, -1i64, 1i64],
        corner_samples4(f)[9].4 == f.coefficients@[0]@[0]@[0]@[0] + f.coefficients@[0]@[0]@[0]@[1]
            - f.coefficients@[0]@[0]@[1]@[0] - f.coefficients@[0]@[0]@[1]@[1]
            - f.coefficients@[0]@[1]@[0]@[0] - f.coefficients@[0]@[1]@[0]@[1]
            + f.coefficients@[0]@[1]@[1]@[0] + f.coefficients@[0]@[1]@[1]@[1]
            + f.coefficients@[1]@[0]@[0]@[0] + f.coefficients@[1]@[0]@[0]@[1]
            - f.coefficients@[1]@[0]@[1]@[0] - f.coefficients@[1]@[0]@[1]@[1]
            - f.coefficients@[1]@[1]@[0]@[0] - f.coefficients@[1]@[1]@[0]@[1]
            + f.coefficients@[1]@[1]@[1]@[0] + f.coefficients@[1]@[1]@[1]@[1],
        sample_point4(corner_samples4(f)[10]) == seq![1i64, -1i64, 1i64, -1i64],
        corner_samples4(f)[10].4 == f.coefficients@[0]@[0]@[0]@[0] - f.coefficients@[0]@[0]@[0]@[1]
            + f.coefficients@[0]@[0]@[1]@[0] - f.coefficients@[0]@[0]@[1]@[1]
            - f.coefficients@[0]@[1]@[0]@[0] + f.coefficients@[0]@[1]@[0]@[1]
            - f.coefficients@[0]@[1]@[1]@[0] + f.coefficients@[0]@[1]@[1]@[1]
            + f.coefficients@[1]@[0]@[0]@[0] - f.coefficients@[1]@[0]@[0]@[1]
            + f.coefficients@[1]@[0]@[1]@[0] - f.coefficients@[1]@[0]@[1]@[1]
            - f.coefficients@[1]@[1]@[0]@[0] + f.coefficients@[1]@[1]@[0]@[1]
            - f.coefficients@[1]@[1]@[1]@[0] + f.coefficients@[1]@[1]@[1]@[1],
        sample_point4(corner_samples4(f)[11]) == seq![1i64, -1i64, 1i64, 1i64],
        corner_samples4(f)[11].4 == f.coefficients@[0]@[0]@[0]@[0] + f.coefficients@[0]@[0]@[0]@[1]
            + f.coefficients@[0]@[0]@[1]@[0] + f.coefficients@[0]@[0]@[1]@[1]
            - f.coefficients@[0]@[1]@[0]@[0] - f.coefficients@[0]@[1]@[0]@[1]
            - f.coefficients@[0]@[1]@[1]@[0] - f.coefficients@[0]@[1]@[1]@[1]
            + f.coefficients@[1]@[0]@[0]@[0] + f.coefficients@[1]@[0]@[0]@[1]
            + f.coefficients@[1]@[0]@[1]@[0] + f.coefficients@[1]@[0]@[1]@[1]
            - f.coefficients@[1]@[1]@[0]@[0] - f.coefficients@[1]@[1]@[0]@[1]
            - f.coefficients@[1]@[1]@[1]@[0] - f.coefficients@[1]@[1]@[1]@[1],
        sample_point4(corner_samples4(f)[12]) == seq![1i64, 1i64, -1i64, -1i64],
        corner_samples4(f)[12].4 == f.coefficients@[0]@[0]@[0]@[0] - f.coefficients@[0]@[0]@[0]@[1]
            - f.coefficients@[0]@[0]@[1]@[0] + f.coefficients@[0]@[0]@[1]@[1]
            + f.coefficients@[0]@[1]@[0]@[0] - f.coefficients@[0]@[1]@[0]@[1]
            - f.coefficients@[0]@[1]@[1]@[0] + f.coefficients@[0]@[1]@[1]@[1]
            + f.coefficients@[1]@[0]@[0]@[0] - f.coefficients@[1]@[0]@[0]@[1]
            - f.coefficients@[1]@[0]@[1]@[0] + f.coefficients@[1]@[0]@[1]@[1]
            + f.coefficients@[1]@[1]@[0]@[0] - f.coefficients@[1]@[1]@[0]@[1]
            - f.coefficients@[1]@[1]@[1]@[0] + f.coefficients@[1]@[1]@[1]@[1],
        sample_point4(corner_samples4(f)[13]) == seq![1i64, 1i64, -1i64, 1i64],
        corner_samples4(f)[13].4 == f.coefficients@[0]@[0]@[0]@[0] + f.coefficients@[0]@[0]@[0]@[1]
            - f.coefficients@[0]@[0]@[1]@[0] - f.coefficients@[0]@[0]@[1]@[1]
            + f.coefficients@[0]@[1]@[0]@[0] + f.coefficients@[0]@[1]@[0]@[1]
            - f.coefficients@[0]@[1]@[1]@[0] - f.coefficients@[0]@[1]@[1]@[1]
            + f.coefficients@[1]@[0]@[0]@[0] + f.coefficients@[1]@[0]@[0]@[1]
            - f.coefficients@[1]@[0]@[1]@[0] - f.coefficients@[1]@[0]@[1]@[1]
            + f.coefficients@[1]@[1]@[0]@[0] + f.coefficients@[1]@[1]@[0]@[1]
            - f.coefficients@[1]@[1]@[1]@[0] - f.coefficients@[1]@[1]@[1]@[1],
        sample_point4(corner_samples4(f)[14]) == seq![1i64, 1i64, 1i64, -1i64],
        corner_samples4(f)[14].4 == f.coefficients@[0]@[0]@[0]@[0] - f.coefficients@[0]@[0]@[0]@[1]
            + f.coefficients@[0]@[0]@[1]@[0] - f.coefficients@[0]@[0]@[1]@[1]
            + f.coefficients@[0]@[1]@[0]@[0] - f.coefficients@[0]@[1]@[0]@[1]
            + f.coefficients@[0]@[1]@[1]@[0] - f.coefficients@[0]@[1]@[1]@[1]
            + f.coefficients@[1]@[0]@[0]@[0] - f.coefficients@[1]@[0]@[0]@[1]
            + f.coefficients@[1]@[0]@[1]@[0] - f.coefficients@[1]@[0]@[1]@[1]
            + f.coefficients@[1]@[1]@[0]@[0] - f.coefficients@[1]@[1]@[0]@[1]
            + f.coefficients@[1]@[1]@[1]@[0] - f.coefficients@[1]@[1]@[1]@[1],
        sample_point4(corner_samples4(f)[15]) == seq![1i64, 1i64, 1i64, 1i64],
        corner_samples4(f)[15].4 == f.coefficients@[0]@[0]@[0]@[0] + f.coefficients@[0]@[0]@[0]@[1]
            + f.coefficients@[0]@[0]@[1]@[0] + f.coefficients@[0]@[0]@[1]@[1]
            + f.coefficients@[0]@[1]@[0]@[0] + f.coefficients@[0]@[1]@[0]@[1]
            + f.coefficients@[0]@[1]@[1]@[0] + f.coefficients@[0]@[1]@[1]@[1]
            + f.coefficients@[1]@[0]@[0]@[0] + f.coefficients@[1]@[0]@[0]@[1]
            + f.coefficients@[1]@[0]@[1]@[0] + f.coefficients@[1]@[0]@[1]@[1]
            + f.coefficients@[1]@[1]@[0]@[0] + f.coefficients@[1]@[1]@[0]@[1]
            + f.coefficients@[1]@[1]@[1]@[0] + f.coefficients@[1]@[1]@[1]@[1],
{
    let pts = corner_samples4(f);
    lemma_corner_value_mmmm(f);
    assert(pts[0] == (-1i64, -1i64, -1i64, -1i64, f.value(-1i64, -1i64, -1i64, -1i64) as i64));
    assert(sample_point4(pts[0]) =~= seq![-1i64, -1i64, -1i64, -1i64]);
    lemma_corner_value_mmmp(f);
    assert(pts[1] == (-1i64, -1i64, -1i64, 1i64, f.value(-1i64, -1i64, -1i64, 1i64) as i64));
    assert(sample_point4(pts[1]) =~= seq![-1i64, -1i64, -1i64, 1i64]);
    lemma_corner_value_mmpm(f);
    assert(pts[2] == (-1i64, -1i64, 1i64, -1i64, f.value(-1i64, -1i64, 1i64, -1i64) as i64));
    assert(sample_point4(pts[2]) =~= seq![-1i64, -1i64, 1i64, -1i64]);
    lemma_corner_value_mmpp(f);
    assert(pts[3] == (-1i64, -1i64, 1i64, 1i64, f.value(-1i64, -1i64, 1i64, 1i64) as i64));
    assert(sample_point4(pts[3]) =~= seq![-1i64, -1i64, 1i64, 1i64]);
    lemma_corner_value_mpmm(f);
    assert(pts[4] == (-1i64, 1i64, -1i64, -1i64, f.value(-1i64, 1i64, -1i64, -1i64) as i64));
    assert(sample_point4(pts[4]) =~= seq![-1i64, 1i64, -1i64, -1i64]);
    lemma_corner_value_mpmp(f);
    assert(pts[5] == (-1i64, 1i64, -1i64, 1i64, f.value(-1i64, 1i64, -1i64, 1i64) as i64));
    assert(sample_point4(pts[5]) =~= seq![-1i64, 1i64, -1i64, 1i64]);
    lemma_corner_value_mppm(f);
    assert(pts[6] == (-1i64, 1i64, 1i64, -1i64, f.value(-1i64, 1i64, 1i64, -1i64) as i64));
    assert(sample_point4(pts[6]) =~= seq![-1i64, 1i64, 1i64, -1i64]);
    lemma_corner_value_mppp(f);
    assert(pts[7] == (-1i64, 1i64, 1i64, 1i64, f.value(-1i64, 1i64, 1i64, 1i64) as i64));
    assert(sample_point4(pts[7]) =~= seq![-1i64, 1i64, 1i64, 1i64]);
    lemma_corner_value_pmmm(f);
    assert(pts[8] == (1i64, -1i64, -1i64, -1i64, f.value(1i64, -1i64, -1i64, -1i64) as i64));
    assert(sample_point4(pts[8]) =~= seq![1i64, -1i64, -1i64, -1i64]);
    lemma_corner_value_pmmp(f);
    assert(pts[9] == (1i64, -1i64, -1i64, 1i64, f.value(1i64, -1i64, -1i64, 1i64) as i64));
    assert(sample_point4(pts[9]) =~= seq![1i64, -1i64, -1i64, 1i64]);
    lemma_corner_value_pmpm(f);
    assert(pts[10] == (1i64, -1i64, 1i64, -1i64, f.value(1i64, -1i64, 1i64, -1i64) as i64));
    assert(sample_point4(pts[10]) =~= seq![1i64, -1i64, 1i64, -1i64]);
    lemma_corner_value_pmpp(f);
    assert(pts[11] == (1i64, -1i64, 1i64, 1i64, f.value(1i64, -1i64, 1i64, 1i64) as i64));
    assert(sample_point4(pts[11]) =~= seq![1i64, -1i64, 1i64, 1i64]);
    lemma_corner_value_ppmm(f);
    assert(pts[12] == (1i64, 1i64, -1i64, -1i64, f.value(1i64, 1i64, -1i64, -1i64) as i64));
    assert(sample_point4(pts[12]) =~= seq![1i64, 1i64, -1i64, -1i64]);
    lemma_corner_value_ppmp(f);
    assert(pts[13] == (1i64, 1i64, -1i64, 1i64, f.value(1i64, 1i64, -1i64, 1i64) as i64));
    assert(sample_point4(pts[13]) =~= seq![1i64, 1i64, -1i64, 1i64]);
    lemma_corner_value_pppm(f);
    assert(pts[14] == (1i64, 1i64, 1i64, -1i64, f.value(1i64, 1i64, 1i64, -1i64) as i64));
    assert(sample_point4(pts[14]) =~= seq![1i64, 1i64, 1i64, -1i64]);
    lemma_corner_value_pppp(f);
    assert(pts[15] == (1i64, 1i64, 1i64, 1i64, f.value(1i64, 1i64, 1i64, 1i64) as i64));
    assert(sample_point4(pts[15]) =~= seq![1i64, 1i64, 1i64, 1i64]);
}

proof fn lemma_fit4_numerator_0000(f: Polynom4d<2>)
    requires
        fits_i64(f.value(-1i64, -1i64, -1i64, -1i64)),
        fits_i64(f.value(-1i64, -1i64, -1i64, 1i64)),
        fits_i64(f.value(-1i64, -1i64, 1i64, -1i64)),
        fits_i64(f.value(-1i64, -1i64, 1i64, 1i64)),
        fits_i64(f.value(-1i64, 1i64, -1i64, -1i64)),
        fits_i64(f.value(-1i64, 1i64, -1i64, 1i64)),
        fits_i64(f.value(-1i64, 1i64, 1i64, -1i64)),
        fits_i64(f.value(-1i64, 1i64, 1i64, 1i64)),
        fits_i64(f.value(1i64, -1i64, -1i64, -1i64)),
        fits_i64(f.value(1i64, -1i64, -1i64, 1i64)),
        fits_i64(f.value(1i64, -1i64, 1i64, -1i64)),
        fits_i64(f.value(1i64, -1i64, 1i64, 1i64)),
        fits_i64(f.value(1i64, 1i64, -1i64, -1i64)),
        fits_i64(f.value(1i64, 1i64, -1i64, 1i64)),
        fits_i64(f.value(1i64, 1i64, 1i64, -1i64)),
        fits_i64(f.value(1i64, 1i64, 1i64, 1i64)),
    ensures
        seq_sum(fit4_numerators(corner_samples4(f), 0, 0, 0, 0))
            == 16 * f.coefficients@[0]@[0]@[0]@[0],
{
    let pts = corner_samples4(f);
    let num = fit4_numerators(pts, 0, 0, 0, 0);
    lemma_corner_samples4(f);
    lemma_seq_sum16(num);
    assert(num[0] == 1 * pts[0].4) by {
        lemma_unit_term4(pts[0].4 as int, seq![0int, 0int, 0int, 0int], sample_point4(pts[0]));
    }
    assert(num[1] == 1 * pts[1].4) by {
        lemma_unit_term4(pts[1].4 as int, seq![0int, 0int, 0int, 0int], sample_point4(pts[1]));
    }
    assert(num[2] == 1 * pts[2].4) by {
        lemma_unit_term4(pts[2].4 as int, seq![0int, 0int, 0int, 0int], sample_point4(pts[2]));
    }
    assert(num[3] == 1 * pts[3].4) by {
        lemma_unit_term4(pts[3].4 as int, seq![0int, 0int, 0int, 0int], sample_point4(pts[3]));
    }
    assert(num[4] == 1 * pts[4].4) by {
        lemma_unit_term4(pts[4].4 as int, seq![0int, 0int, 0int, 0int], sample_point4(pts[4]));
    }
    assert(num[5] == 1 * pts[5].4) by {
        lemma_unit_term4(pts[5].4 as int, seq![0int, 0int, 0int, 0int], sample_point4(pts[5]));
    }
    assert(num[6] == 1 * pts[6].4) by {
        lemma_unit_term4(pts[6].4 as int, seq![0int, 0int, 0int, 0int], sample_point4(pts[6]));
    }
    assert(num[7] == 1 * pts[7].4) by {
        lemma_unit_term4(pts[7].4 as int, seq![0int, 0int, 0int, 0int], sample_point4(pts[7]));
    }
    assert(num[8] == 1 * pts[8].4) by {
        lemma_unit_term4(pts[8].4 as int, seq![0int, 0int, 0int, 0int], sample_point4(pts[8]));
    }
    assert(num[9] == 1 * pts[9].4) by {
        lemma_unit_term4(pts[9].4 as int, seq![0int, 0int, 0int, 0int], sample_point4(pts[9]));
    }
    assert(num[10] == 1 * pts[10].4) by {
        lemma_unit_term4(pts[10].4 as int, seq![0int, 0int, 0int, 0int], sample_point4(pts[10]));
    }
    assert(num[11] == 1 * pts[11].4) by {
        lemma_unit_term4(pts[11].4 as int, seq![0int, 0int, 0int, 0int], sample_point4(pts[11]));
    }
    assert(num[12] == 1 * pts[12].4) by {
        lemma_unit_term4(pts[12].4 as int, seq![0int, 0int, 0int, 0int], sample_point4(pts[12]));
    }
    assert(num[13] == 1 * pts[13].4) by {
        lemma_unit_term4(pts[13].4 as int, seq![0int, 0int, 0int, 0int], sample_point4(pts[13]));
    }
    assert(num[14] == 1 * pts[14].4) by {
        lemma_unit_term4(pts[14].4 as int, seq![0int, 0int, 0int, 0int], sample_point4(pts[14]));
    }
    assert(num[15] == 1 * pts[15].4) by {
        lemma_unit_term4(pts[15].4 as int, seq![0int, 0int, 0int, 0int], sample_point4(pts[15]));
    }
}

proof fn lemma_fit4_numerator_0001(f: Polynom4d<2>)
    requires
        fits_i64(f.value(-1i64, -1i64, -1i64, -1i64)),
        fits_i64(f.value(-1i64, -1i64, -1i64, 1i64)),
        fits_i64(f.value(-1i64, -1i64, 1i64, -1i64)),
        fits_i64(f.value(-1i64, -1i64, 1i64, 1i64)),
        fits_i64(f.value(-1i64, 1i64, -1i64, -1i64)),
        fits_i64(f.value(-1i64, 1i64, -1i64, 1i64)),
        fits_i64(f.value(-1i64, 1i64, 1i64, -1i64)),
        fits_i64(f.value(-1i64, 1i64, 1i64, 1i64)),
        fits_i64(f.value(1i64, -1i64, -1i64, -1i64)),
        fits_i64(f.value(1i64, -1i64, -1i64, 1i64)),
        fits_i64(f.value(1i64, -1i64, 1i64, -1i64)),
        fits_i64(f.value(1i64, -1i64, 1i64, 1i64)),
        fits_i64(f.value(1i64, 1i64, -1i64, -1i64)),
        fits_i64(f.value(1i64, 1i64, -1i64, 1i64)),
        fits_i64(f.value(1i64, 1i64, 1i64, -1i64)),
        fits_i64(f.value(1i64, 1i64, 1i64, 1i64)),
    ensures
        seq_sum(fit4_numerators(corner_samples4(f), 0, 0, 0, 1))
            == 16 * f.coefficients@[0]@[0]@[0]@[1],
{
    let pts = corner_samples4(f);
    let num = fit4_numerators(pts, 0, 0, 0, 1);
    lemma_corner_samples4(f);
    lemma_seq_sum16(num);
    assert(num[0] == -1 * pts[0].4) by {
        lemma_unit_term4(pts[0].4 as int, seq![0int, 0int, 0int, 1int], sample_point4(pts[0]));
    }
    assert(num[1] == 1 * pts[1].4) by {
        lemma_unit_term4(pts[1].4 as int, seq![0int, 0int, 0int, 1int], sample_point4(pts[1]));
    }
    assert(num[2] == -1 * pts[2].4) by {
        lemma_unit_term4(pts[2].4 as int, seq![0int, 0int, 0int, 1int], sample_point4(pts[2]));
    }
    assert(num[3] == 1 * pts[3].4) by {
        lemma_unit_term4(pts[3].4 as int, seq![0int, 0int, 0int, 1int], sample_point4(pts[3]));
    }
    assert(num[4] == -1 * pts[4].4) by {
        lemma_unit_term4(pts[4].4 as int, seq![0int, 0int, 0int, 1int], sample_point4(pts[4]));
    }
    assert(num[5] == 1 * pts[5].4) by {
        lemma_unit_term4(pts[5].4 as int, seq![0int, 0int, 0int, 1int], sample_point4(pts[5]));
    }
    assert(num[6] == -1 * pts[6].4) by {
        lemma_unit_term4(pts[6].4 as int, seq![0int, 0int, 0int, 1int], sample_point4(pts[6]));
    }
    assert(num[7] == 1 * pts[7].4) by {
        lemma_unit_term4(pts[7].4 as int, seq![0int, 0int, 0int, 1int], sample_point4(pts[7]));
    }
    assert(num[8] == -1 * pts[8].4) by {
        lemma_unit_term4(pts[8].4 as int, seq![0int, 0int, 0int, 1int], sample_point4(pts[8]));
    }
    assert(num[9] == 1 * pts[9].4) by {
        lemma_unit_term4(pts[9].4 as int, seq![0int, 0int, 0int, 1int], sample_point4(pts[9]));
    }
    assert(num[10] == -1 * pts[10].4) by {
        lemma_unit_term4(pts[10].4 as int, seq![0int, 0int, 0int, 1int], sample_point4(pts[10]));
    }
    assert(num[11] == 1 * pts[11].4) by {
        lemma_unit_term4(pts[11].4 as int, seq![0int, 0int, 0int, 1int], sample_point4(pts[11]));
    }
    assert(num[12] == -1 * pts[12].4) by {
        lemma_unit_term4(pts[12].4 as int, seq![0int, 0int, 0int, 1int], sample_point4(pts[12]));
    }
    assert(num[13] == 1 * pts[13].4) by {
        lemma_unit_term4(pts[13].4 as int, seq![0int, 0int, 0int, 1int], sample_point4(pts[13]));
    }
    assert(num[14] == -1 * pts[14].4) by {
        lemma_unit_term4(pts[14].4 as int, seq![0int, 0int, 0int, 1int], sample_point4(pts[14]));
    }
    assert(num[15] == 1 * pts[15].4) by {
        lemma_unit_term4(pts[15].4 as int, seq![0int, 0int, 0int, 1int], sample_point4(pts[15]));
    }
}

proof fn lemma_fit4_numerator_0010(f: Polynom4d<2>)
    requires
        fits_i64(f.value(-1i64, -1i64, -1i64, -1i64)),
        fits_i64(f.value(-1i64, -1i64, -1i64, 1i64)),
        fits_i64(f.value(-1i64, -1i64, 1i64, -1i64)),
        fits_i64(f.value(-1i64, -1i64, 1i64, 1i64)),
        fits_i64(f.value(-1i64, 1i64, -1i64, -1i64)),
        fits_i64(f.value(-1i64, 1i64, -1i64, 1i64)),
        fits_i64(f.value(-1i64, 1i64, 1i64, -1i64)),
        fits_i64(f.value(-1i64, 1i64, 1i64, 1i64)),
        fits_i64(f.value(1i64, -1i64, -1i64, -1i64)),
        fits_i64(f.value(1i64, -1i64, -1i64, 1i64)),
        fits_i64(f.value(1i64, -1i64, 1i64, -1i64)),
        fits_i64(f.value(1i64, -1i64, 1i64, 1i64)),
        fits_i64(f.value(1i64, 1i64, -1i64, -1i64)),
        fits_i64(f.value(1i64, 1i64, -1i64, 1i64)),
        fits_i64(f.value(1i64, 1i64, 1i64, -1i64)),
        fits_i64(f.value(1i64, 1i64, 1i64, 1i64)),
    ensures
        seq_sum(fit4_numerators(corner_samples4(f), 0, 0, 1, 0))
            == 16 * f.coefficients@[0]@[0]@[1]@[0],
{
    let pts = corner_samples4(f);
    let num = fit4_numerators(pts, 0, 0, 1, 0);
    lemma_corner_samples4(f);
    lemma_seq_sum16(num);
    assert(num[0] == -1 * pts[0].4) by {
        lemma_unit_term4(pts[0].4 as int, seq![0int, 0int, 1int, 0int], sample_point4(pts[0]));
    }
    assert(num[1] == -1 * pts[1].4) by {
        lemma_unit_term4(pts[1].4 as int, seq![0int, 0int, 1int, 0int], sample_point4(pts[1]));
    }
    assert(num[2] == 1 * pts[2].4) by {
        lemma_unit_term4(pts[2].4 as int, seq![0int, 0int, 1int, 0int], sample_point4(pts[2]));
    }
    assert(num[3] == 1 * pts[3].4) by {
        lemma_unit_term4(pts[3].4 as int, seq![0int, 0int, 1int, 0int], sample_point4(pts[3]));
    }
    assert(num[4] == -1 * pts[4].4) by {
        lemma_unit_term4(pts[4].4 as int, seq![0int, 0int, 1int, 0int], sample_point4(pts[4]));
    }
    assert(num[5] == -1 * pts[5].4) by {
        lemma_unit_term4(pts[5].4 as int, seq![0int, 0int, 1int, 0int], sample_point4(pts[5]));
    }
    assert(num[6] == 1 * pts[6].4) by {
        lemma_unit_term4(pts[6].4 as int, seq![0int, 0int, 1int, 0int], sample_point4(pts[6]));
    }
    assert(num[7] == 1 * pts[7].4) by {
        lemma_unit_term4(pts[7].4 as int, seq![0int, 0int, 1int, 0int], sample_point4(pts[7]));
    }
    assert(num[8] == -1 * pts[8].4) by {
        lemma_unit_term4(pts[8].4 as int, seq![0int, 0int, 1int, 0int], sample_point4(pts[8]));
    }
    assert(num[9] == -1 * pts[9].4) by {
        lemma_unit_term4(pts[9].4 as int, seq![0int, 0int, 1int, 0int], sample_point4(pts[9]));
    }
    assert(num[10] == 1 * pts[10].4) by {
        lemma_unit_term4(pts[10].4 as int, seq![0int, 0int, 1int, 0int], sample_point4(pts[10]));
    }
    assert(num[11] == 1 * pts[11].4) by {
        lemma_unit_term4(pts[11].4 as int, seq![0int, 0int, 1int, 0int], sample_point4(pts[11]));
    }
    assert(num[12] == -1 * pts[12].4) by {
        lemma_unit_term4(pts[12].4 as int, seq![0int, 0int, 1int, 0int], sample_point4(pts[12]));
    }
    assert(num[13] == -1 * pts[13].4) by {
        lemma_unit_term4(pts[13].4 as int, seq![0int, 0int, 1int, 0int], sample_point4(pts[13]));
    }
    assert(num[14] == 1 * pts[14].4) by {
        lemma_unit_term4(pts[14].4 as int, seq![0int, 0int, 1int, 0int], sample_point4(pts[14]));
    }
    assert(num[15] == 1 * pts[15].4) by {
        lemma_unit_term4(pts[15].4 as int, seq![0int, 0int, 1int, 0int], sample_point4(pts[15]));
    }
}

proof fn lemma_fit4_numerator_0011(f: Polynom4d<2>)
    requires
        fits_i64(f.value(-1i64, -1i64, -1i64, -1i64)),
        fits_i64(f.value(-1i64, -1i64, -1i64, 1i64)),
        fits_i64(f.value(-1i64, -1i64, 1i64, -1i64)),
        fits_i64(f.value(-1i64, -1i64, 1i64, 1i64)),
        fits_i64(f.value(-1i64, 1i64, -1i64, -1i64)),
        fits_i64(f.value(-1i64, 1i64, -1i64, 1i64)),
        fits_i64(f.value(-1i64, 1i64, 1i64, -1i64)),
        fits_i64(f.value(-1i64, 1i64, 1i64, 1i64)),
        fits_i64(f.value(1i64, -1i64, -1i64, -1i64)),
        fits_i64(f.value(1i64, -1i64, -1i64, 1i64)),
        fits_i64(f.value(1i64, -1i64, 1i64, -1i64)),
        fits_i64(f.value(1i64, -1i64, 1i64, 1i64)),
        fits_i64(f.value(1i64, 1i64, -1i64, -1i64)),
        fits_i64(f.value(1i64, 1i64, -1i64, 1i64)),
        fits_i64(f.value(1i64, 1i64, 1i64, -1i64)),
        fits_i64(f.value(1i64, 1i64, 1i64, 1i64)),
    ensures
        seq_sum(fit4_numerators(corner_samples4(f), 0, 0, 1, 1))
            == 16 * f.coefficients@[0]@[0]@[1]@[1],
{
    let pts = corner_samples4(f);
    let num = fit4_numerators(pts, 0, 0, 1, 1);
    lemma_corner_samples4(f);
    lemma_seq_sum16(num);
    assert(num[0] == 1 * pts[0].4) by {
        lemma_unit_term4(pts[0].4 as int, seq![0int, 0int, 1int, 1int], sample_point4(pts[0]));
    }
    assert(num[1] == -1 * pts[1].4) by {
        lemma_unit_term4(pts[1].4 as int, seq![0int, 0int, 1int, 1int], sample_point4(pts[1]));
    }
    assert(num[2] == -1 * pts[2].4) by {
        lemma_unit_term4(pts[2].4 as int, seq![0int, 0int, 1int, 1int], sample_point4(pts[2]));
    }
    assert(num[3] == 1 * pts[3].4) by {
        lemma_unit_term4(pts[3].4 as int, seq![0int, 0int, 1int, 1int], sample_point4(pts[3]));
    }
    assert(num[4] == 1 * pts[4].4) by {
        lemma_unit_term4(pts[4].4 as int, seq![0int, 0int, 1int, 1int], sample_point4(pts[4]));
    }
    assert(num[5] == -1 * pts[5].4) by {
        lemma_unit_term4(pts[5].4 as int, seq![0int, 0int, 1int, 1int], sample_point4(pts[5]));
    }
    assert(num[6] == -1 * pts[6].4) by {
        lemma_unit_term4(pts[6].4 as int, seq![0int, 0int, 1int, 1int], sample_point4(pts[6]));
    }
    assert(num[7] == 1 * pts[7].4) by {
        lemma_unit_term4(pts[7].4 as int, seq![0int, 0int, 1int, 1int], sample_point4(pts[7]));
    }
    assert(num[8] == 1 * pts[8].4) by {
        lemma_unit_term4(pts[8].4 as int, seq![0int, 0int, 1int, 1int], sample_point4(pts[8]));
    }
    assert(num[9] == -1 * pts[9].4) by {
        lemma_unit_term4(pts[9].4 as int, seq![0int, 0int, 1int, 1int], sample_point4(pts[9]));
    }
    assert(num[10] == -1 * pts[10].4) by {
        lemma_unit_term4(pts[10].4 as int, seq![0int, 0int, 1int, 1int], sample_point4(pts[10]));
    }
    assert(num[11] == 1 * pts[11].4) by {
        lemma_unit_term4(pts[11].4 as int, seq![0int, 0int, 1int, 1int], sample_point4(pts[11]));
    }
    assert(num[12] == 1 * pts[12].4) by {
        lemma_unit_term4(pts[12].4 as int, seq![0int, 0int, 1int, 1int], sample_point4(pts[12]));
    }
    assert(num[13] == -1 * pts[13].4) by {
        lemma_unit_term4(pts[13].4 as int, seq![0int, 0int, 1int, 1int], sample_point4(pts[13]));
    }
    assert(num[14] == -1 * pts[14].4) by {
        lemma_unit_term4(pts[14].4 as int, seq![0int, 0int, 1int, 1int], sample_point4(pts[14]));
    }
    assert(num[15] == 1 * pts[15].4) by {
        lemma_unit_term4(pts[15].4 as int, seq![0int, 0int, 1int, 1int], sample_point4(pts[15]));
    }
}

proof fn lemma_fit4_numerator_0100(f: Polynom4d<2>)
    requires
        fits_i64(f.value(-1i64, -1i64, -1i64, -1i64)),
        fits_i64(f.value(-1i64, -1i64, -1i64, 1i64)),
        fits_i64(f.value(-1i64, -1i64, 1i64, -1i64)),
        fits_i64(f.value(-1i64, -1i64, 1i64, 1i64)),
        fits_i64(f.value(-1i64, 1i64, -1i64, -1i64)),
        fits_i64(f.value(-1i64, 1i64, -1i64, 1i64)),
        fits_i64(f.value(-1i64, 1i64, 1i64, -1i64)),
        fits_i64(f.value(-1i64, 1i64, 1i64, 1i64)),
        fits_i64(f.value(1i64, -1i64, -1i64, -1i64)),
        fits_i64(f.value(1i64, -1i64, -1i64, 1i64)),
        fits_i64(f.value(1i64, -1i64, 1i64, -1i64)),
        fits_i64(f.value(1i64, -1i64, 1i64, 1i64)),
        fits_i64(f.value(1i64, 1i64, -1i64, -1i64)),
        fits_i64(f.value(1i64, 1i64, -1i64, 1i64)),
        fits_i64(f.value(1i64, 1i64, 1i64, -1i64)),
        fits_i64(f.value(1i64, 1i64, 1i64, 1i64)),
    ensures
        seq_sum(fit4_numerators(corner_samples4(f), 0, 1, 0, 0))
            == 16 * f.coefficients@[0]@[1]@[0]@[0],
{
    let pts = corner_samples4(f);
    let num = fit4_numerators(pts, 0, 1, 0, 0);
    lemma_corner_samples4(f);
    lemma_seq_sum16(num);
    assert(num[0] == -1 * pts[0].4) by {
        lemma_unit_term4(pts[0].4 as int, seq![0int, 1int, 0int, 0int], sample_point4(pts[0]));
    }
    assert(num[1] == -1 * pts[1].4) by {
        lemma_unit_term4(pts[1].4 as int, seq![0int, 1int, 0int, 0int], sample_point4(pts[1]));
    }
    assert(num[2] == -1 * pts[2].4) by {
        lemma_unit_term4(pts[2].4 as int, seq![0int, 1int, 0int, 0int], sample_point4(pts[2]));
    }
    assert(num[3] == -1 * pts[3].4) by {
        lemma_unit_term4(pts[3].4 as int, seq![0int, 1int, 0int, 0int], sample_point4(pts[3]));
    }
    assert(num[4] == 1 * pts[4].4) by {
        lemma_unit_term4(pts[4].4 as int, seq![0int, 1int, 0int, 0int], sample_point4(pts[4]));
    }
    assert(num[5] == 1 * pts[5].4) by {
        lemma_unit_term4(pts[5].4 as int, seq![0int, 1int, 0int, 0int], sample_point4(pts[5]));
    }
    assert(num[6] == 1 * pts[6].4) by {
        lemma_unit_term4(pts[6].4 as int, seq![0int, 1int, 0int, 0int], sample_point4(pts[6]));
    }
    assert(num[7] == 1 * pts[7].4) by {
        lemma_unit_term4(pts[7].4 as int, seq![0int, 1int, 0int, 0int], sample_point4(pts[7]));
    }
    assert(num[8] == -1 * pts[8].4) by {
        lemma_unit_term4(pts[8].4 as int, seq![0int, 1int, 0int, 0int], sample_point4(pts[8]));
    }
    assert(num[9] == -1 * pts[9].4) by {
        lemma_unit_term4(pts[9].4 as int, seq![0int, 1int, 0int, 0int], sample_point4(pts[9]));
    }
    assert(num[10] == -1 * pts[10].4) by {
        lemma_unit_term4(pts[10].4 as int, seq![0int, 1int, 0int, 0int], sample_point4(pts[10]));
    }
    assert(num[11] == -1 * pts[11].4) by {
        lemma_unit_term4(pts[11].4 as int, seq![0int, 1int, 0int, 0int], sample_point4(pts[11]));
    }
    assert(num[12] == 1 * pts[12].4) by {
        lemma_unit_term4(pts[12].4 as int, seq![0int, 1int, 0int, 0int], sample_point4(pts[12]));
    }
    assert(num[13] == 1 * pts[13].4) by {
        lemma_unit_term4(pts[13].4 as int, seq![0int, 1int, 0int, 0int], sample_point4(pts[13]));
    }
    assert(num[14] == 1 * pts[14].4) by {
        lemma_unit_term4(pts[14].4 as int, seq![0int, 1int, 0int, 0int], sample_point4(pts[14]));
    }
    assert(num[15] == 1 * pts[15].4) by {
        lemma_unit_term4(pts[15].4 as int, seq![0int, 1int, 0int, 0int], sample_point4(pts[15]));
    }
}

proof fn lemma_fit4_numerator_0101(f: Polynom4d<2>)
    requires
        fits_i64(f.value(-1i64, -1i64, -1i64, -1i64)),
        fits_i64(f.value(-1i64, -1i64, -1i64, 1i64)),
        fits_i64(f.value(-1i64, -1i64, 1i64, -1i64)),
        fits_i64(f.value(-1i64, -1i64, 1i64, 1i64)),
        fits_i64(f.value(-1i64, 1i64, -1i64, -1i64)),
        fits_i64(f.value(-1i64, 1i64, -1i64, 1i64)),
        fits_i64(f.value(-1i64, 1i64, 1i64, -1i64)),
        fits_i64(f.value(-1i64, 1i64, 1i64, 1i64)),
        fits_i64(f.value(1i64, -1i64, -1i64, -1i64)),
        fits_i64(f.value(1i64, -1i64, -1i64, 1i64)),
        fits_i64(f.value(1i64, -1i64, 1i64, -1i64)),
        fits_i64(f.value(1i64, -1i64, 1i64, 1i64)),
        fits_i64(f.value(1i64, 1i64, -1i64, -1i64)),
        fits_i64(f.value(1i64, 1i64, -1i64, 1i64)),
        fits_i64(f.value(1i64, 1i64, 1i64, -1i64)),
        fits_i64(f.value(1i64, 1i64, 1i64, 1i64)),
    ensures
        seq_sum(fit4_numerators(corner_samples4(f), 0, 1, 0, 1))
            == 16 * f.coefficients@[0]@[1]@[0]@[1],
{
    let pts = corner_samples4(f);
    let num = fit4_numerators(pts, 0, 1, 0, 1);
    lemma_corner_samples4(f);
    lemma_seq_sum16(num);
    assert(num[0] == 1 * pts[0].4) by {
        lemma_unit_term4(pts[0].4 as int, seq![0int, 1int, 0int, 1int], sample_point4(pts[0]));
    }
    assert(num[1] == -1 * pts[1].4) by {
        lemma_unit_term4(pts[1].4 as int, seq![0int, 1int, 0int, 1int], sample_point4(pts[1]));
    }
    assert(num[2] == 1 * pts[2].4) by {
        lemma_unit_term4(pts[2].4 as int, seq![0int, 1int, 0int, 1int], sample_point4(pts[2]));
    }
    assert(num[3] == -1 * pts[3].4) by {
        lemma_unit_term4(pts[3].4 as int, seq![0int, 1int, 0int, 1int], sample_point4(pts[3]));
    }
    assert(num[4] == -1 * pts[4].4) by {
        lemma_unit_term4(pts[4].4 as int, seq![0int, 1int, 0int, 1int], sample_point4(pts[4]));
    }
    assert(num[5] == 1 * pts[5].4) by {
        lemma_unit_term4(pts[5].4 as int, seq![0int, 1int, 0int, 1int], sample_point4(pts[5]));
    }
    assert(num[6] == -1 * pts[6].4) by {
        lemma_unit_term4(pts[6].4 as int, seq![0int, 1int, 0int, 1int], sample_point4(pts[6]));
    }
    assert(num[7] == 1 * pts[7].4) by {
        lemma_unit_term4(pts[7].4 as int, seq![0int, 1int, 0int, 1int], sample_point4(pts[7]));
    }
    assert(num[8] == 1 * pts[8].4) by {
        lemma_unit_term4(pts[8].4 as int, seq![0int, 1int, 0int, 1int], sample_point4(pts[8]));
    }
    assert(num[9] == -1 * pts[9].4) by {
        lemma_unit_term4(pts[9].4 as int, seq![0int, 1int, 0int, 1int], sample_point4(pts[9]));
    }
    assert(num[10] == 1 * pts[10].4) by {
        lemma_unit_term4(pts[10].4 as int, seq![0int, 1int, 0int, 1int], sample_point4(pts[10]));
    }
    assert(num[11] == -1 * pts[11].4) by {
        lemma_unit_term4(pts[11].4 as int, seq![0int, 1int, 0int, 1int], sample_point4(pts[11]));
    }
    assert(num[12] == -1 * pts[12].4) by {
        lemma_unit_term4(pts[12].4 as int, seq![0int, 1int, 0int, 1int], sample_point4(pts[12]));
    }
    assert(num[13] == 1 * pts[13].4) by {
        lemma_unit_term4(pts[13].4 as int, seq![0int, 1int, 0int, 1int], sample_point4(pts[13]));
    }
    assert(num[14] == -1 * pts[14].4) by {
        lemma_unit_term4(pts[14].4 as int, seq![0int, 1int, 0int, 1int], sample_point4(pts[14]));
    }
    assert(num[15] == 1 * pts[15].4) by {
        lemma_unit_term4(pts[15].4 as int, seq![0int, 1int, 0int, 1int], sample_point4(pts[15]));
    }
}

proof fn lemma_fit4_numerator_0110(f: Polynom4d<2>)
    requires
        fits_i64(f.value(-1i64, -1i64, -1i64, -1i64)),
        fits_i64(f.value(-1i64, -1i64, -1i64, 1i64)),
        fits_i64(f.value(-1i64, -1i64, 1i64, -1i64)),
        fits_i64(f.value(-1i64, -1i64, 1i64, 1i64)),
        fits_i64(f.value(-1i64, 1i64, -1i64, -1i64)),
        fits_i64(f.value(-1i64, 1i64, -1i64, 1i64)),
        fits_i64(f.value(-1i64, 1i64, 1i64, -1i64)),
        fits_i64(f.value(-1i64, 1i64, 1i64, 1i64)),
        fits_i64(f.value(1i64, -1i64, -1i64, -1i64)),
        fits_i64(f.value(1i64, -1i64, -1i64, 1i64)),
        fits_i64(f.value(1i64, -1i64, 1i64, -1i64)),
        fits_i64(f.value(1i64, -1i64, 1i64, 1i64)),
        fits_i64(f.value(1i64, 1i64, -1i64, -1i64)),
        fits_i64(f.value(1i64, 1i64, -1i64, 1i64)),
        fits_i64(f.value(1i64, 1i64, 1i64, -1i64)),
        fits_i64(f.value(1i64, 1i64, 1i64, 1i64)),
    ensures
        seq_sum(fit4_numerators(corner_samples4(f), 0, 1, 1, 0))
            == 16 * f.coefficients@[0]@[1]@[1]@[0],
{
    let pts = corner_samples4(f);
    let num = fit4_numerators(pts, 0, 1, 1, 0);
    lemma_corner_samples4(f);
    lemma_seq_sum16(num);
    assert(num[0] == 1 * pts[0].4) by {
        lemma_unit_term4(pts[0].4 as int, seq![0int, 1int, 1int, 0int], sample_point4(pts[0]));
    }
    assert(num[1] == 1 * pts[1].4) by {
        lemma_unit_term4(pts[1].4 as int, seq![0int, 1int, 1int, 0int], sample_point4(pts[1]));
    }
    assert(num[2] == -1 * pts[2].4) by {
        lemma_unit_term4(pts[2].4 as int, seq![0int, 1int, 1int, 0int], sample_point4(pts[2]));
    }
    assert(num[3] == -1 * pts[3].4) by {
        lemma_unit_term4(pts[3].4 as int, seq![0int, 1int, 1int, 0int], sample_point4(pts[3]));
    }
    assert(num[4] == -1 * pts[4].4) by {
        lemma_unit_term4(pts[4].4 as int, seq![0int, 1int, 1int, 0int], sample_point4(pts[4]));
    }
    assert(num[5] == -1 * pts[5].4) by {
        lemma_unit_term4(pts[5].4 as int, seq![0int, 1int, 1int, 0int], sample_point4(pts[5]));
    }
    assert(num[6] == 1 * pts[6].4) by {
        lemma_unit_term4(pts[6].4 as int, seq![0int, 1int, 1int, 0int], sample_point4(pts[6]));
    }
    assert(num[7] == 1 * pts[7].4) by {
        lemma_unit_term4(pts[7].4 as int, seq![0int, 1int, 1int, 0int], sample_point4(pts[7]));
    }
    assert(num[8] == 1 * pts[8].4) by {
        lemma_unit_term4(pts[8].4 as int, seq![0int, 1int, 1int, 0int], sample_point4(pts[8]));
    }
    assert(num[9] == 1 * pts[9].4) by {
        lemma_unit_term4(pts[9].4 as int, seq![0int, 1int, 1int, 0int], sample_point4(pts[9]));
    }
    assert(num[10] == -1 * pts[10].4) by {
        lemma_unit_term4(pts[10].4 as int, seq![0int, 1int, 1int, 0int], sample_point4(pts[10]));
    }
    assert(num[11] == -1 * pts[11].4) by {
        lemma_unit_term4(pts[11].4 as int, seq![0int, 1int, 1int, 0int], sample_point4(pts[11]));
    }
    assert(num[12] == -1 * pts[12].4) by {
        lemma_unit_term4(pts[12].4 as int, seq![0int, 1int, 1int, 0int], sample_point4(pts[12]));
    }
    assert(num[13] == -1 * pts[13].4) by {
        lemma_unit_term4(pts[13].4 as int, seq![0int, 1int, 1int, 0int], sample_point4(pts[13]));
    }
    assert(num[14] == 1 * pts[14].4) by {
        lemma_unit_term4(pts[14].4 as int, seq![0int, 1int, 1int, 0int], sample_point4(pts[14]));
    }
    assert(num[15] == 1 * pts[15].4) by {
        lemma_unit_term4(pts[15].4 as int, seq![0int, 1int, 1int, 0int], sample_point4(pts[15]));
    }
}

proof fn lemma_fit4_numerator_0111(f: Polynom4d<2>)
    requires
        fits_i64(f.value(-1i64, -1i64, -1i64, -1i64)),
        fits_i64(f.value(-1i64, -1i64, -1i64, 1i64)),
        fits_i64(f.value(-1i64, -1i64, 1i64, -1i64)),
        fits_i64(f.value(-1i64, -1i64, 1i64, 1i64)),
        fits_i64(f.value(-1i64, 1i64, -1i64, -1i64)),
        fits_i64(f.value(-1i64, 1i64, -1i64, 1i64)),
        fits_i64(f.value(-1i64, 1i64, 1i64, -1i64)),
        fits_i64(f.value(-1i64, 1i64, 1i64, 1i64)),
        fits_i64(f.value(1i64, -1i64, -1i64, -1i64)),
        fits_i64(f.value(1i64, -1i64, -1i64, 1i64)),
        fits_i64(f.value(1i64, -1i64, 1i64, -1i64)),
        fits_i64(f.value(1i64, -1i64, 1i64, 1i64)),
        fits_i64(f.value(1i64, 1i64, -1i64, -1i64)),
        fits_i64(f.value(1i64, 1i64, -1i64, 1i64)),
        fits_i64(f.value(1i64, 1i64, 1i64, -1i64)),
        fits_i64(f.value(1i64, 1i64, 1i64, 1i64)),
    ensures
        seq_sum(fit4_numerators(corner_samples4(f), 0, 1, 1, 1))
            == 16 * f.coefficients@[0]@[1]@[1]@[1],
{
    let pts = corner_samples4(f);
    let num = fit4_numerators(pts, 0, 1, 1, 1);
    lemma_corner_samples4(f);
    lemma_seq_sum16(num);
    assert(num[0] == -1 * pts[0].4) by {
        lemma_unit_term4(pts[0].4 as int, seq![0int, 1int, 1int, 1int], sample_point4(pts[0]));
    }
    assert(num[1] == 1 * pts[1].4) by {
        lemma_unit_term4(pts[1].4 as int, seq![0int, 1int, 1int, 1int], sample_point4(pts[1]));
    }
    assert(num[2] == 1 * pts[2].4) by {
        lemma_unit_term4(pts[2].4 as int, seq![0int, 1int, 1int, 1int], sample_point4(pts[2]));
    }
    assert(num[3] == -1 * pts[3].4) by {
        lemma_unit_term4(pts[3].4 as int, seq![0int, 1int, 1int, 1int], sample_point4(pts[3]));
    }
    assert(num[4] == 1 * pts[4].4) by {
        lemma_unit_term4(pts[4].4 as int, seq![0int, 1int, 1int, 1int], sample_point4(pts[4]));
    }
    assert(num[5] == -1 * pts[5].4) by {
        lemma_unit_term4(pts[5].4 as int, seq![0int, 1int, 1int, 1int], sample_point4(pts[5]));
    }
    assert(num[6] == -1 * pts[6].4) by {
        lemma_unit_term4(pts[6].4 as int, seq![0int, 1int, 1int, 1int], sample_point4(pts[6]));
    }
    assert(num[7] == 1 * pts[7].4) by {
        lemma_unit_term4(pts[7].4 as int, seq![0int, 1int, 1int, 1int], sample_point4(pts[7]));
    }
    assert(num[8] == -1 * pts[8].4) by {
        lemma_unit_term4(pts[8].4 as int, seq![0int, 1int, 1int, 1int], sample_point4(pts[8]));
    }
    assert(num[9] == 1 * pts[9].4) by {
        lemma_unit_term4(pts[9].4 as int, seq![0int, 1int, 1int, 1int], sample_point4(pts[9]));
    }
    assert(num[10] == 1 * pts[10].4) by {
        lemma_unit_term4(pts[10].4 as int, seq![0int, 1int, 1int, 1int], sample_point4(pts[10]));
    }
    assert(num[11] == -1 * pts[11].4) by {
        lemma_unit_term4(pts[11].4 as int, seq![0int, 1int, 1int, 1int], sample_point4(pts[11]));
    }
    assert(num[12] == 1 * pts[12].4) by {
        lemma_unit_term4(pts[12].4 as int, seq![0int, 1int, 1int, 1int], sample_point4(pts[12]));
    }
    assert(num[13] == -1 * pts[13].4) by {
        lemma_unit_term4(pts[13].4 as int, seq![0int, 1int, 1int, 1int], sample_point4(pts[13]));
    }
    assert(num[14] == -1 * pts[14].4) by {
        lemma_unit_term4(pts[14].4 as int, seq![0int, 1int, 1int, 1int], sample_point4(pts[14]));
    }
    assert(num[15] == 1 * pts[15].4) by {
        lemma_unit_term4(pts[15].4 as int, seq![0int, 1int, 1int, 1int], sample_point4(pts[15]));
    }
}

proof fn lemma_fit4_numerator_1000(f: Polynom4d<2>)
    requires
        fits_i64(f.value(-1i64, -1i64, -1i64, -1i64)),
        fits_i64(f.value(-1i64, -1i64, -1i64, 1i64)),
        fits_i64(f.value(-1i64, -1i64, 1i64, -1i64)),
        fits_i64(f.value(-1i64, -1i64, 1i64, 1i64)),
        fits_i64(f.value(-1i64, 1i64, -1i64, -1i64)),
        fits_i64(f.value(-1i64, 1i64, -1i64, 1i64)),
        fits_i64(f.value(-1i64, 1i64, 1i64, -1i64)),
        fits_i64(f.value(-1i64, 1i64, 1i64, 1i64)),
        fits_i64(f.value(1i64, -1i64, -1i64, -1i64)),
        fits_i64(f.value(1i64, -1i64, -1i64, 1i64)),
        fits_i64(f.value(1i64, -1i64, 1i64, -1i64)),
        fits_i64(f.value(1i64, -1i64, 1i64, 1i64)),
        fits_i64(f.value(1i64, 1i64, -1i64, -1i64)),
        fits_i64(f.value(1i64, 1i64, -1i64, 1i64)),
        fits_i64(f.value(1i64, 1i64, 1i64, -1i64)),
        fits_i64(f.value(1i64, 1i64, 1i64, 1i64)),
    ensures
        seq_sum(fit4_numerators(corner_samples4(f), 1, 0, 0, 0))
            == 16 * f.coefficients@[1]@[0]@[0]@[0],
{
    let pts = corner_samples4(f);
    let num = fit4_numerators(pts, 1, 0, 0, 0);
    lemma_corner_samples4(f);
    lemma_seq_sum16(num);
    assert(num[0] == -1 * pts[0].4) by {
        lemma_unit_term4(pts[0].4 as int, seq![1int, 0int, 0int, 0int], sample_point4(pts[0]));
    }
    assert(num[1] == -1 * pts[1].4) by {
        lemma_unit_term4(pts[1].4 as int, seq![1int, 0int, 0int, 0int], sample_point4(pts[1]));
    }
    assert(num[2] == -1 * pts[2].4) by {
        lemma_unit_term4(pts[2].4 as int, seq![1int, 0int, 0int, 0int], sample_point4(pts[2]));
    }
    assert(num[3] == -1 * pts[3].4) by {
        lemma_unit_term4(pts[3].4 as int, seq![1int, 0int, 0int, 0int], sample_point4(pts[3]));
    }
    assert(num[4] == -1 * pts[4].4) by {
        lemma_unit_term4(pts[4].4 as int, seq![1int, 0int, 0int, 0int], sample_point4(pts[4]));
    }
    assert(num[5] == -1 * pts[5].4) by {
        lemma_unit_term4(pts[5].4 as int, seq![1int, 0int, 0int, 0int], sample_point4(pts[5]));
    }
    assert(num[6] == -1 * pts[6].4) by {
        lemma_unit_term4(pts[6].4 as int, seq![1int, 0int, 0int, 0int], sample_point4(pts[6]));
    }
    assert(num[7] == -1 * pts[7].4) by {
        lemma_unit_term4(pts[7].4 as int, seq![1int, 0int, 0int, 0int], sample_point4(pts[7]));
    }
    assert(num[8] == 1 * pts[8].4) by {
        lemma_unit_term4(pts[8].4 as int, seq![1int, 0int, 0int, 0int], sample_point4(pts[8]));
    }
    assert(num[9] == 1 * pts[9].4) by {
        lemma_unit_term4(pts[9].4 as int, seq![1int, 0int, 0int, 0int], sample_point4(pts[9]));
    }
    assert(num[10] == 1 * pts[10].4) by {
        lemma_unit_term4(pts[10].4 as int, seq![1int, 0int, 0int, 0int], sample_point4(pts[10]));
    }
    assert(num[11] == 1 * pts[11].4) by {
        lemma_unit_term4(pts[11].4 as int, seq![1int, 0int, 0int, 0int], sample_point4(pts[11]));
    }
    assert(num[12] == 1 * pts[12].4) by {
        lemma_unit_term4(pts[12].4 as int, seq![1int, 0int, 0int, 0int], sample_point4(pts[12]));
    }
    assert(num[13] == 1 * pts[13].4) by {
        lemma_unit_term4(pts[13].4 as int, seq![1int, 0int, 0int, 0int], sample_point4(pts[13]));
    }
    assert(num[14] == 1 * pts[14].4) by {
        lemma_unit_term4(pts[14].4 as int, seq![1int, 0int, 0int, 0int], sample_point4(pts[14]));
    }
    assert(num[15] == 1 * pts[15].4) by {
        lemma_unit_term4(pts[15].4 as int, seq![1int, 0int, 0int, 0int], sample_point4(pts[15]));
    }
}

proof fn lemma_fit4_numerator_1001(f: Polynom4d<2>)
    requires
        fits_i64(f.value(-1i64, -1i64, -1i64, -1i64)),
        fits_i64(f.value(-1i64, -1i64, -1i64, 1i64)),
        fits_i64(f.value(-1i64, -1i64, 1i64, -1i64)),
        fits_i64(f.value(-1i64, -1i64, 1i64, 1i64)),
        fits_i64(f.value(-1i64, 1i64, -1i64, -1i64)),
        fits_i64(f.value(-1i64, 1i64, -1i64, 1i64)),
        fits_i64(f.value(-1i64, 1i64, 1i64, -1i64)),
        fits_i64(f.value(-1i64, 1i64, 1i64, 1i64)),
        fits_i64(f.value(1i64, -1i64, -1i64, -1i64)),
        fits_i64(f.value(1i64, -1i64, -1i64, 1i64)),
        fits_i64(f.value(1i64, -1i64, 1i64, -1i64)),
        fits_i64(f.value(1i64, -1i64, 1i64, 1i64)),
        fits_i64(f.value(1i64, 1i64, -1i64, -1i64)),
        fits_i64(f.value(1i64, 1i64, -1i64, 1i64)),
        fits_i64(f.value(1i64, 1i64, 1i64, -1i64)),
        fits_i64(f.value(1i64, 1i64, 1i64, 1i64)),
    ensures
        seq_sum(fit4_numerators(corner_samples4(f), 1, 0, 0, 1))
            == 16 * f.coefficients@[1]@[0]@[0]@[1],
{
    let pts = corner_samples4(f);
    let num = fit4_numerators(pts, 1, 0, 0, 1);
    lemma_corner_samples4(f);
    lemma_seq_sum16(num);
    assert(num[0] == 1 * pts[0].4) by {
        lemma_unit_term4(pts[0].4 as int, seq![1int, 0int, 0int, 1int], sample_point4(pts[0]));
    }
    assert(num[1] == -1 * pts[1].4) by {
        lemma_unit_term4(pts[1].4 as int, seq![1int, 0int, 0int, 1int], sample_point4(pts[1]));
    }
    assert(num[2] == 1 * pts[2].4) by {
        lemma_unit_term4(pts[2].4 as int, seq![1int, 0int, 0int, 1int], sample_point4(pts[2]));
    }
    assert(num[3] == -1 * pts[3].4) by {
        lemma_unit_term4(pts[3].4 as int, seq![1int, 0int, 0int, 1int], sample_point4(pts[3]));
    }
    assert(num[4] == 1 * pts[4].4) by {
        lemma_unit_term4(pts[4].4 as int, seq![1int, 0int, 0int, 1int], sample_point4(pts[4]));
    }
    assert(num[5] == -1 * pts[5].4) by {
        lemma_unit_term4(pts[5].4 as int, seq![1int, 0int, 0int, 1int], sample_point4(pts[5]));
    }
    assert(num[6] == 1 * pts[6].4) by {
        lemma_unit_term4(pts[6].4 as int, seq![1int, 0int, 0int, 1int], sample_point4(pts[6]));
    }
    assert(num[7] == -1 * pts[7].4) by {
        lemma_unit_term4(pts[7].4 as int, seq![1int, 0int, 0int, 1int], sample_point4(pts[7]));
    }
    assert(num[8] == -1 * pts[8].4) by {
        lemma_unit_term4(pts[8].4 as int, seq![1int, 0int, 0int, 1int], sample_point4(pts[8]));
    }
    assert(num[9] == 1 * pts[9].4) by {
        lemma_unit_term4(pts[9].4 as int, seq![1int, 0int, 0int, 1int], sample_point4(pts[9]));
    }
    assert(num[10] == -1 * pts[10].4) by {
        lemma_unit_term4(pts[10].4 as int, seq![1int, 0int, 0int, 1int], sample_point4(pts[10]));
    }
    assert(num[11] == 1 * pts[11].4) by {
        lemma_unit_term4(pts[11].4 as int, seq![1int, 0int, 0int, 1int], sample_point4(pts[11]));
    }
    assert(num[12] == -1 * pts[12].4) by {
        lemma_unit_term4(pts[12].4 as int, seq![1int, 0int, 0int, 1int], sample_point4(pts[12]));
    }
    assert(num[13] == 1 * pts[13].4) by {
        lemma_unit_term4(pts[13].4 as int, seq![1int, 0int, 0int, 1int], sample_point4(pts[13]));
    }
    assert(num[14] == -1 * pts[14].4) by {
        lemma_unit_term4(pts[14].4 as int, seq![1int, 0int, 0int, 1int], sample_point4(pts[14]));
    }
    assert(num[15] == 1 * pts[15].4) by {
        lemma_unit_term4(pts[15].4 as int, seq![1int, 0int, 0int, 1int], sample_point4(pts[15]));
    }
}

proof fn lemma_fit4_numerator_1010(f: Polynom4d<2>)
    requires
        fits_i64(f.value(-1i64, -1i64, -1i64, -1i64)),
        fits_i64(f.value(-1i64, -1i64, -1i64, 1i64)),
        fits_i64(f.value(-1i64, -1i64, 1i64, -1i64)),
        fits_i64(f.value(-1i64, -1i64, 1i64, 1i64)),
        fits_i64(f.value(-1i64, 1i64, -1i64, -1i64)),
        fits_i64(f.value(-1i64, 1i64, -1i64, 1i64)),
        fits_i64(f.value(-1i64, 1i64, 1i64, -1i64)),
        fits_i64(f.value(-1i64, 1i64, 1i64, 1i64)),
        fits_i64(f.value(1i64, -1i64, -1i64, -1i64)),
        fits_i64(f.value(1i64, -1i64, -1i64, 1i64)),
        fits_i64(f.value(1i64, -1i64, 1i64, -1i64)),
        fits_i64(f.value(1i64, -1i64, 1i64, 1i64)),
        fits_i64(f.value(1i64, 1i64, -1i64, -1i64)),
        fits_i64(f.value(1i64, 1i64, -1i64, 1i64)),
        fits_i64(f.value(1i64, 1i64, 1i64, -1i64)),
        fits_i64(f.value(1i64, 1i64, 1i64, 1i64)),
    ensures
        seq_sum(fit4_numerators(corner_samples4(f), 1, 0, 1, 0))
            == 16 * f.coefficients@[1]@[0]@[1]@[0],
{
    let pts = corner_samples4(f);
    let num = fit4_numerators(pts, 1, 0, 1, 0);
    lemma_corner_samples4(f);
    lemma_seq_sum16(num);
    assert(num[0] == 1 * pts[0].4) by {
        lemma_unit_term4(pts[0].4 as int, seq![1int, 0int, 1int, 0int], sample_point4(pts[0]));
    }
    assert(num[1] == 1 * pts[1].4) by {
        lemma_unit_term4(pts[1].4 as int, seq![1int, 0int, 1int, 0int], sample_point4(pts[1]));
    }
    assert(num[2] == -1 * pts[2].4) by {
        lemma_unit_term4(pts[2].4 as int, seq![1int, 0int, 1int, 0int], sample_point4(pts[2]));
    }
    assert(num[3] == -1 * pts[3].4) by {
        lemma_unit_term4(pts[3].4 as int, seq![1int, 0int, 1int, 0int], sample_point4(pts[3]));
    }
    assert(num[4] == 1 * pts[4].4) by {
        lemma_unit_term4(pts[4].4 as int, seq![1int, 0int, 1int, 0int], sample_point4(pts[4]));
    }
    assert(num[5] == 1 * pts[5].4) by {
        lemma_unit_term4(pts[5].4 as int, seq![1int, 0int, 1int, 0int], sample_point4(pts[5]));
    }
    assert(num[6] == -1 * pts[6].4) by {
        lemma_unit_term4(pts[6].4 as int, seq![1int, 0int, 1int, 0int], sample_point4(pts[6]));
    }
    assert(num[7] == -1 * pts[7].4) by {
        lemma_unit_term4(pts[7].4 as int, seq![1int, 0int, 1int, 0int], sample_point4(pts[7]));
    }
    assert(num[8] == -1 * pts[8].4) by {
        lemma_unit_term4(pts[8].4 as int, seq![1int, 0int, 1int, 0int], sample_point4(pts[8]));
    }
    assert(num[9] == -1 * pts[9].4) by {
        lemma_unit_term4(pts[9].4 as int, seq![1int, 0int, 1int, 0int], sample_point4(pts[9]));
    }
    assert(num[10] == 1 * pts[10].4) by {
        lemma_unit_term4(pts[10].4 as int, seq![1int, 0int, 1int, 0int], sample_point4(pts[10]));
    }
    assert(num[11] == 1 * pts[11].4) by {
        lemma_unit_term4(pts[11].4 as int, seq![1int, 0int, 1int, 0int], sample_point4(pts[11]));
    }
    assert(num[12] == -1 * pts[12].4) by {
        lemma_unit_term4(pts[12].4 as int, seq![1int, 0int, 1int, 0int], sample_point4(pts[12]));
    }
    assert(num[13] == -1 * pts[13].4) by {
        lemma_unit_term4(pts[13].4 as int, seq![1int, 0int, 1int, 0int], sample_point4(pts[13]));
    }
    assert(num[14] == 1 * pts[14].4) by {
        lemma_unit_term4(pts[14].4 as int, seq![1int, 0int, 1int, 0int], sample_point4(pts[14]));
    }
    assert(num[15] == 1 * pts[15].4) by {
        lemma_unit_term4(pts[15].4 as int, seq![1int, 0int, 1int, 0int], sample_point4(pts[15]));
    }
}

proof fn lemma_fit4_numerator_1011(f: Polynom4d<2>)
    requires
        fits_i64(f.value(-1i64, -1i64, -1i64, -1i64)),
        fits_i64(f.value(-1i64, -1i64, -1i64, 1i64)),
        fits_i64(f.value(-1i64, -1i64, 1i64, -1i64)),
        fits_i64(f.value(-1i64, -1i64, 1i64, 1i64)),
        fits_i64(f.value(-1i64, 1i64, -1i64, -1i64)),
        fits_i64(f.value(-1i64, 1i64, -1i64, 1i64)),
        fits_i64(f.value(-1i64, 1i64, 1i64, -1i64)),
        fits_i64(f.value(-1i64, 1i64, 1i64, 1i64)),
        fits_i64(f.value(1i64, -1i64, -1i64, -1i64)),
        fits_i64(f.value(1i64, -1i64, -1i64, 1i64)),
        fits_i64(f.value(1i64, -1i64, 1i64, -1i64)),
        fits_i64(f.value(1i64, -1i64, 1i64, 1i64)),
        fits_i64(f.value(1i64, 1i64, -1i64, -1i64)),
        fits_i64(f.value(1i64, 1i64, -1i64, 1i64)),
        fits_i64(f.value(1i64, 1i64, 1i64, -1i64)),
        fits_i64(f.value(1i64, 1i64, 1i64, 1i64)),
    ensures
        seq_sum(fit4_numerators(corner_samples4(f), 1, 0, 1, 1))
            == 16 * f.coefficients@[1]@[0]@[1]@[1],
{
    let pts = corner_samples4(f);
    let num = fit4_numerators(pts, 1, 0, 1, 1);
    lemma_corner_samples4(f);
    lemma_seq_sum16(num);
    assert(num[0] == -1 * pts[0].4) by {
        lemma_unit_term4(pts[0].4 as int, seq![1int, 0int, 1int, 1int], sample_point4(pts[0]));
    }
    assert(num[1] == 1 * pts[1].4) by {
        lemma_unit_term4(pts[1].4 as int, seq![1int, 0int, 1int, 1int], sample_point4(pts[1]));
    }
    assert(num[2] == 1 * pts[2].4) by {
        lemma_unit_term4(pts[2].4 as int, seq![1int, 0int, 1int, 1int], sample_point4(pts[2]));
    }
    assert(num[3] == -1 * pts[3].4) by {
        lemma_unit_term4(pts[3].4 as int, seq![1int, 0int, 1int, 1int], sample_point4(pts[3]));
    }
    assert(num[4] == -1 * pts[4].4) by {
        lemma_unit_term4(pts[4].4 as int, seq![1int, 0int, 1int, 1int], sample_point4(pts[4]));
    }
    assert(num[5] == 1 * pts[5].4) by {
        lemma_unit_term4(pts[5].4 as int, seq![1int, 0int, 1int, 1int], sample_point4(pts[5]));
    }
    assert(num[6] == 1 * pts[6].4) by {
        lemma_unit_term4(pts[6].4 as int, seq![1int, 0int, 1int, 1int], sample_point4(pts[6]));
    }
    assert(num[7] == -1 * pts[7].4) by {
        lemma_unit_term4(pts[7].4 as int, seq![1int, 0int, 1int, 1int], sample_point4(pts[7]));
    }
    assert(num[8] == 1 * pts[8].4) by {
        lemma_unit_term4(pts[8].4 as int, seq![1int, 0int, 1int, 1int], sample_point4(pts[8]));
    }
    assert(num[9] == -1 * pts[9].4) by {
        lemma_unit_term4(pts[9].4 as int, seq![1int, 0int, 1int, 1int], sample_point4(pts[9]));
    }
    assert(num[10] == -1 * pts[10].4) by {
        lemma_unit_term4(pts[10].4 as int, seq![1int, 0int, 1int, 1int], sample_point4(pts[10]));
    }
    assert(num[11] == 1 * pts[11].4) by {
        lemma_unit_term4(pts[11].4 as int, seq![1int, 0int, 1int, 1int], sample_point4(pts[11]));
    }
    assert(num[12] == 1 * pts[12].4) by {
        lemma_unit_term4(pts[12].4 as int, seq![1int, 0int, 1int, 1int], sample_point4(pts[12]));
    }
    assert(num[13] == -1 * pts[13].4) by {
        lemma_unit_term4(pts[13].4 as int, seq![1int, 0int, 1int, 1int], sample_point4(pts[13]));
    }
    assert(num[14] == -1 * pts[14].4) by {
        lemma_unit_term4(pts[14].4 as int, seq![1int, 0int, 1int, 1int], sample_point4(pts[14]));
    }
    assert(num[15] == 1 * pts[15].4) by {
        lemma_unit_term4(pts[15].4 as int, seq![1int, 0int, 1int, 1int], sample_point4(pts[15]));
    }
}

proof fn lemma_fit4_numerator_1100(f: Polynom4d<2>)
    requires
        fits_i64(f.value(-1i64, -1i64, -1i64, -1i64)),
        fits_i64(f.value(-1i64, -1i64, -1i64, 1i64)),
        fits_i64(f.value(-1i64, -1i64, 1i64, -1i64)),
        fits_i64(f.value(-1i64, -1i64, 1i64, 1i64)),
        fits_i64(f.value(-1i64, 1i64, -1i64, -1i64)),
        fits_i64(f.value(-1i64, 1i64, -1i64, 1i64)),
        fits_i64(f.value(-1i64, 1i64, 1i64, -1i64)),
        fits_i64(f.value(-1i64, 1i64, 1i64, 1i64)),
        fits_i64(f.value(1i64, -1i64, -1i64, -1i64)),
        fits_i64(f.value(1i64, -1i64, -1i64, 1i64)),
        fits_i64(f.value(1i64, -1i64, 1i64, -1i64)),
        fits_i64(f.value(1i64, -1i64, 1i64, 1i64)),
        fits_i64(f.value(1i64, 1i64, -1i64, -1i64)),
        fits_i64(f.value(1i64, 1i64, -1i64, 1i64)),
        fits_i64(f.value(1i64, 1i64, 1i64, -1i64)),
        fits_i64(f.value(1i64, 1i64, 1i64, 1i64)),
    ensures
        seq_sum(fit4_numerators(corner_samples4(f), 1, 1, 0, 0))
            == 16 * f.coefficients@[1]@[1]@[0]@[0],
{
    let pts = corner_samples4(f);
    let num = fit4_numerators(pts, 1, 1, 0, 0);
    lemma_corner_samples4(f);
    lemma_seq_sum16(num);
    assert(num[0] == 1 * pts[0].4) by {
        lemma_unit_term4(pts[0].4 as int, seq![1int, 1int, 0int, 0int], sample_point4(pts[0]));
    }
    assert(num[1] == 1 * pts[1].4) by {
        lemma_unit_term4(pts[1].4 as int, seq![1int, 1int, 0int, 0int], sample_point4(pts[1]));
    }
    assert(num[2] == 1 * pts[2].4) by {
        lemma_unit_term4(pts[2].4 as int, seq![1int, 1int, 0int, 0int], sample_point4(pts[2]));
    }
    assert(num[3] == 1 * pts[3].4) by {
        lemma_unit_term4(pts[3].4 as int, seq![1int, 1int, 0int, 0int], sample_point4(pts[3]));
    }
    assert(num[4] == -1 * pts[4].4) by {
        lemma_unit_term4(pts[4].4 as int, seq![1int, 1int, 0int, 0int], sample_point4(pts[4]));
    }
    assert(num[5] == -1 * pts[5].4) by {
        lemma_unit_term4(pts[5].4 as int, seq![1int, 1int, 0int, 0int], sample_point4(pts[5]));
    }
    assert(num[6] == -1 * pts[6].4) by {
        lemma_unit_term4(pts[6].4 as int, seq![1int, 1int, 0int, 0int], sample_point4(pts[6]));
    }
    assert(num[7] == -1 * pts[7].4) by {
        lemma_unit_term4(pts[7].4 as int, seq![1int, 1int, 0int, 0int], sample_point4(pts[7]));
    }
    assert(num[8] == -1 * pts[8].4) by {
        lemma_unit_term4(pts[8].4 as int, seq![1int, 1int, 0int, 0int], sample_point4(pts[8]));
    }
    assert(num[9] == -1 * pts[9].4) by {
        lemma_unit_term4(pts[9].4 as int, seq![1int, 1int, 0int, 0int], sample_point4(pts[9]));
    }
    assert(num[10] == -1 * pts[10].4) by {
        lemma_unit_term4(pts[10].4 as int, seq![1int, 1int, 0int, 0int], sample_point4(pts[10]));
    }
    assert(num[11] == -1 * pts[11].4) by {
        lemma_unit_term4(pts[11].4 as int, seq![1int, 1int, 0int, 0int], sample_point4(pts[11]));
    }
    assert(num[12] == 1 * pts[12].4) by {
        lemma_unit_term4(pts[12].4 as int, seq![1int, 1int, 0int, 0int], sample_point4(pts[12]));
    }
    assert(num[13] == 1 * pts[13].4) by {
        lemma_unit_term4(pts[13].4 as int, seq![1int, 1int, 0int, 0int], sample_point4(pts[13]));
    }
    assert(num[14] == 1 * pts[14].4) by {
        lemma_unit_term4(pts[14].4 as int, seq![1int, 1int, 0int, 0int], sample_point4(pts[14]));
    }
    assert(num[15] == 1 * pts[15].4) by {
        lemma_unit_term4(pts[15].4 as int, seq![1int, 1int, 0int, 0int], sample_point4(pts[15]));
    }
}

proof fn lemma_fit4_numerator_1101(f: Polynom4d<2>)
    requires
        fits_i64(f.value(-1i64, -1i64, -1i64, -1i64)),
        fits_i64(f.value(-1i64, -1i64, -1i64, 1i64)),
        fits_i64(f.value(-1i64, -1i64, 1i64, -1i64)),
        fits_i64(f.value(-1i64, -1i64, 1i64, 1i64)),
        fits_i64(f.value(-1i64, 1i64, -1i64, -1i64)),
        fits_i64(f.value(-1i64, 1i64, -1i64, 1i64)),
        fits_i64(f.value(-1i64, 1i64, 1i64, -1i64)),
        fits_i64(f.value(-1i64, 1i64, 1i64, 1i64)),
        fits_i64(f.value(1i64, -1i64, -1i64, -1i64)),
        fits_i64(f.value(1i64, -1i64, -1i64, 1i64)),
        fits_i64(f.value(1i64, -1i64, 1i64, -1i64)),
        fits_i64(f.value(1i64, -1i64, 1i64, 1i64)),
        fits_i64(f.value(1i64, 1i64, -1i64, -1i64)),
        fits_i64(f.value(1i64, 1i64, -1i64, 1i64)),
        fits_i64(f.value(1i64, 1i64, 1i64, -1i64)),
        fits_i64(f.value(1i64, 1i64, 1i64, 1i64)),
    ensures
        seq_sum(fit4_numerators(corner_samples4(f), 1, 1, 0, 1))
            == 16 * f.coefficients@[1]@[1]@[0]@[1],
{
    let pts = corner_samples4(f);
    let num = fit4_numerators(pts, 1, 1, 0, 1);
    lemma_corner_samples4(f);
    lemma_seq_sum16(num);
    assert(num[0] == -1 * pts[0].4) by {
        lemma_unit_term4(pts[0].4 as int, seq![1int, 1int, 0int, 1int], sample_point4(pts[0]));
    }
    assert(num[1] == 1 * pts[1].4) by {
        lemma_unit_term4(pts[1].4 as int, seq![1int, 1int, 0int, 1int], sample_point4(pts[1]));
    }
    assert(num[2] == -1 * pts[2].4) by {
        lemma_unit_term4(pts[2].4 as int, seq![1int, 1int, 0int, 1int], sample_point4(pts[2]));
    }
    assert(num[3] == 1 * pts[3].4) by {
        lemma_unit_term4(pts[3].4 as int, seq![1int, 1int, 0int, 1int], sample_point4(pts[3]));
    }
    assert(num[4] == 1 * pts[4].4) by {
        lemma_unit_term4(pts[4].4 as int, seq![1int, 1int, 0int, 1int], sample_point4(pts[4]));
    }
    assert(num[5] == -1 * pts[5].4) by {
        lemma_unit_term4(pts[5].4 as int, seq![1int, 1int, 0int, 1int], sample_point4(pts[5]));
    }
    assert(num[6] == 1 * pts[6].4) by {
        lemma_unit_term4(pts[6].4 as int, seq![1int, 1int, 0int, 1int], sample_point4(pts[6]));
    }
    assert(num[7] == -1 * pts[7].4) by {
        lemma_unit_term4(pts[7].4 as int, seq![1int, 1int, 0int, 1int], sample_point4(pts[7]));
    }
    assert(num[8] == 1 * pts[8].4) by {
        lemma_unit_term4(pts[8].4 as int, seq![1int, 1int, 0int, 1int], sample_point4(pts[8]));
    }
    assert(num[9] == -1 * pts[9].4) by {
        lemma_unit_term4(pts[9].4 as int, seq![1int, 1int, 0int, 1int], sample_point4(pts[9]));
    }
    assert(num[10] == 1 * pts[10].4) by {
        lemma_unit_term4(pts[10].4 as int, seq![1int, 1int, 0int, 1int], sample_point4(pts[10]));
    }
    assert(num[11] == -1 * pts[11].4) by {
        lemma_unit_term4(pts[11].4 as int, seq![1int, 1int, 0int, 1int], sample_point4(pts[11]));
    }
    assert(num[12] == -1 * pts[12].4) by {
        lemma_unit_term4(pts[12].4 as int, seq![1int, 1int, 0int, 1int], sample_point4(pts[12]));
    }
    assert(num[13] == 1 * pts[13].4) by {
        lemma_unit_term4(pts[13].4 as int, seq![1int, 1int, 0int, 1int], sample_point4(pts[13]));
    }
    assert(num[14] == -1 * pts[14].4) by {
        lemma_unit_term4(pts[14].4 as int, seq![1int, 1int, 0int, 1int], sample_point4(pts[14]));
    }
    assert(num[15] == 1 * pts[15].4) by {
        lemma_unit_term4(pts[15].4 as int, seq![1int, 1int, 0int, 1int], sample_point4(pts[15]));
    }
}

proof fn lemma_fit4_numerator_1110(f: Polynom4d<2>)
    requires
        fits_i64(f.value(-1i64, -1i64, -1i64, -1i64)),
        fits_i64(f.value(-1i64, -1i64, -1i64, 1i64)),
        fits_i64(f.value(-1i64, -1i64, 1i64, -1i64)),
        fits_i64(f.value(-1i64, -1i64, 1i64, 1i64)),
        fits_i64(f.value(-1i64, 1i64, -1i64, -1i64)),
        fits_i64(f.value(-1i64, 1i64, -1i64, 1i64)),
        fits_i64(f.value(-1i64, 1i64, 1i64, -1i64)),
        fits_i64(f.value(-1i64, 1i64, 1i64, 1i64)),
        fits_i64(f.value(1i64, -1i64, -1i64, -1i64)),
        fits_i64(f.value(1i64, -1i64, -1i64, 1i64)),
        fits_i64(f.value(1i64, -1i64, 1i64, -1i64)),
        fits_i64(f.value(1i64, -1i64, 1i64, 1i64)),
        fits_i64(f.value(1i64, 1i64, -1i64, -1i64)),
        fits_i64(f.value(1i64, 1i64, -1i64, 1i64)),
        fits_i64(f.value(1i64, 1i64, 1i64, -1i64)),
        fits_i64(f.value(1i64, 1i64, 1i64, 1i64)),
    ensures
        seq_sum(fit4_numerators(corner_samples4(f), 1, 1, 1, 0))
            == 16 * f.coefficients@[1]@[1]@[1]@[0],
{
    let pts = corner_samples4(f);
    let num = fit4_numerators(pts, 1, 1, 1, 0);
    lemma_corner_samples4(f);
    lemma_seq_sum16(num);
    assert(num[0] == -1 * pts[0].4) by {
        lemma_unit_term4(pts[0].4 as int, seq![1int, 1int, 1int, 0int], sample_point4(pts[0]));
    }
    assert(num[1] == -1 * pts[1].4) by {
        lemma_unit_term4(pts[1].4 as int, seq![1int, 1int, 1int, 0int], sample_point4(pts[1]));
    }
    assert(num[2] == 1 * pts[2].4) by {
        lemma_unit_term4(pts[2].4 as int, seq![1int, 1int, 1int, 0int], sample_point4(pts[2]));
    }
    assert(num[3] == 1 * pts[3].4) by {
        lemma_unit_term4(pts[3].4 as int, seq![1int, 1int, 1int, 0int], sample_point4(pts[3]));
    }
    assert(num[4] == 1 * pts[4].4) by {
        lemma_unit_term4(pts[4].4 as int, seq![1int, 1int, 1int, 0int], sample_point4(pts[4]));
    }
    assert(num[5] == 1 * pts[5].4) by {
        lemma_unit_term4(pts[5].4 as int, seq![1int, 1int, 1int, 0int], sample_point4(pts[5]));
    }
    assert(num[6] == -1 * pts[6].4) by {
        lemma_unit_term4(pts[6].4 as int, seq![1int, 1int, 1int, 0int], sample_point4(pts[6]));
    }
    assert(num[7] == -1 * pts[7].4) by {
        lemma_unit_term4(pts[7].4 as int, seq![1int, 1int, 1int, 0int], sample_point4(pts[7]));
    }
    assert(num[8] == 1 * pts[8].4) by {
        lemma_unit_term4(pts[8].4 as int, seq![1int, 1int, 1int, 0int], sample_point4(pts[8]));
    }
    assert(num[9] == 1 * pts[9].4) by {
        lemma_unit_term4(pts[9].4 as int, seq![1int, 1int, 1int, 0int], sample_point4(pts[9]));
    }
    assert(num[10] == -1 * pts[10].4) by {
        lemma_unit_term4(pts[10].4 as int, seq![1int, 1int, 1int, 0int], sample_point4(pts[10]));
    }
    assert(num[11] == -1 * pts[11].4) by {
        lemma_unit_term4(pts[11].4 as int, seq![1int, 1int, 1int, 0int], sample_point4(pts[11]));
    }
    assert(num[12] == -1 * pts[12].4) by {
        lemma_unit_term4(pts[12].4 as int, seq![1int, 1int, 1int, 0int], sample_point4(pts[12]));
    }
    assert(num[13] == -1 * pts[13].4) by {
        lemma_unit_term4(pts[13].4 as int, seq![1int, 1int, 1int, 0int], sample_point4(pts[13]));
    }
    assert(num[14] == 1 * pts[14].4) by {
        lemma_unit_term4(pts[14].4 as int, seq![1int, 1int, 1int, 0int], sample_point4(pts[14]));
    }
    assert(num[15] == 1 * pts[15].4) by {
        lemma_unit_term4(pts[15].4 as int, seq![1int, 1int, 1int, 0int], sample_point4(pts[15]));
    }
}

proof fn lemma_fit4_numerator_1111(f: Polynom4d<2>)
    requires
        fits_i64(f.value(-1i64, -1i64, -1i64, -1i64)),
        fits_i64(f.value(-1i64, -1i64, -1i64, 1i64)),
        fits_i64(f.value(-1i64, -1i64, 1i64, -1i64)),
        fits_i64(f.value(-1i64, -1i64, 1i64, 1i64)),
        fits_i64(f.value(-1i64, 1i64, -1i64, -1i64)),
        fits_i64(f.value(-1i64, 1i64, -1i64, 1i64)),
        fits_i64(f.value(-1i64, 1i64, 1i64, -1i64)),
        fits_i64(f.value(-1i64, 1i64, 1i64, 1i64)),
        fits_i64(f.value(1i64, -1i64, -1i64, -1i64)),
        fits_i64(f.value(1i64, -1i64, -1i64, 1i64)),
        fits_i64(f.value(1i64, -1i64, 1i64, -1i64)),
        fits_i64(f.value(1i64, -1i64, 1i64, 1i64)),
        fits_i64(f.value(1i64, 1i64, -1i64, -1i64)),
        fits_i64(f.value(1i64, 1i64, -1i64, 1i64)),
        fits_i64(f.value(1i64, 1i64, 1i64, -1i64)),
        fits_i64(f.value(1i64, 1i64, 1i64, 1i64)),
    ensures
        seq_sum(fit4_numerators(corner_samples4(f), 1, 1, 1, 1))
            == 16 * f.coefficients@[1]@[1]@[1]@[1],
{
    let pts = corner_samples4(f);
    let num = fit4_numerators(pts, 1, 1, 1, 1);
    lemma_corner_samples4(f);
    lemma_seq_sum16(num);
    assert(num[0] == 1 * pts[0].4) by {
        lemma_unit_term4(pts[0].4 as int, seq![1int, 1int, 1int, 1int], sample_point4(pts[0]));
    }
    assert(num[1] == -1 * pts[1].4) by {
        lemma_unit_term4(pts[1].4 as int, seq![1int, 1int, 1int, 1int], sample_point4(pts[1]));
    }
    assert(num[2] == -1 * pts[2].4) by {
        lemma_unit_term4(pts[2].4 as int, seq![1int, 1int, 1int, 1int], sample_point4(pts[2]));
    }
    assert(num[3] == 1 * pts[3].4) by {
        lemma_unit_term4(pts[3].4 as int, seq![1int, 1int, 1int, 1int], sample_point4(pts[3]));
    }
    assert(num[4] == -1 * pts[4].4) by {
        lemma_unit_term4(pts[4].4 as int, seq![1int, 1int, 1int, 1int], sample_point4(pts[4]));
    }
    assert(num[5] == 1 * pts[5].4) by {
        lemma_unit_term4(pts[5].4 as int, seq![1int, 1int, 1int, 1int], sample_point4(pts[5]));
    }
    assert(num[6] == 1 * pts[6].4) by {
        lemma_unit_term4(pts[6].4 as int, seq![1int, 1int, 1int, 1int], sample_point4(pts[6]));
    }
    assert(num[7] == -1 * pts[7].4) by {
        lemma_unit_term4(pts[7].4 as int, seq![1int, 1int, 1int, 1int], sample_point4(pts[7]));
    }
    assert(num[8] == -1 * pts[8].4) by {
        lemma_unit_term4(pts[8].4 as int, seq![1int, 1int, 1int, 1int], sample_point4(pts[8]));
    }
    assert(num[9] == 1 * pts[9].4) by {
        lemma_unit_term4(pts[9].4 as int, seq![1int, 1int, 1int, 1int], sample_point4(pts[9]));
    }
    assert(num[10] == 1 * pts[10].4) by {
        lemma_unit_term4(pts[10].4 as int, seq![1int, 1int, 1int, 1int], sample_point4(pts[10]));
    }
    assert(num[11] == -1 * pts[11].4) by {
        lemma_unit_term4(pts[11].4 as int, seq![1int, 1int, 1int, 1int], sample_point4(pts[11]));
    }
    assert(num[12] == 1 * pts[12].4) by {
        lemma_unit_term4(pts[12].4 as int, seq![1int, 1int, 1int, 1int], sample_point4(pts[12]));
    }
    assert(num[13] == -1 * pts[13].4) by {
        lemma_unit_term4(pts[13].4 as int, seq![1int, 1int, 1int, 1int], sample_point4(pts[13]));
    }
    assert(num[14] == -1 * pts[14].4) by {
        lemma_unit_term4(pts[14].4 as int, seq![1int, 1int, 1int, 1int], sample_point4(pts[14]));
    }
    assert(num[15] == 1 * pts[15].4) by {
        lemma_unit_term4(pts[15].4 as int, seq![1int, 1int, 1int, 1int], sample_point4(pts[15]));
    }
}

/// Sampling a polynomial with two exponents per variable at the sixteen
/// corners `(±1, ±1, ±1, ±1)` and fitting the samples gives back each
/// coefficient.
pub proof fn lemma_fit4_corners(f: Polynom4d<2>)
    requires
        fits_i64(f.value(-1i64, -1i64, -1i64, -1i64)),
        fits_i64(f.value(-1i64, -1i64, -1i64, 1i64)),
        fits_i64(f.value(-1i64, -1i64, 1i64, -1i64)),
        fits_i64(f.value(-1i64, -1i64, 1i64, 1i64)),
        fits_i64(f.value(-1i64, 1i64, -1i64, -1i64)),
        fits_i64(f.value(-1i64, 1i64, -1i64, 1i64)),
        fits_i64(f.value(-1i64, 1i64, 1i64, -1i64)),
        fits_i64(f.value(-1i64, 1i64, 1i64, 1i64)),
        fits_i64(f.value(1i64, -1i64, -1i64, -1i64)),
        fits_i64(f.value(1i64, -1i64, -1i64, 1i64)),
        fits_i64(f.value(1i64, -1i64, 1i64, -1i64)),
        fits_i64(f.value(1i64, -1i64, 1i64, 1i64)),
        fits_i64(f.value(1i64, 1i64, -1i64, -1i64)),
        fits_i64(f.value(1i64, 1i64, -1i64, 1i64)),
        fits_i64(f.value(1i64, 1i64, 1i64, -1i64)),
        fits_i64(f.value(1i64, 1i64, 1i64, 1i64)),
    ensures
        forall|i: int, j: int, k: int, l: int|
            in_grid4(i, j, k, l, 2) ==> #[trigger] fit4_coefficient(
                corner_samples4(f),
                i,
                j,
                k,
                l,
            ) == grid4_coefficient(f.coefficients, i, j, k, l),
{
    let pts = corner_samples4(f);
    lemma_corner_samples4(f);
    lemma_fit4_numerator_0000(f);
    lemma_fit4_numerator_0001(f);
    lemma_fit4_numerator_0010(f);
    lemma_fit4_numerator_0011(f);
    lemma_fit4_numerator_0100(f);
    lemma_fit4_numerator_0101(f);
    lemma_fit4_numerator_0110(f);
    lemma_fit4_numerator_0111(f);
    lemma_fit4_numerator_1000(f);
    lemma_fit4_numerator_1001(f);
    lemma_fit4_numerator_1010(f);
    lemma_fit4_numerator_1011(f);
    lemma_fit4_numerator_1100(f);
    lemma_fit4_numerator_1101(f);
    lemma_fit4_numerator_1110(f);
    lemma_fit4_numerator_1111(f);
    assert forall|i: int, j: int, k: int, l: int| in_grid4(i, j, k, l, 2) implies #[trigger] fit4_coefficient(
        pts,
        i,
        j,
        k,
        l,
    ) == grid4_coefficient(f.coefficients, i, j, k, l) by {
        let num = fit4_numerators(pts, i, j, k, l);
        let den = fit4_denominators(pts, i, j, k, l);
        lemma_seq_sum16(den);
        lemma_unit_term4(1, seq![2 * i, 2 * j, 2 * k, 2 * l], sample_point4(pts[0]));
        lemma_unit_term4(1, seq![2 * i, 2 * j, 2 * k, 2 * l], sample_point4(pts[1]));
        lemma_unit_term4(1, seq![2 * i, 2 * j, 2 * k, 2 * l], sample_point4(pts[2]));
        lemma_unit_term4(1, seq![2 * i, 2 * j, 2 * k, 2 * l], sample_point4(pts[3]));
        lemma_unit_term4(1, seq![2 * i, 2 * j, 2 * k, 2 * l], sample_point4(pts[4]));
        lemma_unit_term4(1, seq![2 * i, 2 * j, 2 * k, 2 * l], sample_point4(pts[5]));
        lemma_unit_term4(1, seq![2 * i, 2 * j, 2 * k, 2 * l], sample_point4(pts[6]));
        lemma_unit_term4(1, seq![2 * i, 2 * j, 2 * k, 2 * l], sample_point4(pts[7]));
        lemma_unit_term4(1, seq![2 * i, 2 * j, 2 * k, 2 * l], sample_point4(pts[8]));
        lemma_unit_term4(1, seq![2 * i, 2 * j, 2 * k, 2 * l], sample_point4(pts[9]));
        lemma_unit_term4(1, seq![2 * i, 2 * j, 2 * k, 2 * l], sample_point4(pts[10]));
        lemma_unit_term4(1, seq![2 * i, 2 * j, 2 * k, 2 * l], sample_point4(pts[11]));
        lemma_unit_term4(1, seq![2 * i, 2 * j, 2 * k, 2 * l], sample_point4(pts[12]));
        lemma_unit_term4(1, seq![2 * i, 2 * j, 2 * k, 2 * l], sample_point4(pts[13]));
        lemma_unit_term4(1, seq![2 * i, 2 * j, 2 * k, 2 * l], sample_point4(pts[14]));
        lemma_unit_term4(1, seq![2 * i, 2 * j, 2 * k, 2 * l], sample_point4(pts[15]));
        assert(seq_sum(den) == 16);
        let v = grid4_coefficient(f.coefficients, i, j, k, l);
        assert(seq_sum(num) == 16 * v);
        assert(abs_int(seq_sum(num)) == 16 * abs_int(v));
        assert(abs_int(seq_sum(num)) / 16 == abs_int(v));
    }
}

} // verus!
