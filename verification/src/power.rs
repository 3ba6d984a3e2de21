//! Integer powers with an exponent given as `usize`.

use vstd::prelude::*;
use vstd::arithmetic::power::pow;

verus! {

/// True when `v` is a value of `i64`.
pub open spec fn fits_i64(v: int) -> bool {
    i64::MIN <= v <= i64::MAX
}

/// `x` raised to `exp`, where the exponent is first reduced to a `u32`
/// as the executable `upow` does.
pub open spec fn ipow(x: int, exp: int) -> int {
    pow(x, (exp as u32) as nat)
}

/// Raising to a power given as `usize`.
pub trait PowUsize: Sized {
    /// Whether `self.upow(exp)` is defined (does not overflow).
    spec fn upow_defined(self, exp: usize) -> bool;

    /// The value of `self.upow(exp)`.
    spec fn upow_value(self, exp: usize) -> Self;

    fn upow(self, exp: usize) -> (r: Self)
        requires
            self.upow_defined(exp),
        ensures
            r == self.upow_value(exp),
    ;
}

/// For `|x| >= 1` the powers of `x` grow in absolute value.
proof fn lemma_abs_pow_monotone(x: int, k: nat, n: nat)
    requires
        k <= n,
    ensures
        x == 0 ==> (k >= 1 ==> pow(x, k) == 0),
        x != 0 ==> abs(pow(x, k)) <= abs(pow(x, n)),
    decreases n - k,
{
    reveal(pow);
    if k < n {
        lemma_abs_pow_monotone(x, k, (n - 1) as nat);
        assert(pow(x, n) == x * pow(x, (n - 1) as nat));
        if x != 0 {
            let p = pow(x, (n - 1) as nat);
            assert(abs(x * p) == abs(x) * abs(p)) by (nonlinear_arith);
            assert(abs(x) * abs(p) >= abs(p)) by (nonlinear_arith)
                requires
                    abs(x) >= 1,
            ;
        }
    } else {
        if x == 0 && k >= 1 {
            assert(pow(x, k) == x * pow(x, (k - 1) as nat));
        }
    }
}

pub open spec fn abs(v: int) -> int {
    if v < 0 {
        -v
    } else {
        v
    }
}

/// Every intermediate power on the way to a representable power is
/// itself representable.
proof fn lemma_pow_step_fits(x: int, k: nat, e: nat)
    requires
        k < e,
        fits_i64(pow(x, e)),
    ensures
        pow(x, k + 1) == pow(x, k) * x,
        fits_i64(pow(x, k + 1)),
{
    reveal(pow);
    assert(pow(x, k + 1) == x * pow(x, k));
    let pk = pow(x, k);
    assert(x * pk == pk * x) by (nonlinear_arith);
    if k + 1 < e {
        lemma_abs_pow_monotone(x, k + 1, (e - 1) as nat);
        let pe1 = pow(x, (e - 1) as nat);
        assert(pow(x, e) == x * pe1);
        if x != 0 && x != 1 && x != -1 {
            assert(abs(x * pe1) == abs(x) * abs(pe1)) by (nonlinear_arith);
            assert(abs(x) * abs(pe1) >= 2 * abs(pe1)) by (nonlinear_arith)
                requires
                    abs(x) >= 2,
            ;
            assert(abs(pow(x, k + 1)) <= abs(pe1));
        } else if x == 0 {
            lemma_abs_pow_monotone(x, k + 1, k + 1);
        } else {
            lemma_unit_pow(x, k + 1);
        }
    }
}

proof fn lemma_unit_pow(x: int, n: nat)
    requires
        x == 1 || x == -1,
    ensures
        pow(x, n) == 1 || pow(x, n) == -1,
    decreases n,
{
    reveal(pow);
    if n > 0 {
        lemma_unit_pow(x, (n - 1) as nat);
    }
}

impl PowUsize for i64 {
    open spec fn upow_defined(self, exp: usize) -> bool {
        fits_i64(ipow(self as int, exp as int))
    }

    open spec fn upow_value(self, exp: usize) -> i64 {
        ipow(self as int, exp as int) as i64
    }

    fn upow(self, exp: usize) -> (r: i64) {
        let e: u32 = #[verifier::truncate] (exp as u32);
        let mut acc: i64 = 1;
        let mut k: u32 = 0;
        proof {
            reveal(pow);
        }
        while k < e
            invariant
                k <= e,
                fits_i64(pow(self as int, e as nat)),
                acc as int == pow(self as int, k as nat),
            decreases e - k,
        {
            proof {
                lemma_pow_step_fits(self as int, k as nat, e as nat);
            }
            acc = acc * self;
            k = k + 1;
        }
        acc
    }
}

} // verus!
