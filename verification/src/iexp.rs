//! All `N`-tuples over a list of items, in lexicographic order.

use vstd::prelude::*;
use vstd::arithmetic::power::pow;
use itertools::Itertools;

verus! {

/// In the lexicographic enumeration of the `n`-tuples over `base` items,
/// the index of the item at position `p` of tuple number `k`.
pub open spec fn cartesian_digit(k: int, p: int, n: int, base: int) -> int {
    (k / pow(base, (n - 1 - p) as nat)) % base
}

/// The `n`-fold cartesian power of `items`, through itertools'
/// `multi_cartesian_product`.
///
/// What this states of `Itertools::multi_cartesian_product` (itertools
/// 0.10): applied to `n` copies of an iterator over `items`, it yields the
/// `n`-tuples in lexicographic order, the last position changing fastest,
/// so that tuple `k` holds at position `p` the item of index
/// `cartesian_digit(k, p, n, items.len())`; with no iterators at all (`n`
/// zero) it yields nothing.
#[verifier::external_body]
fn multi_cartesian_power<T: Copy>(items: &Vec<T>, n: usize) -> (r: Vec<Vec<T>>)
    requires
        n > 0 ==> pow(items@.len() as int, n as nat) <= usize::MAX,
    ensures
        r@.len() == (if n == 0 {
            0
        } else {
            pow(items@.len() as int, n as nat)
        }),
        forall|k: int|
            0 <= k < r@.len() ==> (#[trigger] r@[k])@.len() == n && forall|p: int|
                0 <= p < n ==> r@[k]@[p] == items@[cartesian_digit(
                    k,
                    p,
                    n as int,
                    items@.len() as int,
                )],
{
    (0..n).map(|_| items.iter().copied()).multi_cartesian_product().collect()
}

/// Converts a vector of length `N` into an array, through std's
/// `TryFrom<Vec<T>>` for `[T; N]`, which succeeds exactly when the lengths
/// agree and keeps the elements in order.
#[verifier::external_body]
fn vec_into_array<T, const N: usize>(v: Vec<T>) -> (a: [T; N])
    requires
        v@.len() == N,
    ensures
        a@ == v@,
{
    v.try_into().ok().unwrap()
}

/// All `N`-tuples over `items` as arrays, in lexicographic order; none at
/// all for `N` zero.
pub fn iexp<const N: usize, T: Copy>(items: &Vec<T>) -> (r: Vec<[T; N]>)
    requires
        N > 0 ==> pow(items@.len() as int, N as nat) <= usize::MAX,
    ensures
        r@.len() == (if N == 0 {
            0
        } else {
            pow(items@.len() as int, N as nat)
        }),
        forall|k: int, p: int|
            0 <= k < r@.len() && 0 <= p < N ==> #[trigger] r@[k]@[p] == items@[cartesian_digit(
                k,
                p,
                N as int,
                items@.len() as int,
            )],
{
    let mut tuples = multi_cartesian_power(items, N);
    let ghost all = tuples@;
    let ghost total = all.len();
    let mut reversed: Vec<[T; N]> = Vec::new();
    while tuples.len() > 0
        invariant
            total == all.len(),
            tuples@ == all.take(tuples@.len() as int),
            tuples@.len() + reversed@.len() == total,
            forall|m: int|
                0 <= m < total ==> (#[trigger] all[m])@.len() == N && forall|p: int|
                    0 <= p < N ==> all[m]@[p] == items@[cartesian_digit(
                        m,
                        p,
                        N as int,
                        items@.len() as int,
                    )],
            forall|m: int|
                0 <= m < reversed@.len() ==> (#[trigger] reversed@[m])@ == all[total - 1 - m]@,
        decreases tuples@.len(),
    {
        let ghost before = tuples@;
        let tuple = tuples.pop().unwrap();
        assert(tuple == all[before.len() - 1]);
        assert(tuples@ =~= all.take(tuples@.len() as int));
        let array: [T; N] = vec_into_array(tuple);
        reversed.push(array);
    }
    let mut result: Vec<[T; N]> = Vec::new();
    let mut m: usize = reversed.len();
    while m > 0
        invariant
            m <= reversed@.len(),
            reversed@.len() == total,
            result@.len() == total - m,
            forall|q: int|
                0 <= q < total ==> (#[trigger] all[q])@.len() == N && forall|p: int|
                    0 <= p < N ==> all[q]@[p] == items@[cartesian_digit(
                        q,
                        p,
                        N as int,
                        items@.len() as int,
                    )],
            forall|q: int|
                0 <= q < reversed@.len() ==> (#[trigger] reversed@[q])@ == all[total - 1 - q]@,
            forall|q: int, p: int|
                0 <= q < result@.len() && 0 <= p < N ==> #[trigger] result@[q]@[p] == items@[cartesian_digit(
                    q,
                    p,
                    N as int,
                    items@.len() as int,
                )],
        decreases m,
    {
        m = m - 1;
        let array = reversed[m];
        assert(array@ == all[total - 1 - m]@);
        let ghost q = result@.len() as int;
        assert(q == total - 1 - m);
        result.push(array);
    }
    result
}

} // verus!
