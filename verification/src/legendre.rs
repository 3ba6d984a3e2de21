//! Index bookkeeping of the four-dimensional Legendre basis: the basis
//! polynomials are numbered in the lexicographic order of their degree
//! quadruples `(i, j, k, l)` with `i + j + k + l <= degree`.

use vstd::prelude::*;
use crate::multi_index::{
    terms4, position4, in_loops4, lemma_position4, lemma_position4_steps, lemma_terms4_distinct,
    lemma_terms4_len, pen, lemma_terms4_contains, lemma_terms4_first_position,
};

verus! {

/// The number of basis polynomials of a four-dimensional Legendre basis
/// of the given degree.
pub fn num_polys(degree: usize) -> (r: usize)
    requires
        pen(degree + 1) <= usize::MAX,
    ensures
        r == terms4(degree + 1).len(),
        r == pen(degree + 1),
{
    let ghost d: int = degree + 1;
    proof {
        lemma_terms4_len(d);
        lemma_position4_steps(d, 0, 0, 0);
    }
    let dg = degree as u128;
    let mut num: usize = 0;
    let mut i: u128 = 0;
    while i <= dg
        invariant
            d == degree + 1,
            dg == degree,
            i <= dg + 1,
            terms4(d).len() <= usize::MAX,
            num == position4(d, i as int, 0, 0, 0),
        decreases dg + 1 - i,
    {
        let mut j: u128 = 0;
        while j <= dg - i
            invariant
                d == degree + 1,
                dg == degree,
                i <= dg,
                j <= dg - i + 1,
                terms4(d).len() <= usize::MAX,
                num == position4(d, i as int, j as int, 0, 0),
            decreases dg - i + 1 - j,
        {
            let mut k: u128 = 0;
            while k <= dg - i - j
                invariant
                    d == degree + 1,
                    dg == degree,
                    i <= dg,
                    j <= dg - i,
                    k <= dg - i - j + 1,
                    terms4(d).len() <= usize::MAX,
                    num == position4(d, i as int, j as int, k as int, 0),
                decreases dg - i - j + 1 - k,
            {
                let mut l: u128 = 0;
                while l <= dg - i - j - k
                    invariant
                        d == degree + 1,
                        dg == degree,
                        i <= dg,
                        j <= dg - i,
                        k <= dg - i - j,
                        l <= dg - i - j - k + 1,
                        terms4(d).len() <= usize::MAX,
                        num == position4(d, i as int, j as int, k as int, l as int),
                    decreases dg - i - j - k + 1 - l,
                {
                    proof {
                        lemma_position4(d, i as int, j as int, k as int, l as int);
                    }
                    num = num + 1;
                    l = l + 1;
                }
                proof {
                    lemma_position4_steps(d, i as int, j as int, k as int);
                }
                k = k + 1;
            }
            proof {
                lemma_position4_steps(d, i as int, j as int, 0);
            }
            j = j + 1;
        }
        proof {
            lemma_position4_steps(d, i as int, 0, 0);
        }
        i = i + 1;
    }
    num
}

/// The degree quadruple of basis polynomial number `index`, or `None` when
/// the basis of this degree has fewer polynomials.
pub fn poly_index_to_multi_index(index: usize, degree: usize) -> (r: Option<
    (usize, usize, usize, usize),
>)
    requires
        index < terms4(degree + 1).len() || terms4(degree + 1).len() <= usize::MAX,
    ensures
        r == (if index < terms4(degree + 1).len() {
            Some(terms4(degree + 1)[index as int])
        } else {
            None
        }),
{
    let ghost d: int = degree + 1;
    proof {
        lemma_position4_steps(d, 0, 0, 0);
    }
    let dg = degree as u128;
    let mut counter: usize = 0;
    let mut i: u128 = 0;
    while i <= dg
        invariant
            d == degree + 1,
            dg == degree,
            i <= dg + 1,
            index < terms4(d).len() || terms4(d).len() <= usize::MAX,
            counter <= index,
            counter == position4(d, i as int, 0, 0, 0),
        decreases dg + 1 - i,
    {
        let mut j: u128 = 0;
        while j <= dg - i
            invariant
                d == degree + 1,
                dg == degree,
                i <= dg,
                j <= dg - i + 1,
                index < terms4(d).len() || terms4(d).len() <= usize::MAX,
                counter <= index,
                counter == position4(d, i as int, j as int, 0, 0),
            decreases dg - i + 1 - j,
        {
            let mut k: u128 = 0;
            while k <= dg - i - j
                invariant
                    d == degree + 1,
                    dg == degree,
                    i <= dg,
                    j <= dg - i,
                    k <= dg - i - j + 1,
                    index < terms4(d).len() || terms4(d).len() <= usize::MAX,
                    counter <= index,
                    counter == position4(d, i as int, j as int, k as int, 0),
                decreases dg - i - j + 1 - k,
            {
                let mut l: u128 = 0;
                while l <= dg - i - j - k
                    invariant
                        d == degree + 1,
                        dg == degree,
                        i <= dg,
                        j <= dg - i,
                        k <= dg - i - j,
                        l <= dg - i - j - k + 1,
                        index < terms4(d).len() || terms4(d).len() <= usize::MAX,
                        counter <= index,
                        counter == position4(d, i as int, j as int, k as int, l as int),
                    decreases dg - i - j - k + 1 - l,
                {
                    proof {
                        lemma_position4(d, i as int, j as int, k as int, l as int);
                    }
                    if counter == index {
                        return Some((i as usize, j as usize, k as usize, l as usize));
                    }
                    counter = counter + 1;
                    l = l + 1;
                }
                proof {
                    lemma_position4_steps(d, i as int, j as int, k as int);
                }
                k = k + 1;
            }
            proof {
                lemma_position4_steps(d, i as int, j as int, 0);
            }
            j = j + 1;
        }
        proof {
            lemma_position4_steps(d, i as int, 0, 0);
        }
        i = i + 1;
    }
    None
}

/// The quadruple occurs in `terms4(d)` at a position that a `usize`
/// counter reaches.
pub open spec fn position_reachable(d: int, target: (usize, usize, usize, usize)) -> bool {
    exists|q: int| 0 <= q <= usize::MAX && q < terms4(d).len() && #[trigger] terms4(d)[q] == target
}

/// The number of the basis polynomial of degrees `(i, j, k, l)`, or `None`
/// when `i + j + k + l` exceeds `degree`.
pub fn poly_multi_index_to_index(i: usize, j: usize, k: usize, l: usize, degree: usize) -> (r:
    Option<usize>)
    requires
        position_reachable(degree + 1, (i, j, k, l)) || terms4(degree + 1).len() <= usize::MAX,
    ensures
        match r {
            Some(c) => {
                &&& c < terms4(degree + 1).len()
                &&& terms4(degree + 1)[c as int] == (i, j, k, l)
                &&& forall|q: int| 0 <= q < c ==> #[trigger] terms4(degree + 1)[q] != (i, j, k, l)
            },
            None => !terms4(degree + 1).contains((i, j, k, l)),
        },
{
    let ghost d: int = degree + 1;
    let ghost target = (i, j, k, l);
    proof {
        lemma_position4_steps(d, 0, 0, 0);
    }
    let dg = degree as u128;
    let mut counter: usize = 0;
    let mut m: u128 = 0;
    while m <= dg
        invariant
            d == degree + 1,
            dg == degree,
            target == (i, j, k, l),
            m <= dg + 1,
            position_reachable(d, target) || terms4(d).len() <= usize::MAX,
            counter == position4(d, m as int, 0, 0, 0),
            forall|q: int| 0 <= q < counter ==> terms4(d)[q] != target,
        decreases dg + 1 - m,
    {
        let mut n: u128 = 0;
        while n <= dg - m
            invariant
                d == degree + 1,
                dg == degree,
                target == (i, j, k, l),
                m <= dg,
                n <= dg - m + 1,
                position_reachable(d, target) || terms4(d).len() <= usize::MAX,
                counter == position4(d, m as int, n as int, 0, 0),
                forall|q: int| 0 <= q < counter ==> terms4(d)[q] != target,
            decreases dg - m + 1 - n,
        {
            let mut o: u128 = 0;
            while o <= dg - m - n
                invariant
                    d == degree + 1,
                    dg == degree,
                    target == (i, j, k, l),
                    m <= dg,
                    n <= dg - m,
                    o <= dg - m - n + 1,
                    position_reachable(d, target) || terms4(d).len() <= usize::MAX,
                    counter == position4(d, m as int, n as int, o as int, 0),
                    forall|q: int| 0 <= q < counter ==> terms4(d)[q] != target,
                decreases dg - m - n + 1 - o,
            {
                let mut p: u128 = 0;
                while p <= dg - m - n - o
                    invariant
                        d == degree + 1,
                        dg == degree,
                        target == (i, j, k, l),
                        m <= dg,
                        n <= dg - m,
                        o <= dg - m - n,
                        p <= dg - m - n - o + 1,
                        position_reachable(d, target) || terms4(d).len() <= usize::MAX,
                        counter == position4(d, m as int, n as int, o as int, p as int),
                        forall|q: int| 0 <= q < counter ==> terms4(d)[q] != target,
                    decreases dg - m - n - o + 1 - p,
                {
                    proof {
                        lemma_position4(d, m as int, n as int, o as int, p as int);
                    }
                    if m == i as u128 && n == j as u128 && o == k as u128 && p == l as u128 {
                        return Some(counter);
                    }
                    proof {
                        assert(terms4(d)[counter as int] != target);
                        if !(terms4(d).len() <= usize::MAX) {
                            let q = choose|q: int|
                                0 <= q <= usize::MAX && q < terms4(d).len() && #[trigger] terms4(
                                    d,
                                )[q] == target;
                            assert(q > counter);
                        }
                    }
                    counter = counter + 1;
                    p = p + 1;
                }
                proof {
                    lemma_position4_steps(d, m as int, n as int, o as int);
                }
                o = o + 1;
            }
            proof {
                lemma_position4_steps(d, m as int, n as int, 0);
            }
            n = n + 1;
        }
        proof {
            lemma_position4_steps(d, m as int, 0, 0);
        }
        m = m + 1;
    }
    proof {
        assert forall|q: int| 0 <= q < terms4(d).len() implies terms4(d)[q] != target by {}
    }
    None
}

/// The basis of a degree holds exactly the quadruples of total degree at
/// most `degree`: `poly_multi_index_to_index` answers `None` exactly when
/// `i + j + k + l > degree`.
pub proof fn lemma_basis_membership(degree: usize, t: (usize, usize, usize, usize))
    ensures
        terms4(degree + 1).contains(t) <==> t.0 + t.1 + t.2 + t.3 <= degree,
{
    lemma_terms4_contains(degree + 1, t);
}

/// Numbering is a bijection: the quadruple of basis polynomial `index`
/// stands at no smaller position, so `poly_multi_index_to_index` gives
/// `index` back for what `poly_index_to_multi_index` gives for `index`.
pub proof fn lemma_index_round_trip(degree: usize, index: int, c: int)
    requires
        0 <= index < terms4(degree + 1).len(),
        0 <= c < terms4(degree + 1).len(),
        terms4(degree + 1)[c] == terms4(degree + 1)[index],
        forall|q: int|
            0 <= q < c ==> #[trigger] terms4(degree + 1)[q] != terms4(degree + 1)[index],
    ensures
        c == index,
{
    lemma_terms4_first_position(degree + 1, index);
    if c > index {
        assert(terms4(degree + 1)[index] != terms4(degree + 1)[index]);
    }
}

} // verus!
