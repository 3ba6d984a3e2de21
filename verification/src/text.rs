//! The written form of polynomials: coefficients in decimal, the
//! variables named `x`, `y`, `z` and `w`, and powers written with `^`.

use vstd::prelude::*;
use crate::sparse_polynom::{
    Monomial, Polynomial, TermView, term_degree, terms_view, stable_sorted, sort_by_exponents,
    lemma_stable_sorted_multiset,
};

verus! {

/// The character of the decimal digit `d`.
pub open spec fn digit_char(d: int) -> char {
    seq!['0', '1', '2', '3', '4', '5', '6', '7', '8', '9'][d]
}

/// The decimal digits of `n`, without leading zeros.
pub open spec fn decimal(n: nat) -> Seq<char>
    decreases n,
{
    if n < 10 {
        seq![digit_char(n as int)]
    } else {
        decimal(n / 10) + seq![digit_char((n % 10) as int)]
    }
}

/// An integer in decimal, with a minus sign when it is negative.
pub open spec fn int_text(v: int) -> Seq<char> {
    if v < 0 {
        seq!['-'] + decimal((-v) as nat)
    } else {
        decimal(v as nat)
    }
}

/// A coefficient that follows another term: its sign is always written.
pub open spec fn signed_text(v: int) -> Seq<char> {
    if v >= 0 {
        seq!['+'] + decimal(v as nat)
    } else {
        seq!['-'] + decimal((-v) as nat)
    }
}

/// The power `name^e`: nothing for exponent zero, the bare name for one.
pub open spec fn power_text(name: char, e: int) -> Seq<char> {
    if e == 1 {
        seq![name]
    } else if e != 0 {
        seq![name, '^'] + decimal(e as nat)
    } else {
        Seq::empty()
    }
}

/// The name of variable number `v`.
pub open spec fn var_name(v: int) -> char {
    seq!['x', 'y', 'z', 'w'][v]
}

fn digit(d: u64) -> (c: char)
    requires
        d < 10,
    ensures
        c == digit_char(d as int),
{
    match d {
        0 => '0',
        1 => '1',
        2 => '2',
        3 => '3',
        4 => '4',
        5 => '5',
        6 => '6',
        7 => '7',
        8 => '8',
        _ => '9',
    }
}

pub(crate) fn push_decimal(out: &mut Vec<char>, n: u64)
    ensures
        final(out)@ == old(out)@ + decimal(n as nat),
    decreases n,
{
    if n < 10 {
        out.push(digit(n));
    } else {
        push_decimal(out, n / 10);
        out.push(digit(n % 10));
        assert(out@ =~= old(out)@ + decimal(n as nat));
    }
}

/// The magnitude of `v`.
fn magnitude(v: i64) -> (m: u64)
    ensures
        m == (if v < 0 {
            -v
        } else {
            v as int
        }),
{
    if v == i64::MIN {
        9223372036854775808u64
    } else if v < 0 {
        (-v) as u64
    } else {
        v as u64
    }
}

pub(crate) fn push_int(out: &mut Vec<char>, v: i64)
    ensures
        final(out)@ == old(out)@ + int_text(v as int),
{
    if v < 0 {
        out.push('-');
    }
    push_decimal(out, magnitude(v));
    assert(out@ =~= old(out)@ + int_text(v as int));
}

pub(crate) fn push_signed(out: &mut Vec<char>, v: i64)
    ensures
        final(out)@ == old(out)@ + signed_text(v as int),
{
    if v < 0 {
        out.push('-');
    } else {
        out.push('+');
    }
    push_decimal(out, magnitude(v));
    assert(out@ =~= old(out)@ + signed_text(v as int));
}

pub(crate) fn push_power(out: &mut Vec<char>, name: char, e: usize)
    ensures
        final(out)@ == old(out)@ + power_text(name, e as int),
{
    if e == 1 {
        out.push(name);
        assert(out@ =~= old(out)@ + power_text(name, e as int));
    } else if e != 0 {
        out.push(name);
        out.push('^');
        push_decimal(out, e as u64);
        assert(out@ =~= old(out)@ + power_text(name, e as int));
    } else {
        assert(out@ =~= old(out)@ + power_text(name, e as int));
    }
}

/// Collects characters into a `String`.
///
/// Calls std's `FromIterator<char>` for `String`, which appends the
/// characters in order: the string holds exactly the characters of
/// `chars`.
#[verifier::external_body]
pub(crate) fn chars_to_string(chars: &Vec<char>) -> (s: String)
    ensures
        s@ == chars@,
{
    chars.iter().collect()
}

/// The powers of the first `n` variables.
pub open spec fn powers_text(e: Seq<int>, n: int) -> Seq<char>
    decreases n,
{
    if n <= 0 {
        Seq::empty()
    } else {
        powers_text(e, n - 1) + power_text(var_name(n - 1), e[n - 1])
    }
}

/// A term written out: nothing for coefficient zero; the coefficient
/// unless it is one and some exponent is not zero; then the powers.
pub open spec fn monomial_text(t: TermView) -> Seq<char> {
    if t.0 == 0 {
        Seq::empty()
    } else if t.0 != 1 || term_degree(t) == 0 {
        int_text(t.0) + powers_text(t.1, t.1.len() as int)
    } else {
        powers_text(t.1, t.1.len() as int)
    }
}

/// A term can be written: only the four named variables carry exponents,
/// and for coefficient one the degree fits in `usize`.
pub open spec fn monomial_text_defined(t: TermView) -> bool {
    t.0 != 0 ==> {
        &&& forall|v: int| 4 <= v < t.1.len() ==> #[trigger] t.1[v] == 0
        &&& t.0 == 1 ==> forall|k: int|
            0 <= k <= t.1.len() ==> #[trigger] crate::sparse_polynom::seq_sum(t.1.take(k))
                <= usize::MAX
    }
}

pub(crate) fn push_monomial<const VARIABLES: usize>(out: &mut Vec<char>, m: &Monomial<VARIABLES>)
    requires
        monomial_text_defined(m@),
    ensures
        final(out)@ == old(out)@ + monomial_text(m@),
{
    if m.coefficient == 0 {
        assert(out@ =~= old(out)@ + monomial_text(m@));
        return ;
    }
    let write_coefficient = if m.coefficient != 1 {
        true
    } else {
        m.degree() == 0
    };
    if write_coefficient {
        push_int(out, m.coefficient);
    }
    let ghost start = out@;
    let mut v: usize = 0;
    while v < VARIABLES
        invariant
            v <= VARIABLES,
            m@.1.len() == VARIABLES,
            monomial_text_defined(m@),
            m.coefficient != 0,
            out@ == start + powers_text(m@.1, v as int),
        decreases VARIABLES - v,
    {
        let e = m.exponents[v];
        assert(m@.1[v as int] == e as int);
        if e != 0 {
            assert(v < 4);
        }
        let name = if v == 0 {
            'x'
        } else if v == 1 {
            'y'
        } else if v == 2 {
            'z'
        } else {
            'w'
        };
        assert(e != 0 ==> name == var_name(v as int));
        push_power(out, name, e);
        assert(power_text(name, e as int) == power_text(var_name(v as int), m@.1[v as int]));
        assert(out@ =~= start + powers_text(m@.1, v + 1));
        v = v + 1;
    }
    assert(out@ =~= old(out)@ + monomial_text(m@));
}

impl<const VARIABLES: usize> Monomial<VARIABLES> {
    /// The term written out, for example `5x^3y^5`.
    pub fn to_string(&self) -> (s: String)
        requires
            monomial_text_defined(self@),
        ensures
            s@ == monomial_text(self@),
    {
        let mut out: Vec<char> = Vec::new();
        push_monomial(&mut out, self);
        assert(out@ =~= monomial_text(self@));
        chars_to_string(&out)
    }
}

/// The terms written one after the other: the first term, then each
/// later term that writes as something, after ` + `.
pub open spec fn terms_text(s: Seq<TermView>) -> Seq<char>
    decreases s.len(),
{
    if s.len() == 0 {
        Seq::empty()
    } else if s.len() == 1 {
        monomial_text(s[0])
    } else {
        let t = monomial_text(s.last());
        if t.len() > 0 {
            terms_text(s.drop_last()) + seq![' ', '+', ' '] + t
        } else {
            terms_text(s.drop_last())
        }
    }
}

/// A polynomial written out: `0` when it has no terms, otherwise its terms
/// in ascending order of exponents.
pub open spec fn polynomial_text(s: Seq<TermView>) -> Seq<char> {
    if s.len() == 0 {
        seq!['0']
    } else {
        terms_text(stable_sorted(s))
    }
}

impl<const VARIABLES: usize> Polynomial<VARIABLES> {
    /// Every term can be written.
    pub open spec fn text_defined(self) -> bool {
        forall|k: int| 0 <= k < self@.len() ==> monomial_text_defined(#[trigger] self@[k])
    }

    /// The polynomial written out, for example `x^2 + 3y`.
    pub fn to_string(&self) -> (s: String)
        requires
            self.text_defined(),
        ensures
            s@ == polynomial_text(self@),
    {
        let mut out: Vec<char> = Vec::new();
        if self.terms.len() == 0 {
            out.push('0');
            assert(out@ =~= polynomial_text(self@));
            return chars_to_string(&out);
        }
        let mut terms = self.terms.clone();
        assert(terms@ =~= self.terms@);
        sort_by_exponents(&mut terms);
        let ghost sv = terms_view(terms@);
        proof {
            broadcast use vstd::seq_lib::group_to_multiset_ensures;

            lemma_stable_sorted_multiset(self@);
            assert forall|k: int| 0 <= k < sv.len() implies monomial_text_defined(
                #[trigger] sv[k],
            ) by {
                assert(sv.to_multiset().count(sv[k]) > 0);
                assert(self@.contains(sv[k]));
                let j = choose|j: int| 0 <= j < self@.len() && self@[j] == sv[k];
                assert(monomial_text_defined(self@[j]));
            }
            assert(sv.len() == terms@.len());
            assert(sv[0] == terms@[0]@);
        }
        push_monomial(&mut out, &terms[0]);
        assert(sv.take(1) =~= seq![sv[0]]);
        let mut k: usize = 1;
        while k < terms.len()
            invariant
                1 <= k <= terms@.len(),
                sv == terms_view(terms@),
                sv.len() == terms@.len(),
                forall|m: int| 0 <= m < sv.len() ==> monomial_text_defined(#[trigger] sv[m]),
                out@ == terms_text(sv.take(k as int)),
            decreases terms@.len() - k,
        {
            let mut piece: Vec<char> = Vec::new();
            assert(sv[k as int] == terms@[k as int]@);
            push_monomial(&mut piece, &terms[k]);
            assert(piece@ =~= monomial_text(sv[k as int]));
            let ghost before = out@;
            assert(sv.take(k + 1).drop_last() =~= sv.take(k as int));
            assert(sv.take(k + 1).last() == sv[k as int]);
            if piece.len() > 0 {
                out.push(' ');
                out.push('+');
                out.push(' ');
                out.append(&mut piece);
                assert(out@ =~= before + seq![' ', '+', ' '] + monomial_text(sv[k as int]));
            }
            k = k + 1;
        }
        assert(sv.take(terms@.len() as int) =~= sv);
        chars_to_string(&out)
    }
}

/// All exponents are zero: the constant term.
pub open spec fn all_zero(e: Seq<int>) -> bool {
    forall|v: int| 0 <= v < e.len() ==> e[v] == 0
}

/// A coefficient with its powers: the constant term's coefficient as it
/// is, every other coefficient with its sign.
pub open spec fn term_text(t: TermView) -> Seq<char> {
    (if all_zero(t.1) {
        int_text(t.0)
    } else {
        signed_text(t.0)
    }) + powers_text(t.1, t.1.len() as int)
}

/// A term can be written: a coefficient written with its sign is not
/// `i64::MIN`, whose negation does not exist.
pub open spec fn term_text_defined(t: TermView) -> bool {
    !all_zero(t.1) ==> t.0 != i64::MIN
}

/// The terms of a grid written one after the other.
pub open spec fn grid_text(s: Seq<TermView>) -> Seq<char>
    decreases s.len(),
{
    if s.len() == 0 {
        Seq::empty()
    } else {
        grid_text(s.drop_last()) + term_text(s.last())
    }
}

pub proof fn lemma_grid_text_push(s: Seq<TermView>, t: TermView)
    ensures
        grid_text(s.push(t)) == grid_text(s) + term_text(t),
{
    assert(s.push(t).drop_last() =~= s);
}

/// The exponents of a slice as integers.
pub open spec fn exps_of(e: Seq<usize>) -> Seq<int> {
    e.map_values(|x: usize| x as int)
}

pub(crate) fn push_term(out: &mut Vec<char>, c: i64, e: &[usize])
    requires
        e@.len() <= 4,
        term_text_defined((c as int, exps_of(e@))),
    ensures
        final(out)@ == old(out)@ + term_text((c as int, exps_of(e@))),
{
    let ghost ev = exps_of(e@);
    let mut constant = true;
    let mut v: usize = 0;
    while v < e.len()
        invariant
            v <= e@.len(),
            ev == exps_of(e@),
            constant == forall|u: int| 0 <= u < v ==> ev[u] == 0,
        decreases e@.len() - v,
    {
        assert(ev[v as int] == e@[v as int] as int);
        if e[v] != 0 {
            constant = false;
        }
        v = v + 1;
    }
    assert(constant == all_zero(ev));
    if constant {
        push_int(out, c);
    } else {
        push_signed(out, c);
    }
    let ghost start = out@;
    let mut v: usize = 0;
    while v < e.len()
        invariant
            v <= e@.len(),
            e@.len() <= 4,
            ev == exps_of(e@),
            out@ == start + powers_text(ev, v as int),
        decreases e@.len() - v,
    {
        let name = if v == 0 {
            'x'
        } else if v == 1 {
            'y'
        } else if v == 2 {
            'z'
        } else {
            'w'
        };
        assert(name == var_name(v as int));
        assert(ev[v as int] == e@[v as int] as int);
        push_power(out, name, e[v]);
        assert(out@ =~= start + powers_text(ev, v + 1));
        v = v + 1;
    }
    assert(out@ =~= old(out)@ + term_text((c as int, ev)));
}

/// Whether `c` is one of the decimal digits `'0'` to `'9'`.
pub open spec fn is_digit(c: char) -> bool {
    48 <= (c as int) <= 57
}

/// The number that a string of decimal digits denotes.
pub open spec fn parse_decimal(s: Seq<char>) -> int
    decreases s.len(),
{
    if s.len() == 0 {
        0
    } else {
        parse_decimal(s.drop_last()) * 10 + ((s.last() as int) - 48)
    }
}

proof fn lemma_digit_char(d: int)
    requires
        0 <= d < 10,
    ensures
        digit_char(d) as int == 48 + d,
{
    if d == 0 {
        assert(digit_char(d) == '0');
    } else if d == 1 {
        assert(digit_char(d) == '1');
    } else if d == 2 {
        assert(digit_char(d) == '2');
    } else if d == 3 {
        assert(digit_char(d) == '3');
    } else if d == 4 {
        assert(digit_char(d) == '4');
    } else if d == 5 {
        assert(digit_char(d) == '5');
    } else if d == 6 {
        assert(digit_char(d) == '6');
    } else if d == 7 {
        assert(digit_char(d) == '7');
    } else if d == 8 {
        assert(digit_char(d) == '8');
    } else {
        assert(digit_char(d) == '9');
    }
}

/// The decimal form of `n` is a non-empty string of digits, with no
/// leading zero unless `n` is zero, that denotes `n`.
pub proof fn lemma_decimal_denotes(n: nat)
    ensures
        decimal(n).len() >= 1,
        forall|k: int| 0 <= k < decimal(n).len() ==> is_digit(#[trigger] decimal(n)[k]),
        decimal(n)[0] == '0' ==> n == 0,
        parse_decimal(decimal(n)) == n,
    decreases n,
{
    let s = decimal(n);
    if n < 10 {
        lemma_digit_char(n as int);
        assert(s.drop_last() =~= Seq::<char>::empty());
        assert(parse_decimal(s.drop_last()) == 0);
    } else {
        let q = (n / 10) as nat;
        lemma_decimal_denotes(q);
        lemma_digit_char((n % 10) as int);
        let t = decimal(q);
        assert(s == t + seq![digit_char((n % 10) as int)]);
        assert(s.drop_last() =~= t);
        assert forall|k: int| 0 <= k < s.len() implies is_digit(#[trigger] s[k]) by {
            if k < t.len() {
                assert(s[k] == t[k]);
            }
        }
        assert(s[0] == t[0]);
        assert(q > 0);
        assert(parse_decimal(s) == parse_decimal(t) * 10 + (n % 10));
    }
}

/// Writing the power `name^e` and reading it back gives `e`: nothing for
/// exponent zero, the bare name for one, and otherwise the name, `^` and
/// the digits of `e`.
pub proof fn lemma_power_text_denotes(name: char, e: nat)
    ensures
        e == 0 ==> power_text(name, e as int).len() == 0,
        e == 1 ==> power_text(name, e as int) == seq![name],
        e >= 2 ==> {
            let t = power_text(name, e as int);
            &&& t.len() >= 3
            &&& t[0] == name
            &&& t[1] == '^'
            &&& forall|k: int| 2 <= k < t.len() ==> is_digit(#[trigger] t[k])
            &&& parse_decimal(t.subrange(2, t.len() as int)) == e
        },
{
    lemma_decimal_denotes(e);
    if e >= 2 {
        let t = power_text(name, e as int);
        assert(t.subrange(2, t.len() as int) =~= decimal(e));
        assert forall|k: int| 2 <= k < t.len() implies is_digit(#[trigger] t[k]) by {
            assert(t[k] == decimal(e)[k - 2]);
        }
    }
}

/// Writing an integer and reading it back gives the integer: a minus sign
/// exactly for negative values, followed by the digits of its magnitude.
pub proof fn lemma_int_text_denotes(v: int)
    ensures
        ({
            let t = int_text(v);
            let digits = if v < 0 {
                t.subrange(1, t.len() as int)
            } else {
                t
            };
            &&& t.len() >= 1
            &&& (t[0] == '-') == (v < 0)
            &&& forall|k: int| 0 <= k < digits.len() ==> is_digit(#[trigger] digits[k])
            &&& digits.len() >= 1
            &&& (if v < 0 {
                -parse_decimal(digits)
            } else {
                parse_decimal(digits)
            }) == v
        }),
{
    let m: nat = if v < 0 {
        (-v) as nat
    } else {
        v as nat
    };
    lemma_decimal_denotes(m);
    let t = int_text(v);
    if v < 0 {
        assert(t.subrange(1, t.len() as int) =~= decimal(m));
    } else {
        assert(is_digit(t[0]));
    }
}

/// A coefficient written with its sign reads back as the coefficient: `+`
/// or `-` by its sign, then the digits of its magnitude.
pub proof fn lemma_signed_text_denotes(v: int)
    ensures
        ({
            let t = signed_text(v);
            let digits = t.subrange(1, t.len() as int);
            &&& t.len() >= 2
            &&& t[0] == (if v < 0 {
                '-'
            } else {
                '+'
            })
            &&& forall|k: int| 0 <= k < digits.len() ==> is_digit(#[trigger] digits[k])
            &&& (if v < 0 {
                -parse_decimal(digits)
            } else {
                parse_decimal(digits)
            }) == v
        }),
{
    let m: nat = if v < 0 {
        (-v) as nat
    } else {
        v as nat
    };
    lemma_decimal_denotes(m);
    let t = signed_text(v);
    assert(t.subrange(1, t.len() as int) =~= decimal(m));
}

/// The exponents that are zero but `e1` at variable `v1` and `e2` at
/// variable `v2`.
pub open spec fn two_exponents(n: int, v1: int, e1: int, v2: int, e2: int) -> Seq<int> {
    Seq::new(
        n as nat,
        |u: int|
            if u == v1 {
                e1
            } else if u == v2 {
                e2
            } else {
                0
            },
    )
}

proof fn lemma_powers_text_two(n: int, m: int, v1: int, e1: int, v2: int, e2: int)
    requires
        0 <= v1 < v2 < n <= 4,
        0 <= m <= n,
    ensures
        powers_text(two_exponents(n, v1, e1, v2, e2), m) == (if v1 < m {
            power_text(seq!['x', 'y', 'z', 'w'][v1], e1)
        } else {
            Seq::empty()
        }) + (if v2 < m {
            power_text(seq!['x', 'y', 'z', 'w'][v2], e2)
        } else {
            Seq::empty()
        }),
    decreases m,
{
    let ex = two_exponents(n, v1, e1, v2, e2);
    if m > 0 {
        lemma_powers_text_two(n, m - 1, v1, e1, v2, e2);
        let u = m - 1;
        assert(var_name(u) == seq!['x', 'y', 'z', 'w'][u]);
        if u != v1 && u != v2 {
            assert(ex[u] == 0);
        }
        let a = if v1 < m - 1 {
            power_text(seq!['x', 'y', 'z', 'w'][v1], e1)
        } else {
            Seq::empty()
        };
        let b = if v2 < m - 1 {
            power_text(seq!['x', 'y', 'z', 'w'][v2], e2)
        } else {
            Seq::empty()
        };
        assert(powers_text(ex, m) == a + b + power_text(var_name(u), ex[u]));
        if u == v1 {
            assert(b =~= Seq::<char>::empty());
            assert(a =~= Seq::<char>::empty());
        } else if u == v2 {
            assert(b =~= Seq::<char>::empty());
        } else {
            assert(power_text(var_name(u), ex[u]) =~= Seq::<char>::empty());
        }
        assert(powers_text(ex, m) =~= (if v1 < m {
            power_text(seq!['x', 'y', 'z', 'w'][v1], e1)
        } else {
            Seq::empty()
        }) + (if v2 < m {
            power_text(seq!['x', 'y', 'z', 'w'][v2], e2)
        } else {
            Seq::empty()
        }));
    } else {
        assert(powers_text(ex, 0) =~= Seq::<char>::empty());
    }
}

/// A term in at most two of the variables `x`, `y`, `z`, `w` is written as
/// its coefficient (left out for coefficient one, unless both exponents
/// are zero) followed by the powers of the two variables in variable
/// order; a zero term is written as nothing.
pub proof fn lemma_monomial_text_two(c: int, n: int, v1: int, e1: int, v2: int, e2: int)
    requires
        0 <= v1 < v2 < n <= 4,
        e1 >= 0,
        e2 >= 0,
    ensures
        monomial_text((c, two_exponents(n, v1, e1, v2, e2))) == (if c == 0 {
            Seq::empty()
        } else {
            (if c != 1 || e1 + e2 == 0 {
                int_text(c)
            } else {
                Seq::empty()
            }) + power_text(seq!['x', 'y', 'z', 'w'][v1], e1) + power_text(
                seq!['x', 'y', 'z', 'w'][v2],
                e2,
            )
        }),
{
    let ex = two_exponents(n, v1, e1, v2, e2);
    lemma_powers_text_two(n, n, v1, e1, v2, e2);
    lemma_seq_sum_two(n, n, v1, e1, v2, e2);
    assert(ex.take(n) =~= ex);
    assert(ex.len() == n);
    assert(term_degree((c, ex)) == e1 + e2);
}

proof fn lemma_seq_sum_two(n: int, m: int, v1: int, e1: int, v2: int, e2: int)
    requires
        0 <= v1 < v2 < n,
        0 <= m <= n,
    ensures
        crate::sparse_polynom::seq_sum(two_exponents(n, v1, e1, v2, e2).take(m)) == (if v1 < m {
            e1
        } else {
            0
        }) + (if v2 < m {
            e2
        } else {
            0
        }),
    decreases m,
{
    let ex = two_exponents(n, v1, e1, v2, e2);
    if m > 0 {
        lemma_seq_sum_two(n, m - 1, v1, e1, v2, e2);
        assert(ex.take(m) =~= ex.take(m - 1).push(ex[m - 1]));
        crate::sparse_polynom::lemma_seq_sum_push(ex.take(m - 1), ex[m - 1]);
    } else {
        assert(ex.take(0) =~= Seq::<int>::empty());
    }
    if m == n {
        assert(ex.take(n) =~= ex);
    }
}

/// A polynomial without terms is written `0`; one of two terms with
/// coefficients other than zero and one is written as its terms in
/// ascending order of exponents, whatever order they are stored in, joined
/// by ` + `.
pub proof fn lemma_polynomial_text_two(a: TermView, b: TermView)
    requires
        crate::sparse_polynom::exps_lt(a.1, b.1),
        a.0 != 0 && a.0 != 1,
        b.0 != 0 && b.0 != 1,
    ensures
        polynomial_text(Seq::empty()) == seq!['0'],
        polynomial_text(seq![a, b]) == monomial_text(a) + seq![' ', '+', ' '] + monomial_text(b),
        polynomial_text(seq![b, a]) == monomial_text(a) + seq![' ', '+', ' '] + monomial_text(b),
{
    crate::sparse_polynom::lemma_exps_lt_asymmetric(a.1, b.1);
    lemma_int_text_denotes(b.0);
    let e = Seq::<TermView>::empty();
    assert(seq![a, b].drop_last() =~= seq![a]);
    assert(seq![b, a].drop_last() =~= seq![b]);
    assert(seq![a].drop_last() =~= e);
    assert(seq![b].drop_last() =~= e);
    assert(stable_sorted(e) =~= e);
    assert(seq![a].last() == a);
    assert(seq![b].last() == b);
    assert(crate::sparse_polynom::insert_stable(e, a) =~= seq![a]);
    assert(crate::sparse_polynom::insert_stable(e, b) =~= seq![b]);
    assert(stable_sorted(seq![a]) =~= seq![a]);
    assert(stable_sorted(seq![b]) =~= seq![b]);
    assert(seq![a, b].last() == b);
    assert(seq![b, a].last() == a);
    assert(crate::sparse_polynom::exps_le(a.1, b.1));
    assert(!crate::sparse_polynom::exps_le(b.1, a.1));
    assert(stable_sorted(seq![a, b]) =~= seq![a, b]);
    assert(stable_sorted(seq![b, a]) =~= seq![a, b]);
    assert(monomial_text(b).len() > 0);
    assert(seq![a, b].drop_last() =~= seq![a]);
    assert(terms_text(seq![a]) == monomial_text(a));
}

pub(crate) proof fn lemma_powers_text_xy(i: int, j: int)
    ensures
        powers_text(seq![i, j], 2) == power_text('x', i) + power_text('y', j),
{
    let e = seq![i, j];
    assert(powers_text(e, 0) == Seq::<char>::empty());
    assert(var_name(0) == 'x');
    assert(var_name(1) == 'y');
    assert(powers_text(e, 1) =~= power_text('x', i));
    assert(powers_text(e, 2) =~= power_text('x', i) + power_text('y', j));
}

} // verus!
