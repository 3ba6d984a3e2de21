# polynomial_optics

Polynomials for polynomial optics (lens-flare rendering), with every
function's behaviour stated in `requires` / `ensures` contracts and proved
with Verus. Coefficients are `i64`; every contract says exactly which
inputs stay within machine integers.

## Layout

- `src/sparse_polynom.rs`: monomials and sparse polynomials (sorting,
  consolidation, sum, difference, product, scaling, division) with the
  laws that relate their values.
- `src/dense_polynom.rs`: polynomials with a full grid of coefficients in
  two and four variables: evaluation, coefficient-wise arithmetic and the
  per-coefficient fit.
- `src/corner_fit.rs`: sampling at the corners `(±1, …)` and fitting the
  samples gives every coefficient back.
- `src/polynom.rs`: polynomials whose exponents have total degree below
  `DEGREE`, stored in lexicographic order of exponents.
- `src/multi_index.rs`: the enumeration of those exponent tuples and its
  counting laws.
- `src/legendre.rs`: numbering of the four-dimensional Legendre basis.
- `src/ghosts.rs`, `src/mesh.rs`: the ghost selection of a lens and the
  triangle index buffer of the traced grid.
- `src/iexp.rs`: all `N`-tuples over a list, through itertools.
- `src/text.rs`: the written form of the polynomials.
- `src/power.rs`, `src/basic_polynom.rs`: integer powers and a polynomial
  with one coefficient per variable.
- `tests/`: tests on concrete values; `app/`: a small program that prints a
  few polynomials and draws a line with tiny-skia.
