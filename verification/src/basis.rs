//! The univariate orthonormal Legendre basis over `[-1, 1]`, held exactly.
//!
//! The `n`-th basis polynomial is `sqrt((2n + 1) / 2) * P_n(x)` with
//! `P_n(x) = sum_k c(n, k) x^k`, where the classical generalized-binomial
//! construction gives `c(n, k) = 2^n * C(n, k) * G((n + k - 1) / 2, n)` and
//! `G(a, m) = prod_{t < m} (a - t) / (m - t)` is the generalized binomial
//! coefficient. Expanding `G` at the half-integer argument and cancelling the
//! `2^n` leaves the exact rational form carried here:
//!
//! `c(n, k) = C(n, k) * prod_{t=0}^{n-1} (n + k - 1 - 2t) / n!`.
//!
//! Each monomial stores that numerator and denominator as integers; only the
//! irrational normalization `sqrt((2n + 1) / 2)` is left to the consumer, as
//! the square it multiplies onto the rational polynomial.

use vstd::prelude::*;
use vstd::arithmetic::power::pow;
use vstd::arithmetic::power2::pow2;
use crate::combinatorics::{
    binom, factorial, binomial_exec, lemma_binom_le_pow2, lemma_binom_nonneg,
    lemma_factorial_monotone, lemma_factorial_20,
};
use crate::MAX_DEGREE;

verus! {

/// One term of a univariate polynomial: an exact rational coefficient
/// `coeff_num / coeff_den` times `x^exponent`.
#[derive(Clone, Copy, Debug)]
pub struct Monomial {
    /// Numerator of the rational coefficient.
    pub coeff_num: i128,
    /// Denominator of the rational coefficient; always positive.
    pub coeff_den: u64,
    /// The power of the variable this term multiplies.
    pub exponent: usize,
}

/// A univariate polynomial with exact rational terms, carrying the square of
/// its normalization factor: the polynomial's value is
/// `sqrt(norm2_num / norm2_den) * sum_t (coeff_num_t / coeff_den_t) * x^(e_t)`.
#[derive(Clone, Debug)]
pub struct Polynomial {
    /// The terms, ordered by ascending exponent.
    pub terms: Vec<Monomial>,
    /// Numerator of the squared normalization factor.
    pub norm2_num: u64,
    /// Denominator of the squared normalization factor.
    pub norm2_den: u64,
}

/// The ordered family of Legendre basis polynomials up to a degree bound, one
/// polynomial per degree `0 ..= degree`.
#[derive(Clone, Debug)]
pub struct LegendreBasis {
    /// The degree bound the family was built for.
    pub degree: usize,
    /// The polynomials, indexed by their degree.
    pub basis: Vec<Polynomial>,
}

/// The product `prod_{t=0}^{c-1} (n + k - 1 - 2t)`: the first `c` factors of
/// the odd cascade that the generalized binomial coefficient expands into.
pub open spec fn odd_product_prefix(n: int, k: int, c: int) -> int
    decreases c,
{
    if c <= 0 {
        1
    } else {
        odd_product_prefix(n, k, c - 1) * (n + k + 1 - 2 * c)
    }
}

/// Exact numerator of the coefficient of `x^k` in the unnormalized `n`-th
/// Legendre polynomial, over the denominator `factorial(n)`.
pub open spec fn legendre_num(n: int, k: int) -> int {
    binom(n, k) * odd_product_prefix(n, k, n)
}

/// Whether monomial `m` is exactly the `k`-th term of the `n`-th basis
/// polynomial.
pub open spec fn monomial_is(m: Monomial, n: int, k: int) -> bool {
    &&& m.coeff_num as int == legendre_num(n, k)
    &&& m.coeff_den as int == factorial(n)
    &&& m.exponent as int == k
}

/// Whether `p` is exactly the `n`-th orthonormal Legendre basis polynomial.
pub open spec fn poly_is_legendre(p: Polynomial, n: int) -> bool {
    &&& p.terms@.len() == n + 1
    &&& forall|k: int| 0 <= k <= n ==> monomial_is(#[trigger] p.terms@[k], n, k)
    &&& p.norm2_num as int == 2 * n + 1
    &&& p.norm2_den == 2u64
}

/// Whether `b` is exactly the Legendre family for its degree bound.
pub open spec fn basis_is_legendre(b: LegendreBasis) -> bool {
    &&& b.basis@.len() == b.degree as int + 1
    &&& forall|n: int| 0 <= n <= b.degree as int ==> poly_is_legendre(#[trigger] b.basis@[n], n)
}

/// `39^20` written out: the largest magnitude the odd cascade can reach within
/// the supported degrees.
proof fn lemma_pow39_20()
    ensures
        pow(39, 20) == 66266211231824447117620880943201,
{
    assert(pow(39, 20) == 66266211231824447117620880943201) by {
        reveal_with_fuel(pow, 21);
    }
}

/// The factorial of `n`, computed exactly.
fn factorial_exec(n: usize) -> (r: u64)
    requires
        n <= MAX_DEGREE,
    ensures
        r as int == factorial(n as int),
{
    let mut acc: u64 = 1;
    let mut c: usize = 0;
    while c < n
        invariant
            c <= n <= 20,
            acc as int == factorial(c as int),
        decreases n - c,
    {
        proof {
            assert(factorial(c as int + 1) == (c as int + 1) * factorial(c as int));
            lemma_factorial_monotone(c as int + 1, 20);
            lemma_factorial_20();
        }
        acc = ((c as u64) + 1) * acc;
        c = c + 1;
    }
    acc
}

/// The odd cascade `prod_{t=0}^{n-1} (n + k - 1 - 2t)`, computed exactly.
fn odd_product_exec(n: usize, k: usize) -> (r: i128)
    requires
        k <= n <= MAX_DEGREE,
    ensures
        r as int == odd_product_prefix(n as int, k as int, n as int),
        -pow(39, n as nat) <= r as int <= pow(39, n as nat),
{
    let mut acc: i128 = 1;
    let mut c: usize = 0;
    proof {
        vstd::arithmetic::power::lemma_pow0(39);
    }
    while c < n
        invariant
            c <= n <= 20,
            k <= n,
            acc as int == odd_product_prefix(n as int, k as int, c as int),
            -pow(39, c as nat) <= acc as int <= pow(39, c as nat),
        decreases n - c,
    {
        let f: i128 = (n as i128) + (k as i128) - 1 - 2 * (c as i128);
        proof {
            let p = pow(39, c as nat);
            vstd::arithmetic::power::lemma_pow_positive(39, c as nat);
            assert(pow(39, (c + 1) as nat) == 39 * p) by {
                vstd::arithmetic::power::lemma_pow_adds(39, c as nat, 1);
                vstd::arithmetic::power::lemma_pow1(39);
                vstd::arithmetic::mul::lemma_mul_is_commutative(p, 39);
            }
            assert(-39 * p <= acc as int * f as int <= 39 * p) by (nonlinear_arith)
                requires
                    -p <= acc as int <= p,
                    -39 <= f as int <= 39,
                    p >= 1,
            ;
            vstd::arithmetic::power::lemma_pow_increases(39, (c + 1) as nat, 20);
            lemma_pow39_20();
            assert(odd_product_prefix(n as int, k as int, c as int + 1)
                == odd_product_prefix(n as int, k as int, c as int) * (n + k + 1 - 2 * (c as int + 1)));
        }
        acc = acc * f;
        c = c + 1;
    }
    proof {
        vstd::arithmetic::power::lemma_pow_increases(39, n as nat, 20);
    }
    acc
}

/// The exact rational coefficient of `x^k` in the unnormalized `n`-th basis
/// polynomial, as the pair (numerator, denominator) with denominator `n!`.
fn nkth(n: usize, k: usize) -> (r: (i128, u64))
    requires
        k <= n <= MAX_DEGREE,
    ensures
        r.0 as int == legendre_num(n as int, k as int),
        r.1 as int == factorial(n as int),
{
    let b = binomial_exec(n, k);
    let p = odd_product_exec(n, k);
    let den = factorial_exec(n);
    proof {
        lemma_binom_nonneg(n as int, k as int);
        lemma_binom_le_pow2(n as int, k as int);
        vstd::arithmetic::power2::lemma2_to64();
        assert(pow2(n as nat) <= pow2(20)) by {
            if (n as nat) < 20 {
                vstd::arithmetic::power2::lemma_pow2_strictly_increases(n as nat, 20);
            }
        }
        lemma_pow39_20();
        vstd::arithmetic::power::lemma_pow_increases(39, n as nat, 20);
        vstd::arithmetic::power::lemma_pow_positive(39, n as nat);
        let bb = binom(n as int, k as int);
        let pp = odd_product_prefix(n as int, k as int, n as int);
        assert(-(1048576 * 66266211231824447117620880943201)
            <= bb * pp <= 1048576 * 66266211231824447117620880943201) by (nonlinear_arith)
            requires
                0 <= bb <= 1048576,
                -66266211231824447117620880943201 <= pp <= 66266211231824447117620880943201,
        ;
    }
    ((b as i128) * p, den)
}

/// The `n`-th orthonormal Legendre basis polynomial, with exact rational
/// terms ordered by ascending exponent.
fn nth(n: usize) -> (p: Polynomial)
    requires
        n <= MAX_DEGREE,
    ensures
        poly_is_legendre(p, n as int),
{
    let mut terms: Vec<Monomial> = Vec::new();
    let mut k: usize = 0;
    while k < n + 1
        invariant
            k <= n + 1,
            n <= MAX_DEGREE,
            terms@.len() == k as int,
            forall|q: int| 0 <= q < k as int ==> monomial_is(#[trigger] terms@[q], n as int, q),
        decreases n + 1 - k,
    {
        let (num, den) = nkth(n, k);
        terms.push(Monomial { coeff_num: num, coeff_den: den, exponent: k });
        k = k + 1;
    }
    Polynomial { terms, norm2_num: 2 * (n as u64) + 1, norm2_den: 2 }
}

impl LegendreBasis {
    /// Builds the orthonormal Legendre family up to `degree`: one polynomial
    /// per degree, each with its exact rational terms and normalization.
    pub fn new(degree: usize) -> (r: LegendreBasis)
        requires
            degree <= MAX_DEGREE,
        ensures
            r.degree == degree,
            basis_is_legendre(r),
    {
        let mut basis: Vec<Polynomial> = Vec::new();
        let mut n: usize = 0;
        while n < degree + 1
            invariant
                n <= degree + 1,
                degree <= MAX_DEGREE,
                basis@.len() == n as int,
                forall|q: int| 0 <= q < n as int ==> poly_is_legendre(#[trigger] basis@[q], q),
            decreases degree + 1 - n,
        {
            basis.push(nth(n));
            n = n + 1;
        }
        LegendreBasis { degree, basis }
    }
}

} // verus!
