//! Binomial coefficients and factorials: the integer combinatorics that the
//! basis construction and the multi-index space are specified against.

use vstd::prelude::*;
use vstd::arithmetic::power2::pow2;

verus! {

/// The binomial coefficient `C(n, k)`, by Pascal's rule; zero outside
/// `0 <= k <= n`.
pub open spec fn binom(n: int, k: int) -> int
    decreases n,
{
    if k < 0 || k > n {
        0
    } else if k == 0 {
        1
    } else {
        binom(n - 1, k - 1) + binom(n - 1, k)
    }
}

/// The factorial of `n`; one for `n <= 0`.
pub open spec fn factorial(n: int) -> int
    decreases n,
{
    if n <= 0 {
        1
    } else {
        n * factorial(n - 1)
    }
}

/// Binomial coefficients are never negative.
pub proof fn lemma_binom_nonneg(n: int, k: int)
    ensures
        binom(n, k) >= 0,
    decreases n,
{
    if k < 0 || k > n || k == 0 {
    } else {
        lemma_binom_nonneg(n - 1, k - 1);
        lemma_binom_nonneg(n - 1, k);
    }
}

/// `C(n, 1) == n` for `n >= 0`.
pub proof fn lemma_binom_one(n: int)
    requires
        0 <= n,
    ensures
        binom(n, 1) == n,
    decreases n,
{
    if n > 0 {
        lemma_binom_one(n - 1);
        assert(binom(n - 1, 0) == 1);
    }
}

/// Every entry of row `n` of Pascal's triangle is at most `2^n`.
pub proof fn lemma_binom_le_pow2(n: int, k: int)
    requires
        0 <= n,
    ensures
        binom(n, k) <= pow2(n as nat),
    decreases n,
{
    vstd::arithmetic::power2::lemma_pow2_pos(n as nat);
    if k < 0 || k > n || k == 0 {
    } else {
        lemma_binom_le_pow2(n - 1, k - 1);
        lemma_binom_le_pow2(n - 1, k);
        assert(pow2((n - 1) as nat) + pow2((n - 1) as nat) == pow2(n as nat)) by {
            vstd::arithmetic::power2::lemma_pow2_unfold(n as nat);
        }
    }
}

/// The factorial is positive and does not decrease with its argument.
pub proof fn lemma_factorial_monotone(a: int, b: int)
    requires
        a <= b,
    ensures
        1 <= factorial(a) <= factorial(b),
    decreases b,
{
    if b <= 0 {
    } else if a == b {
        lemma_factorial_monotone(a - 1, b - 1);
        assert(factorial(b) == b * factorial(b - 1));
        assert(b * factorial(b - 1) >= 1 * factorial(b - 1)) by {
            vstd::arithmetic::mul::lemma_mul_inequality(1, b, factorial(b - 1));
        }
    } else {
        lemma_factorial_monotone(a, b - 1);
        assert(factorial(b) == b * factorial(b - 1));
        assert(b * factorial(b - 1) >= 1 * factorial(b - 1)) by {
            vstd::arithmetic::mul::lemma_mul_inequality(1, b, factorial(b - 1));
        }
    }
}

/// `20!` written out; the largest factorial the engine ever materializes.
pub proof fn lemma_factorial_20()
    ensures
        factorial(20) == 2432902008176640000,
{
    assert(factorial(20) == 2432902008176640000) by {
        reveal_with_fuel(factorial, 21);
    }
}

/// Relies on `num::integer::binomial`: it returns the binomial coefficient
/// `C(n, k)` (zero for `k > n`), and its documentation states that no
/// intermediate overflow occurs for `n <= 34` at 32-bit width, `n <= 67` at
/// 64-bit width.
#[verifier::external_body]
pub(crate) fn binomial_exec(n: usize, k: usize) -> (r: usize)
    requires
        n <= 34,
    ensures
        r as int == binom(n as int, k as int),
{
    num::integer::binomial(n, k)
}

} // verus!
