//! Binomial coefficients, as the rational derivative formula uses them.

use vstd::arithmetic::power2::{lemma2_to64, lemma_pow2_strictly_increases, lemma_pow2_unfold, lemma_pow2_pos, pow2};
use vstd::prelude::*;

verus! {

/// The binomial coefficient `C(n, k)` by Pascal's rule; zero when `k > n`.
pub open spec fn binom(n: nat, k: nat) -> nat
    decreases n,
{
    if k == 0 {
        1
    } else if n == 0 {
        0
    } else {
        binom((n - 1) as nat, (k - 1) as nat) + binom((n - 1) as nat, k)
    }
}

/// `C(n, k) == 0` whenever `k > n`.
pub proof fn lemma_binom_zero_above(n: nat, k: nat)
    requires
        k > n,
    ensures
        binom(n, k) == 0,
    decreases n,
{
    if n > 0 {
        lemma_binom_zero_above((n - 1) as nat, (k - 1) as nat);
        lemma_binom_zero_above((n - 1) as nat, k);
    }
}

/// The step of the multiplicative formula:
/// `C(n, k + 1) * (k + 1) == C(n, k) * (n - k)` for `k <= n`.
pub proof fn lemma_binom_step(n: nat, k: nat)
    requires
        k <= n,
    ensures
        binom(n, k + 1) * (k + 1) == binom(n, k) * (n - k),
    decreases n,
{
    if n == 0 {
        assert(binom(n, k + 1) == 0);
    } else if k == n {
        lemma_binom_zero_above(n, k + 1);
        assert(binom(n, k + 1) * (k + 1) == 0);
        assert(binom(n, k) * (n - k) == 0);
    } else {
        let m = (n - 1) as nat;
        lemma_binom_step(m, k);
        if k == 0 {
            assert(binom(n, 1) == binom(m, 0) + binom(m, 1));
            assert(binom(n, 1) * 1 == binom(n, 0) * n) by (nonlinear_arith)
                requires
                    binom(m, 1) * 1 == binom(m, 0) * (m - 0),
                    binom(n, 1) == binom(m, 0) + binom(m, 1),
                    binom(m, 0) == 1,
                    binom(n, 0) == 1,
                    n == m + 1,
            ;
        } else {
            lemma_binom_step(m, (k - 1) as nat);
            let a = binom(m, (k - 1) as nat);
            let b = binom(m, k);
            let c = binom(m, k + 1);
            assert(binom(n, k) == a + b);
            assert(binom(n, k + 1) == b + c);
            assert(binom(n, k + 1) * (k + 1) == binom(n, k) * (n - k)) by (nonlinear_arith)
                requires
                    c * (k + 1) == b * (m - k),
                    b * k == a * (m - (k - 1)),
                    binom(n, k) == a + b,
                    binom(n, k + 1) == b + c,
                    n == m + 1,
            ;
        }
    }
}

/// Whether every intermediate product of the multiplicative formula for
/// `C(n, k)` fits in a `u64`.
pub open spec fn binomial_fits(n: nat, k: nat) -> bool {
    forall|i: nat| i < k && i < n ==> #[trigger] binom(n, i + 1) * (i + 1) <= u64::MAX
}

/// `C(n, k) <= 2^n`.
pub proof fn lemma_binom_bound(n: nat, k: nat)
    ensures
        binom(n, k) <= pow2(n),
    decreases n,
{
    if k == 0 {
        lemma_pow2_pos(n);
    } else if n == 0 {
    } else {
        lemma_binom_bound((n - 1) as nat, (k - 1) as nat);
        lemma_binom_bound((n - 1) as nat, k);
        lemma_pow2_unfold(n);
    }
}

/// Every `C(n, k)` with `n <= 32` is computed without overflow.
pub proof fn lemma_binomial_fits_small(n: nat, k: nat)
    requires
        n <= 32,
    ensures
        binomial_fits(n, k),
{
    assert forall|i: nat| i < k && i < n implies #[trigger] binom(n, i + 1) * (i + 1) <= u64::MAX by {
        lemma_binom_bound(n, i);
        lemma_binom_step(n, i);
        if n < 32 {
            lemma_pow2_strictly_increases(n, 32);
        }
        assert(pow2(32) == 0x1_0000_0000) by {
            lemma2_to64();
        }
        assert(binom(n, i) * (n - i) <= 0x1_0000_0000 * 32) by (nonlinear_arith)
            requires
                binom(n, i) <= 0x1_0000_0000,
                0 <= n - i <= 32,
        ;
    }
}

/// The binomial coefficient `C(n, k)`, computed by the multiplicative
/// formula `C(n, i + 1) = C(n, i) * (n - i) / (i + 1)`; zero when `k > n`.
pub fn binomial(n: usize, k: usize) -> (c: u64)
    requires
        binomial_fits(n as nat, k as nat),
    ensures
        c == binom(n as nat, k as nat),
{
    if k > n {
        proof {
            lemma_binom_zero_above(n as nat, k as nat);
        }
        return 0;
    }
    let mut result: u64 = 1;
    let mut i: usize = 0;
    while i < k
        invariant
            i <= k <= n,
            result == binom(n as nat, i as nat),
            binomial_fits(n as nat, k as nat),
        decreases k - i,
    {
        proof {
            lemma_binom_step(n as nat, i as nat);
            assert(binom(n as nat, (i + 1) as nat) * (i + 1) <= u64::MAX);
        }
        let factor = (n - i) as u64;
        let divisor = (i + 1) as u64;
        let product = result * factor;
        proof {
            let next = binom(n as nat, (i + 1) as nat);
            assert(product == next * divisor);
            assert(product / divisor == next) by (nonlinear_arith)
                requires
                    product == next * divisor,
                    divisor > 0,
            ;
        }
        result = product / divisor;
        i = i + 1;
    }
    result
}

} // verus!
