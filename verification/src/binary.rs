//! Powers of two among machine words.

use vstd::prelude::*;
use vstd::arithmetic::power2::{
    lemma2_to64, lemma_pow2_adds, lemma_pow2_pos, lemma_pow2_strictly_increases,
    lemma_pow2_unfold, pow2,
};

verus! {

/// `2^0 == 1`
pub proof fn lemma_pow2_zero()
    ensures
        pow2(0) == 1,
{
    lemma2_to64();
}

/// How often two divides `n`, for `n` other than zero.
pub open spec fn valuation(n: nat) -> nat
    decreases n,
{
    if n > 0 && n % 2 == 0 {
        valuation(n / 2) + 1
    } else {
        0
    }
}

/// The number of trailing zeros in the binary representation of `n`.
pub open spec fn spec_trailing_zeros(n: usize) -> nat {
    if n == 0 {
        usize::BITS as nat
    } else {
        valuation(n as nat)
    }
}

/// Whether `n` is a power of two.
pub open spec fn is_power_of_two(n: nat) -> bool {
    exists|k: nat| n == #[trigger] pow2(k)
}

/// Zero is not a power of two.
pub proof fn lemma_power_of_two_positive()
    ensures
        !is_power_of_two(0),
{
    assert forall|k: nat| 0 != #[trigger] pow2(k) by {
        lemma_pow2_pos(k);
    }
}

/// Two to its valuation is at most `n`, and equals it just where `n` is a power of two.
pub proof fn lemma_valuation(n: nat)
    requires
        n > 0,
    ensures
        pow2(valuation(n)) <= n,
        is_power_of_two(n) <==> n == pow2(valuation(n)),
    decreases n,
{
    lemma_pow2_zero();
    if n % 2 == 0 {
        lemma_valuation(n / 2);
        lemma_pow2_unfold(valuation(n));
        if is_power_of_two(n) {
            let k = choose|k: nat| n == #[trigger] pow2(k);
            assert(k > 0);
            lemma_pow2_unfold(k);
            assert(n / 2 == pow2((k - 1) as nat));
        }
    } else if is_power_of_two(n) {
        let k = choose|k: nat| n == #[trigger] pow2(k);
        if k > 0 {
            lemma_pow2_unfold(k);
        }
    }
}

/// A multiple of a power of two is a power of two just where the other factor is.
pub proof fn lemma_power_of_two_factor(n: nat, m: nat)
    requires
        is_power_of_two(n),
    ensures
        is_power_of_two(n * m) <==> is_power_of_two(m),
{
    let j = choose|j: nat| n == #[trigger] pow2(j);
    lemma_pow2_pos(j);
    if is_power_of_two(m) {
        let i = choose|i: nat| m == #[trigger] pow2(i);
        lemma_pow2_adds(j, i);
    }
    if is_power_of_two(n * m) {
        let k = choose|k: nat| n * m == #[trigger] pow2(k);
        lemma_power_of_two_positive();
        assert(n <= n * m) by (nonlinear_arith)
            requires
                n * m != 0,
        ;
        if k < j {
            lemma_pow2_strictly_increases(k, j);
        }
        let i = (k - j) as nat;
        lemma_pow2_adds(j, i);
        assert(m == pow2(i)) by (nonlinear_arith)
            requires
                n > 0,
                n * m == n * pow2(i),
        ;
    }
}

/// One is a power of two and zero is not; twice a positive number is one exactly where the number
/// is; no odd number but one is.
pub proof fn law_powers_of_two(n: nat)
    requires
        n > 0,
    ensures
        !is_power_of_two(0),
        is_power_of_two(1),
        is_power_of_two(2 * n) <==> is_power_of_two(n),
        !is_power_of_two(2 * n + 1),
        is_power_of_two(pow2(n)),
{
    lemma_power_of_two_positive();
    lemma_pow2_zero();
    assert(1 == pow2(0));
    lemma2_to64();
    assert(2 == pow2(1));
    assert(is_power_of_two(2));
    lemma_power_of_two_factor(2, n);
    lemma_valuation(2 * n + 1);
}

/// A machine word `2^k * odd` has `k` trailing zeros, and zero has as many as a word has bits.
pub proof fn law_trailing_zeros(n: usize, k: nat, odd: nat)
    requires
        odd % 2 == 1,
    ensures
        n == pow2(k) * odd ==> spec_trailing_zeros(n) == k,
        n == 0 ==> spec_trailing_zeros(n) == usize::BITS,
    decreases k,
{
    if n == pow2(k) * odd {
        lemma_pow2_zero();
        lemma_pow2_pos(k);
        assert(n > 0) by (nonlinear_arith)
            requires
                n == pow2(k) * odd,
                pow2(k) > 0,
                odd % 2 == 1,
        ;
        if k == 0 {
            assert(pow2(0) * odd == 1 * odd);
        } else {
            let half = pow2((k - 1) as nat);
            lemma_pow2_unfold(k);
            assert(n == 2 * (half * odd)) by (nonlinear_arith)
                requires
                    n == pow2(k) * odd,
                    pow2(k) == 2 * half,
            ;
            law_trailing_zeros((n / 2) as usize, (k - 1) as nat, odd);
        }
    }
}

/// The number of trailing zeros of a machine word is at most its width.
pub proof fn lemma_trailing_zeros_bound(n: usize)
    ensures
        spec_trailing_zeros(n) <= 64,
{
    if n > 0 {
        lemma_valuation(n as nat);
        lemma2_to64();
        if valuation(n as nat) > 64 {
            lemma_pow2_strictly_increases(64, valuation(n as nat));
        }
    }
}

/// The number of trailing zeros in the binary representation of `n`.
pub fn trailing_zeros(n: usize) -> (r: u32)
    ensures
        r == spec_trailing_zeros(n),
{
    if n == 0 {
        return usize::BITS;
    }
    proof {
        lemma_trailing_zeros_bound(n);
    }
    let mut zeros: u32 = 0;
    let mut rest: usize = n;
    while rest % 2 == 0
        invariant
            rest > 0,
            zeros + valuation(rest as nat) == valuation(n as nat),
            valuation(n as nat) <= 64,
        decreases rest,
    {
        rest = rest / 2;
        zeros = zeros + 1;
    }
    zeros
}

/// Whether `n` is a power of two.
pub fn check_power_of_two(n: usize) -> (r: bool)
    ensures
        r <==> is_power_of_two(n as nat),
{
    if n == 0 {
        proof {
            lemma_power_of_two_positive();
        }
        return false;
    }
    let mut rest: usize = n;
    while rest % 2 == 0
        invariant
            rest > 0,
            is_power_of_two(rest as nat) <==> is_power_of_two(n as nat),
        decreases rest,
    {
        proof {
            lemma_valuation(rest as nat);
            lemma_valuation((rest / 2) as nat);
            lemma_pow2_unfold(valuation(rest as nat));
        }
        rest = rest / 2;
    }
    proof {
        lemma_valuation(rest as nat);
        lemma_pow2_zero();
    }
    rest == 1
}

} // verus!
