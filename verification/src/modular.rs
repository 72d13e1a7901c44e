//! Integers modulo a number, and when that number is prime.

use vstd::prelude::*;
use vstd::arithmetic::div_mod::{
    lemma_add_mod_noop, lemma_fundamental_div_mod, lemma_mod_multiples_basic,
    lemma_mod_multiples_vanish, lemma_mul_mod_noop, lemma_mul_mod_noop_right, lemma_small_mod,
    lemma_sub_mod_noop,
};
use vstd::arithmetic::mul::lemma_mul_is_commutative;
use vstd::arithmetic::power::{
    lemma1_pow, lemma_pow1, lemma_pow_adds, lemma_pow_mod_noop, lemma_pow_multiplies, pow,
};
use vstd::arithmetic::power2::{lemma_pow2_unfold, pow2};
use vstd::set_lib::{lemma_int_range, lemma_len_subset, set_int_range};
use crate::binary::lemma_pow2_zero;

verus! {

/// Whether `p` is a prime number.
pub open spec fn is_prime(p: int) -> bool {
    &&& p > 1
    &&& forall|d: int| 1 < d < p ==> #[trigger] (p % d) != 0
}

/// Factors can be replaced by ones with the same remainders.
pub proof fn lemma_mul_congruent(a: int, b: int, c: int, d: int, m: int)
    requires
        m > 0,
        a % m == b % m,
        c % m == d % m,
    ensures
        (a * c) % m == (b * d) % m,
{
    lemma_mul_mod_noop(a, c, m);
    lemma_mul_mod_noop(b, d, m);
}

/// A divisor of a divisor is a divisor.
proof fn lemma_divides_transitive(x: int, p: int, d: int)
    requires
        p > 0,
        d > 0,
        x % p == 0,
        p % d == 0,
    ensures
        x % d == 0,
{
    let q = x / p;
    let e = p / d;
    lemma_fundamental_div_mod(x, p);
    lemma_fundamental_div_mod(p, d);
    assert(x == (e * q) * d) by (nonlinear_arith)
        requires
            x == p * q,
            p == d * e,
    ;
    lemma_mod_multiples_basic(e * q, d);
}

/// A power of minus one with an odd exponent is minus one.
proof fn lemma_minus_one_to_odd(n: nat)
    ensures
        pow(-1, 2 * n + 1) == -1,
{
    lemma_pow_adds(-1, 2 * n, 1);
    lemma_pow_multiplies(-1, 2, n);
    lemma_pow_adds(-1, 1, 1);
    lemma_pow1(-1);
    lemma1_pow(n);
}

/// Where `b` raised to half of `2^k` is minus one modulo `d`, no power of `b` with a positive
/// exponent below `2^k` is one.
proof fn lemma_no_smaller_order(b: int, k: nat, d: int, m: nat)
    requires
        k > 0,
        d > 2,
        (pow(b, pow2((k - 1) as nat)) + 1) % d == 0,
        0 < m < pow2(k),
    ensures
        pow(b, m) % d != 1,
    decreases k,
{
    let half = pow2((k - 1) as nat);
    lemma_pow2_unfold(k);
    lemma_pow2_zero();
    if m % 2 == 0 {
        let n = m / 2;
        lemma_pow1(b);
        lemma_pow_adds(b, 1, 1);
        lemma_pow_multiplies(b, 2, n);
        lemma_pow2_unfold((k - 1) as nat);
        lemma_pow_multiplies(b, 2, pow2((k - 2) as nat));
        lemma_no_smaller_order(b * b, (k - 1) as nat, d, n);
    } else if pow(b, m) % d == 1 {
        let c = pow(b, half);
        // 1 == (b^m)^half == (b^half)^m == (-1)^m == -1
        lemma_pow_multiplies(b, m, half);
        lemma_pow_multiplies(b, half, m);
        lemma_mul_is_commutative(m as int, half as int);
        lemma_pow_mod_noop(pow(b, m), half, d);
        lemma1_pow(half);
        lemma_small_mod(1, d as nat);
        assert(c % d == (-1) % d) by {
            lemma_sub_mod_noop(c + 1, 1, d);
            lemma_sub_mod_noop(0, 1, d);
        }
        lemma_pow_mod_noop(c, m, d);
        lemma_pow_mod_noop(-1, m, d);
        lemma_minus_one_to_odd(m / 2);
        assert(m == 2 * (m / 2) + 1);
        assert((-1) % d == 1);
        lemma_mod_multiples_vanish(1, -1, d);
        lemma_small_mod((d - 1) as nat, d as nat);
        assert(false);
    }
}

/// Where `b` raised to half of `2^k` is minus one modulo `d`, the first `2^k` powers of `b` have
/// different remainders.
proof fn lemma_powers_are_distinct(b: int, k: nat, d: int, i: nat, j: nat)
    requires
        k > 0,
        d > 2,
        (pow(b, pow2((k - 1) as nat)) + 1) % d == 0,
        i < j < pow2(k),
    ensures
        pow(b, i) % d != pow(b, j) % d,
{
    if pow(b, i) % d == pow(b, j) % d {
        let half = pow2((k - 1) as nat);
        let order = pow2(k);
        let c = pow(b, half);
        let rest = (order - i) as nat;
        let gap = (j - i) as nat;
        lemma_pow2_unfold(k);
        // b^order == c * c == 1
        lemma_pow_adds(b, half, half);
        assert(c % d == (-1) % d) by {
            lemma_sub_mod_noop(c + 1, 1, d);
            lemma_sub_mod_noop(0, 1, d);
        }
        lemma_mul_congruent(c, -1, c, -1, d);
        lemma_small_mod(1, d as nat);
        assert(pow(b, order) % d == 1);
        // 1 == b^rest * b^i == b^rest * b^j == b^order * b^gap == b^gap
        lemma_pow_adds(b, rest, i);
        lemma_pow_adds(b, rest, j);
        lemma_pow_adds(b, order, gap);
        assert(rest + i == order);
        assert(rest + j == order + gap);
        lemma_mul_congruent(pow(b, rest), pow(b, rest), pow(b, i), pow(b, j), d);
        lemma_mul_congruent(pow(b, order), 1, pow(b, gap), pow(b, gap), d);
        lemma_no_smaller_order(b, k, d, gap);
    }
}

/// Where `b` raised to half of `2^k` is minus one modulo an odd number, no divisor of that number
/// but one is below `2^k`.
proof fn lemma_divisors_are_large(p: int, b: int, k: nat, d: int)
    requires
        k > 0,
        p > 2,
        p % 2 == 1,
        pow(b, pow2((k - 1) as nat)) % p == p - 1,
        d > 1,
        p % d == 0,
    ensures
        d >= pow2(k),
{
    let c = pow(b, pow2((k - 1) as nat));
    assert((c + 1) % p == 0) by {
        lemma_add_mod_noop(c, 1, p);
        lemma_small_mod(1, p as nat);
        lemma_mod_multiples_basic(1, p);
    }
    lemma_divides_transitive(c + 1, p, d);
    let residues = Seq::new(pow2(k), |i: int| pow(b, i as nat) % d);
    assert forall|i: int, j: int|
        0 <= i < residues.len() && 0 <= j < residues.len() && i != j implies residues[i]
        != residues[j] by {
        if i < j {
            lemma_powers_are_distinct(b, k, d, i as nat, j as nat);
        } else {
            lemma_powers_are_distinct(b, k, d, j as nat, i as nat);
        }
    }
    residues.unique_seq_to_set();
    lemma_int_range(0, d);
    assert(residues.to_set().subset_of(set_int_range(0, d)));
    lemma_len_subset(residues.to_set(), set_int_range(0, d));
}

/// An odd number below `4^k` is prime if some `b` raised to half of `2^k` is minus one modulo it.
pub proof fn lemma_prime_by_square_roots(p: int, b: int, k: nat)
    requires
        k > 0,
        p > 2,
        p % 2 == 1,
        pow(b, pow2((k - 1) as nat)) % p == p - 1,
        p < pow2(k) * pow2(k),
    ensures
        is_prime(p),
{
    assert forall|d: int| 1 < d < p implies #[trigger] (p % d) != 0 by {
        if p % d == 0 {
            let e = p / d;
            lemma_fundamental_div_mod(p, d);
            assert(1 < e) by (nonlinear_arith)
                requires
                    p == d * e,
                    1 < d < p,
            ;
            assert(p % e == 0) by {
                lemma_mod_multiples_basic(d, e);
            }
            lemma_divisors_are_large(p, b, k, d);
            lemma_divisors_are_large(p, b, k, e);
            assert(p >= pow2(k) * pow2(k)) by (nonlinear_arith)
                requires
                    p == d * e,
                    d >= pow2(k),
                    e >= pow2(k),
            ;
        }
    }
}

/// Modulo a prime, every positive number below it has an inverse.
pub proof fn lemma_inverse_exists(p: int, a: int) -> (b: int)
    requires
        is_prime(p),
        0 < a < p,
    ensures
        0 <= b < p,
        (a * b) % p == 1,
    decreases a,
{
    lemma_small_mod(1, p as nat);
    if a == 1 {
        1
    } else {
        // p == q * a + r with 0 < r < a, so a * (-q * c) == r * c == 1 for the inverse c of r.
        let q = p / a;
        let r = p % a;
        lemma_fundamental_div_mod(p, a);
        let c = lemma_inverse_exists(p, r);
        let b = (-q * c) % p;
        assert(a * (-q * c) == p * (-c) + r * c) by (nonlinear_arith)
            requires
                p == a * q + r,
        ;
        lemma_mod_multiples_vanish(-c, r * c, p);
        lemma_mul_mod_noop_right(a, -q * c, p);
        b
    }
}

} // verus!
