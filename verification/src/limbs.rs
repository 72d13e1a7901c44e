//! 256-bit integers as four machine words, and Montgomery multiplication modulo the STARK prime.

use vstd::prelude::*;
use vstd::arithmetic::div_mod::lemma_mod_multiples_vanish;
use vstd::arithmetic::mul::{
    lemma_mul_inequality, lemma_mul_is_commutative, lemma_mul_is_distributive_add_other_way,
    lemma_mul_upper_bound,
};
use crate::stark252_prime::prime;

verus! {

/// A 256-bit integer, least significant word first.
#[derive(Clone, Copy, Debug, PartialEq, Eq, Structural)]
pub struct Limbs {
    /// Bits 0 to 63.
    pub l0: u64,
    /// Bits 64 to 127.
    pub l1: u64,
    /// Bits 128 to 191.
    pub l2: u64,
    /// Bits 192 to 255.
    pub l3: u64,
}

/// `2^256`, the radix of the Montgomery representation.
pub open spec fn radix() -> int {
    0x10000000000000000000000000000000000000000000000000000000000000000int
}

/// The top word of the prime; its other words are 0, 0 and 1.
pub const PRIME_TOP: u64 = 0x800000000000011;

impl Limbs {
    /// The integer that the words represent.
    pub open spec fn value(self) -> int {
        self.l0 + self.l1 * 0x10000000000000000int + self.l2
            * 0x100000000000000000000000000000000int + self.l3
            * 0x1000000000000000000000000000000000000000000000000int
    }

    /// The words of an integer.
    pub open spec fn of(n: int) -> Limbs {
        Limbs {
            l0: (n % 0x10000000000000000int) as u64,
            l1: (n / 0x10000000000000000int % 0x10000000000000000int) as u64,
            l2: (n / 0x100000000000000000000000000000000int % 0x10000000000000000int) as u64,
            l3: (n / 0x1000000000000000000000000000000000000000000000000int
                % 0x10000000000000000int) as u64,
        }
    }
}

/// The words of an integer represent it, where it has no more than 256 bits.
pub proof fn lemma_limbs_of(n: int)
    requires
        0 <= n < radix(),
    ensures
        Limbs::of(n).value() == n,
{
}

/// Words that represent the same integer are the same.
pub proof fn lemma_limbs_unique(x: Limbs, y: Limbs)
    requires
        x.value() == y.value(),
    ensures
        x == y,
{
    lemma_limbs_below(x, y);
    lemma_limbs_below(y, x);
}

/// The first word in which two integers differ, from the top, decides which is smaller.
proof fn lemma_limbs_below(x: Limbs, y: Limbs)
    ensures
        x.l3 < y.l3 ==> x.value() < y.value(),
        x.l3 == y.l3 && x.l2 < y.l2 ==> x.value() < y.value(),
        x.l3 == y.l3 && x.l2 == y.l2 && x.l1 < y.l1 ==> x.value() < y.value(),
        x.l3 == y.l3 && x.l2 == y.l2 && x.l1 == y.l1 && x.l0 < y.l0 ==> x.value() < y.value(),
{
}

/// `acc + x * y + carry` as a low and a high word.
fn multiply_accumulate(acc: u64, x: u64, y: u64, carry: u64) -> (r: (u64, u64))
    ensures
        r.0 + r.1 * 0x10000000000000000int == acc + x * y + carry,
{
    proof {
        lemma_mul_upper_bound(x as int, 0xffffffffffffffff, y as int, 0xffffffffffffffff);
        lemma_mul_inequality(0, x as int, y as int);
    }
    let sum: u128 = acc as u128 + (x as u128) * (y as u128) + carry as u128;
    let low: u64 = (sum % 0x10000000000000000) as u64;
    let high: u64 = (sum / 0x10000000000000000) as u64;
    (low, high)
}

/// `x + carry` as a low and a high word.
fn add_carry(x: u64, carry: u64) -> (r: (u64, u64))
    requires
        carry <= 1,
    ensures
        r.0 + r.1 * 0x10000000000000000int == x + carry,
        r.1 <= 1,
{
    if x == 0xffffffffffffffff && carry == 1 {
        (0, 1)
    } else {
        (x + carry, 0)
    }
}

/// A word times a 256-bit integer, word by word.
proof fn lemma_limbs_times_word(a: Limbs, b: int)
    ensures
        a.value() * b == a.l0 * b + (a.l1 * b) * 0x10000000000000000int + (a.l2 * b)
            * 0x100000000000000000000000000000000int + (a.l3 * b)
            * 0x1000000000000000000000000000000000000000000000000int,
{
    let x0 = a.l0 as int;
    let x1 = a.l1 * 0x10000000000000000int;
    let x2 = a.l2 * 0x100000000000000000000000000000000int;
    let x3 = a.l3 * 0x1000000000000000000000000000000000000000000000000int;
    lemma_mul_is_distributive_add_other_way(b, x0 + x1 + x2, x3);
    lemma_mul_is_distributive_add_other_way(b, x0 + x1, x2);
    lemma_mul_is_distributive_add_other_way(b, x0, x1);
    assert(x1 * b == (a.l1 * b) * 0x10000000000000000int) by (nonlinear_arith)
        requires
            x1 == a.l1 * 0x10000000000000000int,
    ;
    assert(x2 * b == (a.l2 * b) * 0x100000000000000000000000000000000int) by (nonlinear_arith)
        requires
            x2 == a.l2 * 0x100000000000000000000000000000000int,
    ;
    assert(x3 * b == (a.l3 * b) * 0x1000000000000000000000000000000000000000000000000int)
        by (nonlinear_arith)
        requires
            x3 == a.l3 * 0x1000000000000000000000000000000000000000000000000int,
    ;
}

/// One round of Montgomery multiplication: adds `a * b` to `t`, then the multiple `m` of the prime
/// that clears the low word, and drops that word.
fn montgomery_round(t: Limbs, a: Limbs, b: u64) -> (r: (Limbs, u64))
    requires
        t.value() < 2 * prime(),
        a.value() < prime(),
    ensures
        r.0.value() < 2 * prime(),
        r.0.value() * 0x10000000000000000int == t.value() + a.value() * b + r.1 * prime(),
{
    let (s0, c0) = multiply_accumulate(t.l0, a.l0, b, 0);
    let (s1, c1) = multiply_accumulate(t.l1, a.l1, b, c0);
    let (s2, c2) = multiply_accumulate(t.l2, a.l2, b, c1);
    let (s3, s4) = multiply_accumulate(t.l3, a.l3, b, c2);
    // The prime is one modulo a word, so the multiple is the negated low word.
    let m: u64 = if s0 == 0 {
        0
    } else {
        0xffffffffffffffff - s0 + 1
    };
    let carry: u64 = if s0 == 0 {
        0
    } else {
        1
    };
    let (r0, d0) = add_carry(s1, carry);
    let (r1, d1) = add_carry(s2, d0);
    let (r2, d2) = multiply_accumulate(s3, m, PRIME_TOP, d1);
    proof {
        lemma_limbs_times_word(a, b as int);
        assert(m * prime() == m
            * 0x800000000000011000000000000000000000000000000000000000000000001int);
        assert(m * PRIME_TOP == m * 0x800000000000011int);
        lemma_mul_upper_bound(
            a.value(),
            prime() - 1,
            b as int,
            0xffffffffffffffff,
        );
    }
    let r3: u64 = d2 + s4;
    (Limbs { l0: r0, l1: r1, l2: r2, l3: r3 }, m)
}

/// The remainder modulo the prime of an integer below twice the prime.
fn reduce_once(x: Limbs) -> (r: Limbs)
    requires
        x.value() < 2 * prime(),
    ensures
        r.value() < prime(),
        r.value() == x.value() || r.value() == x.value() - prime(),
{
    if x.l3 < PRIME_TOP || (x.l3 == PRIME_TOP && x.l2 == 0 && x.l1 == 0 && x.l0 == 0) {
        x
    } else {
        let top: u64 = x.l3 - PRIME_TOP;
        if x.l0 > 0 {
            Limbs { l0: x.l0 - 1, l1: x.l1, l2: x.l2, l3: top }
        } else if x.l1 > 0 {
            Limbs { l0: 0xffffffffffffffff, l1: x.l1 - 1, l2: x.l2, l3: top }
        } else if x.l2 > 0 {
            Limbs { l0: 0xffffffffffffffff, l1: 0xffffffffffffffff, l2: x.l2 - 1, l3: top }
        } else {
            Limbs {
                l0: 0xffffffffffffffff,
                l1: 0xffffffffffffffff,
                l2: 0xffffffffffffffff,
                l3: top - 1,
            }
        }
    }
}

/// Montgomery multiplication: `a * b / radix` modulo the prime.
pub fn montgomery_multiply(a: Limbs, b: Limbs) -> (r: Limbs)
    requires
        a.value() < prime(),
    ensures
        r.value() < prime(),
        (r.value() * radix()) % prime() == (a.value() * b.value()) % prime(),
{
    let zero: Limbs = Limbs { l0: 0, l1: 0, l2: 0, l3: 0 };
    let (t1, m0) = montgomery_round(zero, a, b.l0);
    let (t2, m1) = montgomery_round(t1, a, b.l1);
    let (t3, m2) = montgomery_round(t2, a, b.l2);
    let (t4, m3) = montgomery_round(t3, a, b.l3);
    let r: Limbs = reduce_once(t4);
    proof {
        let p = 0x800000000000011000000000000000000000000000000000000000000000001int;
        let m = Limbs { l0: m0, l1: m1, l2: m2, l3: m3 };
        lemma_limbs_times_word(b, a.value());
        lemma_mul_is_commutative(b.l0 as int, a.value());
        lemma_mul_is_commutative(b.l1 as int, a.value());
        lemma_mul_is_commutative(b.l2 as int, a.value());
        lemma_mul_is_commutative(b.l3 as int, a.value());
        lemma_mul_is_commutative(b.value(), a.value());
        lemma_limbs_times_word(m, p);
        assert(prime() == p);
        assert(t4.value() * radix() == t4.value()
            * 0x10000000000000000000000000000000000000000000000000000000000000000int);
        assert(t4.value() * radix() == a.value() * b.value() + m.value() * p);
        if r.value() == t4.value() {
            lemma_mod_multiples_vanish(m.value(), a.value() * b.value(), p);
            lemma_mul_is_commutative(p, m.value());
        } else {
            assert(r.value() * radix() == r.value()
                * 0x10000000000000000000000000000000000000000000000000000000000000000int);
            let k = m.value() - radix();
            assert(k * p == m.value() * p - radix() * p);
            assert(r.value() * radix() == a.value() * b.value() + k * p);
            lemma_mod_multiples_vanish(k, a.value() * b.value(), p);
            lemma_mul_is_commutative(p, k);
        }
    }
    r
}

} // verus!
