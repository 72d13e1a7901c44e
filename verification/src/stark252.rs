//! The STARK field: integers modulo `2^251 + 17 * 2^192 + 1`.
//!
//! An element is held in Montgomery form, that is multiplied by `2^256`, which is also what it
//! serialises to.

use vstd::prelude::*;
use vstd::arithmetic::div_mod::{
    lemma_add_mod_noop, lemma_mod_twice, lemma_mul_mod_noop_left, lemma_mul_mod_noop_right,
    lemma_small_mod,
};
use vstd::arithmetic::mul::{
    lemma_mul_is_associative, lemma_mul_is_commutative, lemma_mul_is_distributive_add,
};
use vstd::arithmetic::power::pow;
use vstd::arithmetic::power2::pow2;
use crate::field::{power, IsFFTField, IsField};
use crate::limbs::{lemma_limbs_of, lemma_limbs_unique, montgomery_multiply, radix, Limbs};
use crate::modular::{lemma_inverse_exists, lemma_mul_congruent};
use crate::stark252_prime::{lemma_prime, lemma_root_to_half_order, prime, root};

verus! {

/// An element of the STARK field.
#[derive(Clone, Copy, Debug, PartialEq, Eq, Structural)]
pub struct Stark252 {
    montgomery: Limbs,
}

/// The inverse of the radix modulo the prime.
pub open spec fn radix_inverse() -> int {
    0x40000000000001100000000000012100000000000000000000000000000000int
}

/// The `len` low bytes of an integer, most significant first.
pub open spec fn big_endian(n: int, len: nat) -> Seq<u8>
    decreases len,
{
    if len == 0 {
        Seq::empty()
    } else {
        big_endian(n / 256, (len - 1) as nat).push((n % 256) as u8)
    }
}

impl Stark252 {
    /// The integer that the words hold, which is the element's value times the radix.
    pub closed spec fn representative(self) -> int {
        self.montgomery.value()
    }

    /// The element as an integer below the prime.
    pub open spec fn value(self) -> int {
        (self.representative() * radix_inverse()) % prime()
    }

    /// The element that an integer stands for.
    pub closed spec fn from_value(v: int) -> Stark252 {
        Stark252 { montgomery: Limbs::of((v * radix()) % prime()) }
    }

    /// An integer stands for the element whose value is its remainder.
    pub proof fn lemma_from_value(v: int)
        ensures
            Stark252::from_value(v).is_element(),
            Stark252::from_value(v).value() == v % prime(),
            Stark252::from_value(v).representative() == (v * radix()) % prime(),
    {
        let n = (v * radix()) % prime();
        lemma_limbs_of(n);
        lemma_mul_mod_noop_left(v * radix(), radix_inverse(), prime());
        lemma_mul_is_associative(v, radix(), radix_inverse());
        lemma_mul_mod_noop_right(v, radix() * radix_inverse(), prime());
        assert((radix() * radix_inverse()) % prime() == 1);
    }

    /// Integers with the same remainder stand for the same element.
    pub proof fn lemma_congruent(v: int, w: int)
        requires
            v % prime() == w % prime(),
        ensures
            Stark252::from_value(v) == Stark252::from_value(w),
    {
        lemma_mul_congruent(v, w, radix(), radix(), prime());
    }

    /// An element is determined by its value.
    pub proof fn lemma_value(self)
        requires
            self.is_element(),
        ensures
            0 <= self.value() < prime(),
            Stark252::from_value(self.value()) == self,
            self.representative() == (self.value() * radix()) % prime(),
    {
        let n = self.representative();
        lemma_mul_mod_noop_left(n * radix_inverse(), radix(), prime());
        lemma_mul_is_associative(n, radix_inverse(), radix());
        lemma_mul_mod_noop_right(n, radix_inverse() * radix(), prime());
        assert((radix_inverse() * radix()) % prime() == 1);
        lemma_small_mod(n as nat, prime() as nat);
        lemma_limbs_of(n);
        lemma_limbs_unique(Limbs::of(n), self.montgomery);
    }

    /// The element that a 256-bit integer below the prime stands for.
    fn from_limbs(x: Limbs) -> (r: Stark252)
        requires
            x.value() < prime(),
        ensures
            r.is_element(),
            r == Stark252::from_value(x.value()),
    {
        // The square of the radix.
        let square: Limbs = Limbs {
            l0: 0xfffffd737e000401,
            l1: 0x1330fffff,
            l2: 0xffffffffff6f8000,
            l3: 0x7ffd4ab5e008810,
        };
        let r: Limbs = montgomery_multiply(x, square);
        proof {
            let v = x.value();
            assert(square.value() % prime() == (radix() * radix()) % prime());
            lemma_mul_congruent(v, v, square.value(), radix() * radix(), prime());
            lemma_mul_is_associative(v, radix(), radix());
            lemma_cancel_radix(r.value(), v * radix());
            lemma_small_mod(r.value() as nat, prime() as nat);
            lemma_limbs_of(r.value());
            lemma_limbs_unique(Limbs::of(r.value()), r);
        }
        Stark252 { montgomery: r }
    }
}

/// The radix can be cancelled.
proof fn lemma_cancel_radix(x: int, y: int)
    requires
        (x * radix()) % prime() == (y * radix()) % prime(),
    ensures
        x % prime() == y % prime(),
{
    let inverse = radix_inverse();
    assert((radix() * inverse) % prime() == 1);
    lemma_mul_congruent(x * radix(), y * radix(), inverse, inverse, prime());
    lemma_mul_is_associative(x, radix(), inverse);
    lemma_mul_is_associative(y, radix(), inverse);
    lemma_mul_mod_noop_right(x, radix() * inverse, prime());
    lemma_mul_mod_noop_right(y, radix() * inverse, prime());
}

/// The bytes of an integer end with those of its low word.
proof fn lemma_big_endian_word(high: int, word: u64, len: nat)
    requires
        0 <= high,
    ensures
        big_endian(high * 0x10000000000000000int + word, len + 8) == big_endian(high, len)
            + big_endian(word as int, 8),
{
    let n0 = high * 0x10000000000000000int + word;
    let w1 = word as int / 256;
    let w2 = w1 / 256;
    let w3 = w2 / 256;
    let w4 = w3 / 256;
    let w5 = w4 / 256;
    let w6 = w5 / 256;
    let w7 = w6 / 256;
    assert(n0 / 256 == high * 0x100000000000000int + w1);
    assert((high * 0x100000000000000int + w1) / 256 == high * 0x1000000000000int + w2);
    assert((high * 0x1000000000000int + w2) / 256 == high * 0x10000000000int + w3);
    assert((high * 0x10000000000int + w3) / 256 == high * 0x100000000int + w4);
    assert((high * 0x100000000int + w4) / 256 == high * 0x1000000int + w5);
    assert((high * 0x1000000int + w5) / 256 == high * 0x10000int + w6);
    assert((high * 0x10000int + w6) / 256 == high * 0x100int + w7);
    assert(w7 / 256 == 0);
    assert((high * 0x100int + w7) / 256 == high);
    reveal_with_fuel(big_endian, 9);
    assert(big_endian(n0, len + 8) =~= big_endian(high, len) + big_endian(word as int, 8));
}

/// The eight bytes of a word.
proof fn lemma_bytes_of_word(word: u64)
    ensures
        big_endian(word as int, 8) == seq![
            (word / 0x100000000000000) as u8,
            (word / 0x1000000000000 % 256) as u8,
            (word / 0x10000000000 % 256) as u8,
            (word / 0x100000000 % 256) as u8,
            (word / 0x1000000 % 256) as u8,
            (word / 0x10000 % 256) as u8,
            (word / 0x100 % 256) as u8,
            (word % 256) as u8,
        ],
{
    let n = word as int;
    assert(n / 256 / 256 == n / 0x10000);
    assert(n / 0x10000 / 256 == n / 0x1000000);
    assert(n / 0x1000000 / 256 == n / 0x100000000);
    assert(n / 0x100000000 / 256 == n / 0x10000000000);
    assert(n / 0x10000000000 / 256 == n / 0x1000000000000);
    assert(n / 0x1000000000000 / 256 == n / 0x100000000000000);
    assert(n / 0x100000000000000 % 256 == n / 0x100000000000000);
    reveal_with_fuel(big_endian, 9);
}

/// Appends the eight bytes of a word, most significant first.
fn push_word(out: &mut Vec<u8>, word: u64)
    ensures
        final(out)@ == old(out)@ + big_endian(word as int, 8),
{
    out.push((word / 0x100000000000000) as u8);
    out.push((word / 0x1000000000000 % 256) as u8);
    out.push((word / 0x10000000000 % 256) as u8);
    out.push((word / 0x100000000 % 256) as u8);
    out.push((word / 0x1000000 % 256) as u8);
    out.push((word / 0x10000 % 256) as u8);
    out.push((word / 0x100 % 256) as u8);
    out.push((word % 256) as u8);
    proof {
        lemma_bytes_of_word(word);
        assert(out@ =~= old(out)@ + big_endian(word as int, 8));
    }
}

impl IsField for Stark252 {
    open spec fn is_element(self) -> bool {
        0 <= self.representative() < prime()
    }

    open spec fn spec_zero() -> Stark252 {
        Stark252::from_value(0)
    }

    open spec fn spec_one() -> Stark252 {
        Stark252::from_value(1)
    }

    open spec fn spec_add(self, other: Stark252) -> Stark252 {
        Stark252::from_value(self.value() + other.value())
    }

    open spec fn spec_neg(self) -> Stark252 {
        Stark252::from_value(-self.value())
    }

    open spec fn spec_mul(self, other: Stark252) -> Stark252 {
        Stark252::from_value(self.value() * other.value())
    }

    open spec fn spec_inv(self) -> Stark252 {
        Stark252::from_value(choose|v: int| #[trigger] (self.value() * v) % prime() == 1)
    }

    open spec fn spec_from_u64(value: u64) -> Stark252 {
        Stark252::from_value(value as int)
    }

    open spec fn spec_as_bytes(self) -> Seq<u8> {
        big_endian(self.representative(), 32)
    }

    open spec fn spec_byte_len() -> nat {
        32
    }

    proof fn lemma_constants() {
        Stark252::lemma_from_value(0);
        Stark252::lemma_from_value(1);
    }

    proof fn lemma_closed(a: Stark252, b: Stark252) {
        Stark252::lemma_from_value(a.value() + b.value());
        Stark252::lemma_from_value(-a.value());
        Stark252::lemma_from_value(a.value() * b.value());
    }

    proof fn lemma_addition(a: Stark252, b: Stark252, c: Stark252) {
        let (x, y, z) = (a.value(), b.value(), c.value());
        a.lemma_value();
        b.lemma_value();
        c.lemma_value();
        Stark252::lemma_from_value(x + y);
        Stark252::lemma_from_value(y + z);
        lemma_add_mod_noop(x + y, z, prime());
        lemma_add_mod_noop((x + y) % prime(), z, prime());
        lemma_add_mod_noop(x, y + z, prime());
        lemma_add_mod_noop(x, (y + z) % prime(), prime());
        lemma_mod_twice(x + y, prime());
        lemma_mod_twice(y + z, prime());
        Stark252::lemma_congruent((x + y) % prime() + z, x + (y + z) % prime());
        Stark252::lemma_from_value(0);
        Stark252::lemma_from_value(-x);
        lemma_add_mod_noop(x, -x, prime());
        lemma_add_mod_noop(x, (-x) % prime(), prime());
        lemma_mod_twice(-x, prime());
        Stark252::lemma_congruent(x + (-x) % prime(), 0);
    }

    proof fn lemma_multiplication(a: Stark252, b: Stark252, c: Stark252) {
        let (x, y, z) = (a.value(), b.value(), c.value());
        a.lemma_value();
        b.lemma_value();
        c.lemma_value();
        lemma_mul_is_commutative(x, y);
        Stark252::lemma_from_value(x * y);
        Stark252::lemma_from_value(y * z);
        Stark252::lemma_from_value(x * z);
        Stark252::lemma_from_value(y + z);
        Stark252::lemma_from_value(1);
        lemma_mul_is_associative(x, y, z);
        lemma_mul_mod_noop_left(x * y, z, prime());
        lemma_mul_mod_noop_right(x, y * z, prime());
        Stark252::lemma_congruent(((x * y) % prime()) * z, x * ((y * z) % prime()));
        lemma_mul_is_distributive_add(x, y, z);
        lemma_mul_mod_noop_right(x, y + z, prime());
        lemma_add_mod_noop(x * y, x * z, prime());
        Stark252::lemma_congruent(
            x * ((y + z) % prime()),
            (x * y) % prime() + (x * z) % prime(),
        );
    }

    proof fn lemma_inverse(a: Stark252) {
        a.lemma_value();
        let x = a.value();
        lemma_prime();
        let found = lemma_inverse_exists(prime(), x);
        assert((x * found) % prime() == 1);
        let v = choose|v: int| #[trigger] (x * v) % prime() == 1;
        assert((x * v) % prime() == 1);
        Stark252::lemma_from_value(v);
        lemma_mul_mod_noop_right(x, v, prime());
        Stark252::lemma_congruent(x * (v % prime()), 1);
    }

    proof fn lemma_from_u64(value: u64) {
        Stark252::lemma_from_value(value as int);
        if value > 0 {
            Stark252::lemma_from_value(value - 1);
            Stark252::lemma_from_value(1);
        }
    }

    proof fn lemma_as_bytes(a: Stark252) {
        reveal_with_fuel(big_endian, 33);
    }

    fn one() -> (r: Stark252) {
        Stark252::from_limbs(Limbs { l0: 1, l1: 0, l2: 0, l3: 0 })
    }

    fn from_u64(value: u64) -> (r: Stark252) {
        Stark252::from_limbs(Limbs { l0: value, l1: 0, l2: 0, l3: 0 })
    }

    fn mul(&self, other: &Stark252) -> (r: Stark252) {
        let r: Limbs = montgomery_multiply(self.montgomery, other.montgomery);
        proof {
            let (x, y) = (self.value(), other.value());
            self.lemma_value();
            other.lemma_value();
            lemma_mod_twice(x * radix(), prime());
            lemma_mod_twice(y * radix(), prime());
            lemma_mul_congruent(
                self.representative(),
                x * radix(),
                other.representative(),
                y * radix(),
                prime(),
            );
            assert((x * radix()) * (y * radix()) == ((x * y) * radix()) * radix())
                by (nonlinear_arith);
            lemma_cancel_radix(r.value(), (x * y) * radix());
            lemma_small_mod(r.value() as nat, prime() as nat);
            lemma_limbs_of(r.value());
            lemma_limbs_unique(Limbs::of(r.value()), r);
        }
        Stark252 { montgomery: r }
    }

    fn equals(&self, other: &Stark252) -> (r: bool) {
        self.montgomery == other.montgomery
    }

    fn as_bytes(&self) -> (r: Vec<u8>) {
        let mut out: Vec<u8> = Vec::new();
        push_word(&mut out, self.montgomery.l3);
        push_word(&mut out, self.montgomery.l2);
        push_word(&mut out, self.montgomery.l1);
        push_word(&mut out, self.montgomery.l0);
        proof {
            let x = self.montgomery;
            let top = x.l3 * 0x10000000000000000int + x.l2;
            lemma_big_endian_word(x.l3 as int, x.l2, 8);
            lemma_big_endian_word(top, x.l1, 16);
            lemma_big_endian_word(top * 0x10000000000000000int + x.l1, x.l0, 24);
        }
        out
    }
}

/// A power of the element that an integer stands for is what the power of the integer stands for.
proof fn lemma_power_of_value(v: int, exponent: nat)
    ensures
        power(Stark252::from_value(v), exponent) == Stark252::from_value(pow(v, exponent)),
    decreases exponent,
{
    reveal(pow);
    if exponent > 0 {
        let rest = pow(v, (exponent - 1) as nat);
        lemma_power_of_value(v, (exponent - 1) as nat);
        Stark252::lemma_from_value(v);
        Stark252::lemma_from_value(rest);
        lemma_mod_twice(v, prime());
        lemma_mod_twice(rest, prime());
        lemma_mul_congruent(v % prime(), v, rest % prime(), rest, prime());
        Stark252::lemma_congruent((v % prime()) * (rest % prime()), v * rest);
    }
}

impl IsFFTField for Stark252 {
    open spec fn spec_two_adicity() -> nat {
        192
    }

    open spec fn spec_two_adic_root() -> Stark252 {
        Stark252::from_value(root())
    }

    proof fn lemma_two_adic_root() {
        Stark252::lemma_from_value(root());
        Stark252::lemma_from_value(1);
        Stark252::lemma_from_value(-1);
        let minus_one = pow(root(), pow2(191));
        assert(minus_one % prime() == prime() - 1) by {
            lemma_root_to_half_order();
        }
        assert((-1int) % prime() == prime() - 1);
        Stark252::lemma_congruent(minus_one, -1);
        assert(power(Stark252::from_value(root()), pow2(191)) == Stark252::from_value(
            minus_one,
        )) by {
            lemma_power_of_value(root(), pow2(191));
        }
    }

    fn two_adicity() -> (r: u64) {
        192
    }

    fn two_adic_root() -> (r: Stark252) {
        Stark252::from_limbs(
            Limbs {
                l0: 0x6070024f42f8ef94,
                l1: 0xad187148e11a6161,
                l2: 0x3f0464519c8b0fa5,
                l3: 0x5282db87529cfa,
            },
        )
    }
}

} // verus!
