//! What the STARK field is, stated over plain integers.

use vstd::prelude::*;
use vstd::arithmetic::div_mod::{lemma_div_denominator, lemma_fundamental_div_mod};
use vstd::arithmetic::power2::{lemma2_to64, lemma_pow2_adds, lemma_pow2_pos, pow2};
use crate::field::{IsFFTField, IsField};
use crate::limbs::{radix, Limbs};
use crate::stark252::{big_endian, Stark252};
use crate::stark252_prime::prime;

verus! {

/// The modulus is `2^251 + 17 * 2^192 + 1`, the radix of the Montgomery form is `2^256`, and four
/// words stand for the integer whose digits to the base `2^64` they are.
pub proof fn law_constants(x: Limbs)
    ensures
        prime() == pow2(251) + 17 * pow2(192) + 1,
        radix() == pow2(256),
        x.value() == x.l0 + x.l1 * pow2(64) + x.l2 * pow2(128) + x.l3 * pow2(192),
{
    lemma2_to64();
    lemma_pow2_adds(64, 64);
    lemma_pow2_adds(128, 64);
    lemma_pow2_adds(59, 5);
    lemma_pow2_adds(192, 59);
    lemma_pow2_adds(192, 64);
    assert(pow2(59) * pow2(5) == pow2(59) * 32);
    assert(pow2(59) == 0x800000000000000);
    assert(pow2(192) * pow2(59) == pow2(192) * 0x800000000000000);
}

/// Elements and the integers below the modulus correspond to each other, one and zero and every
/// integer to itself.
pub proof fn law_values(a: Stark252, b: Stark252, n: u64)
    requires
        a.is_element(),
        b.is_element(),
    ensures
        0 <= a.value() < pow2(251) + 17 * pow2(192) + 1,
        a.value() == b.value() <==> a == b,
        Stark252::spec_zero().value() == 0,
        Stark252::spec_one().value() == 1,
        Stark252::spec_from_u64(n).value() == n,
{
    law_constants(Limbs { l0: 0, l1: 0, l2: 0, l3: 0 });
    a.lemma_value();
    b.lemma_value();
    Stark252::lemma_from_value(0);
    Stark252::lemma_from_value(1);
    Stark252::lemma_from_value(n as int);
}

/// The operations of the field are those of the integers modulo `2^251 + 17 * 2^192 + 1`.
pub proof fn law_arithmetic(a: Stark252, b: Stark252)
    requires
        a.is_element(),
        b.is_element(),
    ensures
        a.spec_add(b).value() == (a.value() + b.value())
            % ((pow2(251) + 17 * pow2(192) + 1) as int),
        a.spec_neg().value() == (-a.value()) % ((pow2(251) + 17 * pow2(192) + 1) as int),
        a.spec_mul(b).value() == (a.value() * b.value())
            % ((pow2(251) + 17 * pow2(192) + 1) as int),
{
    law_constants(Limbs { l0: 0, l1: 0, l2: 0, l3: 0 });
    Stark252::lemma_from_value(a.value() + b.value());
    Stark252::lemma_from_value(-a.value());
    Stark252::lemma_from_value(a.value() * b.value());
}

/// The two-adic root is the field's own, of order `2^192`.
pub proof fn law_two_adic_root()
    ensures
        Stark252::spec_two_adicity() == 192,
        Stark252::spec_two_adic_root().value()
            == 0x5282db87529cfa3f0464519c8b0fa5ad187148e11a61616070024f42f8ef94int,
{
    Stark252::lemma_from_value(crate::stark252_prime::root());
}

/// The `i`-th byte of an integer's big-endian bytes.
proof fn lemma_big_endian_byte(n: int, len: nat, i: int)
    requires
        0 <= n,
        0 <= i < len,
    ensures
        big_endian(n, len).len() == len,
        big_endian(n, len)[i] == (n / (pow2((8 * (len - 1 - i)) as nat) as int)) % 256,
    decreases len,
{
    let before = (len - 1) as nat;
    lemma_big_endian_len(n, len);
    lemma_big_endian_len(n / 256, before);
    lemma2_to64();
    if i < before {
        let rest = (8 * (before - 1 - i)) as nat;
        lemma_big_endian_byte(n / 256, before, i);
        lemma_pow2_adds(8, rest);
        lemma_pow2_pos(rest);
        lemma_div_denominator(n, 256, pow2(rest) as int);
        assert((8 * (len - 1 - i)) as nat == 8 + rest);
    } else {
        assert((8 * (len - 1 - i)) as nat == 0);
        assert(n / 1 == n);
    }
}

/// The big-endian bytes of an integer are as many as asked for.
proof fn lemma_big_endian_len(n: int, len: nat)
    ensures
        big_endian(n, len).len() == len,
    decreases len,
{
    if len > 0 {
        lemma_big_endian_len(n / 256, (len - 1) as nat);
    }
}

/// An element serialises to 32 bytes, which are the digits to the base 256, most significant
/// first, of its value times `2^256` modulo the prime.
pub proof fn law_serialisation(a: Stark252, i: int)
    requires
        a.is_element(),
        0 <= i < 32,
    ensures
        Stark252::spec_byte_len() == 32,
        a.spec_as_bytes().len() == 32,
        a.spec_as_bytes()[i] == (a.value() * pow2(256) % ((pow2(251) + 17 * pow2(192) + 1) as int))
            / (pow2((8 * (31 - i)) as nat) as int) % 256,
{
    law_constants(Limbs { l0: 0, l1: 0, l2: 0, l3: 0 });
    a.lemma_value();
    lemma_big_endian_byte(a.representative(), 32, i);
}

/// Integers of as many bytes are equal where their bytes are.
proof fn lemma_big_endian_injective(m: int, n: int, len: nat)
    requires
        0 <= m < pow2(8 * len),
        0 <= n < pow2(8 * len),
        big_endian(m, len) == big_endian(n, len),
    ensures
        m == n,
    decreases len,
{
    lemma2_to64();
    if len > 0 {
        let before = (len - 1) as nat;
        lemma_big_endian_len(m / 256, before);
        lemma_big_endian_len(n / 256, before);
        let x = big_endian(m, len);
        let y = big_endian(n, len);
        assert(x.drop_last() =~= big_endian(m / 256, before));
        assert(y.drop_last() =~= big_endian(n / 256, before));
        assert(x.last() == y.last());
        assert(m % 256 == n % 256);
        lemma_pow2_adds(8, 8 * before);
        assert(8 + 8 * before == 8 * len);
        lemma_big_endian_injective(m / 256, n / 256, before);
        lemma_fundamental_div_mod(m, 256);
        lemma_fundamental_div_mod(n, 256);
    }
}

/// Elements with the same serialisation are the same element.
pub proof fn law_serialisation_is_injective(a: Stark252, b: Stark252)
    requires
        a.is_element(),
        b.is_element(),
        a.spec_as_bytes() == b.spec_as_bytes(),
    ensures
        a == b,
{
    law_constants(Limbs { l0: 0, l1: 0, l2: 0, l3: 0 });
    lemma2_to64();
    lemma_pow2_adds(192, 64);
    a.lemma_value();
    b.lemma_value();
    lemma_big_endian_injective(a.representative(), b.representative(), 32);
}

} // verus!
