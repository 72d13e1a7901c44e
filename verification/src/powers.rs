//! Powers of field elements: exponentiation and the rules it obeys.

use vstd::prelude::*;
use crate::field::{power, IsField, IsSubFieldOf};

verus! {

/// `base` multiplied by itself `exponent` times, by repeated squaring.
pub fn pow<F: IsField>(base: &F, exponent: usize) -> (r: F)
    requires
        base.is_element(),
    ensures
        r.is_element(),
        r == power(*base, exponent as nat),
{
    let mut result = F::one();
    let mut square: F = *base;
    let mut rest: usize = exponent;
    proof {
        lemma_power_element(*base, exponent as nat);
        F::lemma_multiplication(power(*base, exponent as nat), F::spec_one(), F::spec_one());
    }
    while rest > 0
        invariant
            base.is_element(),
            result.is_element(),
            square.is_element(),
            result.spec_mul(power(square, rest as nat)) == power(*base, exponent as nat),
        decreases rest,
    {
        let ghost half = (rest / 2) as nat;
        proof {
            let squared = square.spec_mul(square);
            F::lemma_closed(square, square);
            lemma_power_element(squared, half);
            lemma_power_of_square(square, half);
            F::lemma_multiplication(result, square, power(squared, half));
        }
        if rest % 2 == 1 {
            result = result.mul(&square);
        }
        square = square.mul(&square);
        rest = rest / 2;
    }
    proof {
        F::lemma_multiplication(result, F::spec_one(), F::spec_one());
    }
    result
}

/// A power of an element is an element.
pub proof fn lemma_power_element<F: IsField>(base: F, exponent: nat)
    requires
        base.is_element(),
    ensures
        power(base, exponent).is_element(),
    decreases exponent,
{
    F::lemma_constants();
    if exponent > 0 {
        lemma_power_element(base, (exponent - 1) as nat);
        F::lemma_closed(base, power(base, (exponent - 1) as nat));
    }
}

/// `base^1 == base`
pub proof fn lemma_power_one<F: IsField>(base: F)
    requires
        base.is_element(),
    ensures
        power(base, 1) == base,
{
    F::lemma_constants();
    F::lemma_multiplication(base, F::spec_one(), F::spec_one());
    reveal_with_fuel(power, 2);
}

/// `1^exponent == 1`
pub proof fn lemma_one_power<F: IsField>(exponent: nat)
    ensures
        power(F::spec_one(), exponent) == F::spec_one(),
    decreases exponent,
{
    if exponent > 0 {
        lemma_one_power::<F>((exponent - 1) as nat);
        F::lemma_constants();
        F::lemma_multiplication(F::spec_one(), F::spec_one(), F::spec_one());
    }
}

/// `base^(m + n) == base^m * base^n`
pub proof fn lemma_power_adds<F: IsField>(base: F, m: nat, n: nat)
    requires
        base.is_element(),
    ensures
        power(base, m + n) == power(base, m).spec_mul(power(base, n)),
    decreases m,
{
    F::lemma_constants();
    lemma_power_element(base, n);
    if m == 0 {
        F::lemma_multiplication(power(base, n), F::spec_one(), F::spec_one());
    } else {
        let before = (m - 1) as nat;
        lemma_power_adds(base, before, n);
        lemma_power_element(base, before);
        F::lemma_multiplication(base, power(base, before), power(base, n));
        assert(m + n - 1 == before + n);
    }
}

/// `(a * b)^n == a^n * b^n`
pub proof fn lemma_power_of_product<F: IsField>(a: F, b: F, n: nat)
    requires
        a.is_element(),
        b.is_element(),
    ensures
        power(a.spec_mul(b), n) == power(a, n).spec_mul(power(b, n)),
    decreases n,
{
    F::lemma_constants();
    if n == 0 {
        F::lemma_multiplication(F::spec_one(), F::spec_one(), F::spec_one());
    } else {
        let before = (n - 1) as nat;
        lemma_power_of_product(a, b, before);
        let x = power(a, before);
        let y = power(b, before);
        lemma_power_element(a, before);
        lemma_power_element(b, before);
        F::lemma_closed(a, b);
        F::lemma_closed(x, y);
        F::lemma_closed(b, y);
        // (a * b) * (x * y) == a * (b * (x * y)) == a * (x * (b * y)) == (a * x) * (b * y)
        F::lemma_multiplication(a, b, x.spec_mul(y));
        F::lemma_multiplication(b, x, y);
        F::lemma_multiplication(x, b, y);
        F::lemma_multiplication(a, x, b.spec_mul(y));
    }
}

/// `base^(m * n) == (base^m)^n`
pub proof fn lemma_power_multiplies<F: IsField>(base: F, m: nat, n: nat)
    requires
        base.is_element(),
    ensures
        power(base, m * n) == power(power(base, m), n),
    decreases n,
{
    if n == 0 {
        assert(m * n == 0);
    } else {
        let before = (n - 1) as nat;
        lemma_power_multiplies(base, m, before);
        assert(m * n == m + m * before) by (nonlinear_arith)
            requires
                before == n - 1,
        ;
        lemma_power_adds(base, m, m * before);
    }
}

/// `base^(2n) == (base * base)^n` and `base^(2n + 1) == base * (base * base)^n`
pub proof fn lemma_power_of_square<F: IsField>(base: F, n: nat)
    requires
        base.is_element(),
    ensures
        power(base, 2 * n) == power(base.spec_mul(base), n),
        power(base, 2 * n + 1) == base.spec_mul(power(base.spec_mul(base), n)),
{
    lemma_power_of_product(base, base, n);
    lemma_power_adds(base, n, n);
    assert(n + n == 2 * n);
}

/// The image of a power in a larger field is the power of the image.
pub proof fn lemma_power_to_extension<F: IsSubFieldOf<E>, E: IsField>(base: F, n: nat)
    requires
        base.is_element(),
    ensures
        power(base, n).spec_to_extension() == power(base.spec_to_extension(), n),
    decreases n,
{
    F::lemma_to_extension(base, base);
    if n > 0 {
        lemma_power_to_extension::<F, E>(base, (n - 1) as nat);
        lemma_power_element(base, (n - 1) as nat);
        F::lemma_to_extension(base, power(base, (n - 1) as nat));
    }
}

/// The power zero is one, the first power is the base, and powers multiply by adding exponents.
pub proof fn law_powers<F: IsField>(base: F, m: nat, n: nat)
    requires
        base.is_element(),
    ensures
        power(base, 0) == F::spec_one(),
        power(base, 1) == base,
        power(base, m + n) == power(base, m).spec_mul(power(base, n)),
        power(base, m * n) == power(power(base, m), n),
{
    lemma_power_one(base);
    lemma_power_adds(base, m, n);
    lemma_power_multiplies(base, m, n);
}

} // verus!
