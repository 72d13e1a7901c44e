//! Consequences of the field axioms.

use vstd::prelude::*;
use crate::field::IsField;

verus! {

/// `a + b == a + c` only where `b == c`.
pub proof fn lemma_add_cancels<F: IsField>(a: F, b: F, c: F)
    requires
        a.is_element(),
        b.is_element(),
        c.is_element(),
        a.spec_add(b) == a.spec_add(c),
    ensures
        b == c,
{
    let minus_a = a.spec_neg();
    F::lemma_constants();
    F::lemma_closed(a, a);
    F::lemma_addition(a, minus_a, b);
    F::lemma_addition(minus_a, a, b);
    F::lemma_addition(minus_a, a, c);
    F::lemma_addition(b, F::spec_zero(), b);
    F::lemma_addition(c, F::spec_zero(), c);
}

/// `a * 0 == 0`
pub proof fn lemma_mul_zero<F: IsField>(a: F)
    requires
        a.is_element(),
    ensures
        a.spec_mul(F::spec_zero()) == F::spec_zero(),
{
    let zero = F::spec_zero();
    let product = a.spec_mul(zero);
    F::lemma_constants();
    F::lemma_closed(a, zero);
    F::lemma_addition(zero, zero, zero);
    F::lemma_addition(product, zero, zero);
    F::lemma_multiplication(a, zero, zero);
    lemma_add_cancels(product, product, zero);
}

/// `a + b == 0` only where `b == -a`.
pub proof fn lemma_neg_is_unique<F: IsField>(a: F, b: F)
    requires
        a.is_element(),
        b.is_element(),
        a.spec_add(b) == F::spec_zero(),
    ensures
        b == a.spec_neg(),
{
    F::lemma_closed(a, a);
    F::lemma_addition(a, b, b);
    lemma_add_cancels(a, b, a.spec_neg());
}

/// `a * -1 == -a` and `-1 * -1 == 1`
pub proof fn lemma_mul_minus_one<F: IsField>(a: F)
    requires
        a.is_element(),
    ensures
        F::spec_one().spec_neg().is_element(),
        a.spec_mul(F::spec_one().spec_neg()) == a.spec_neg(),
        F::spec_one().spec_neg().spec_mul(F::spec_one().spec_neg()) == F::spec_one(),
{
    let one = F::spec_one();
    let minus_one = one.spec_neg();
    F::lemma_constants();
    F::lemma_closed(one, one);
    F::lemma_addition(one, minus_one, one);
    F::lemma_closed(a, minus_one);
    F::lemma_multiplication(a, one, minus_one);
    lemma_mul_zero(a);
    lemma_neg_is_unique(a, a.spec_mul(minus_one));
    // -1 + (-1 * -1) == -1 * (1 + -1) == 0 == -1 + 1
    F::lemma_closed(minus_one, minus_one);
    F::lemma_multiplication(minus_one, one, minus_one);
    F::lemma_addition(minus_one, one, one);
    lemma_mul_zero(minus_one);
    lemma_add_cancels(minus_one, minus_one.spec_mul(minus_one), one);
}

/// A product is zero only where a factor is.
pub proof fn lemma_product_is_zero<F: IsField>(a: F, b: F)
    requires
        a.is_element(),
        b.is_element(),
        a.spec_mul(b) == F::spec_zero(),
    ensures
        a == F::spec_zero() || b == F::spec_zero(),
{
    if a != F::spec_zero() {
        let inverse = a.spec_inv();
        F::lemma_constants();
        F::lemma_inverse(a);
        F::lemma_multiplication(inverse, a, b);
        F::lemma_multiplication(b, F::spec_one(), a);
        lemma_mul_zero(inverse);
        F::lemma_multiplication(a, inverse, b);
        F::lemma_multiplication(F::spec_one(), b, b);
    }
}

/// The square roots of one are one and minus one.
pub proof fn lemma_square_is_one<F: IsField>(x: F)
    requires
        x.is_element(),
        x.spec_mul(x) == F::spec_one(),
    ensures
        x == F::spec_one() || x == F::spec_one().spec_neg(),
{
    let one = F::spec_one();
    let zero = F::spec_zero();
    let minus_one = one.spec_neg();
    F::lemma_constants();
    lemma_mul_minus_one(x);
    F::lemma_closed(x, x);
    let minus_x = x.spec_neg();
    let left = x.spec_add(minus_one);
    let right = x.spec_add(one);
    F::lemma_closed(x, minus_one);
    F::lemma_closed(x, one);
    // left * x == 1 - x and left * 1 == x - 1
    F::lemma_multiplication(x, x, minus_one);
    F::lemma_multiplication(left, x, one);
    F::lemma_closed(one, minus_x);
    assert(left.spec_mul(x) == one.spec_add(minus_x));
    assert(left.spec_mul(right) == one.spec_add(minus_x).spec_add(x.spec_add(minus_one)));
    // (1 + -x) + (x + -1) == 1 + ((-x + x) + -1) == 1 + -1 == 0
    F::lemma_addition(one, minus_x, left);
    F::lemma_addition(minus_x, x, minus_one);
    F::lemma_addition(x, minus_x, x);
    F::lemma_addition(minus_one, zero, zero);
    F::lemma_addition(zero, minus_one, one);
    F::lemma_addition(one, minus_one, one);
    assert(left.spec_mul(right) == zero);
    lemma_product_is_zero(left, right);
    if left == zero {
        F::lemma_addition(x, minus_one, one);
        F::lemma_addition(minus_one, x, one);
        F::lemma_addition(minus_one, one, x);
        lemma_add_cancels(minus_one, x, one);
    } else {
        F::lemma_addition(x, one, one);
        lemma_neg_is_unique(one, x);
    }
}

} // verus!
