//! Roots of unity whose order is a power of two.

use vstd::prelude::*;
use vstd::arithmetic::power2::{lemma_pow2_adds, lemma_pow2_pos, lemma_pow2_unfold, pow2};
use crate::binary::lemma_pow2_zero;
use crate::field::{power, IsFFTField, IsField};
use crate::field_laws::{lemma_mul_minus_one, lemma_square_is_one};
use crate::powers::{
    lemma_one_power, lemma_power_adds, lemma_power_element, lemma_power_multiplies,
    lemma_power_of_product, lemma_power_of_square, lemma_power_one,
};

verus! {

/// Whether the powers of `u` run through the roots of unity of order `2^k`: half way through, they
/// are at minus one.
pub open spec fn is_generator<F: IsField>(u: F, k: nat) -> bool {
    &&& u.is_element()
    &&& if k == 0 {
        u == F::spec_one()
    } else {
        power(u, pow2((k - 1) as nat)) == F::spec_one().spec_neg()
    }
}

/// The square of a generator of order `2^k` is one of order `2^(k - 1)`.
pub proof fn lemma_generator_square<F: IsField>(u: F, k: nat)
    requires
        k > 0,
        is_generator(u, k),
    ensures
        is_generator(u.spec_mul(u), (k - 1) as nat),
{
    F::lemma_closed(u, u);
    if k == 1 {
        lemma_pow2_zero();
        lemma_power_one(u);
        lemma_mul_minus_one(u);
    } else {
        let half = pow2((k - 2) as nat);
        lemma_pow2_unfold((k - 1) as nat);
        lemma_power_of_square(u, half);
    }
}

/// A generator of order `2^k` raised to its order is one.
pub proof fn lemma_generator_order<F: IsField>(u: F, k: nat)
    requires
        is_generator(u, k),
    ensures
        power(u, pow2(k)) == F::spec_one(),
{
    F::lemma_constants();
    if k == 0 {
        lemma_one_power::<F>(pow2(0));
    } else {
        let half = pow2((k - 1) as nat);
        lemma_pow2_unfold(k);
        lemma_power_adds(u, half, half);
        lemma_mul_minus_one(u);
    }
}

/// A power of minus one with an odd exponent is minus one.
proof fn lemma_minus_one_to_odd<F: IsField>(n: nat)
    ensures
        power(F::spec_one().spec_neg(), 2 * n + 1) == F::spec_one().spec_neg(),
{
    let minus_one = F::spec_one().spec_neg();
    F::lemma_constants();
    lemma_mul_minus_one(F::spec_one());
    lemma_power_of_square(minus_one, n);
    lemma_one_power::<F>(n);
    F::lemma_multiplication(minus_one, F::spec_one(), F::spec_one());
}

/// A generator of order `2^k` is a primitive root of unity of that order: no smaller power of it
/// is one.
pub proof fn law_generator_is_primitive<F: IsField>(u: F, k: nat, m: nat)
    requires
        is_generator(u, k),
        F::spec_one().spec_neg() != F::spec_one(),
        0 < m < pow2(k),
    ensures
        power(u, pow2(k)) == F::spec_one(),
        power(u, m) != F::spec_one(),
    decreases k,
{
    lemma_generator_order(u, k);
    lemma_pow2_zero();
    if k > 0 {
        lemma_pow2_unfold(k);
        if m % 2 == 0 {
            let n = m / 2;
            lemma_generator_square(u, k);
            lemma_power_of_square(u, n);
            law_generator_is_primitive(u.spec_mul(u), (k - 1) as nat, n);
        } else if power(u, m) == F::spec_one() {
            // 1 == (u^m)^half == (u^half)^m == (-1)^m == -1
            let half = pow2((k - 1) as nat);
            lemma_power_multiplies(u, m, half);
            lemma_power_multiplies(u, half, m);
            assert(m * half == half * m) by (nonlinear_arith);
            lemma_one_power::<F>(half);
            lemma_minus_one_to_odd::<F>(m / 2);
            assert(m == 2 * (m / 2) + 1);
        }
    }
}

/// Every element that gives one when raised to `2^k` is a power of the generator of that order.
pub proof fn law_roots_are_powers<F: IsField>(u: F, k: nat, x: F) -> (index: nat)
    requires
        is_generator(u, k),
        x.is_element(),
        power(x, pow2(k)) == F::spec_one(),
    ensures
        index < pow2(k),
        x == power(u, index),
    decreases k,
{
    F::lemma_constants();
    if k == 0 {
        lemma_pow2_zero();
        lemma_power_one(x);
        0
    } else {
        let half = pow2((k - 1) as nat);
        let minus_one = F::spec_one().spec_neg();
        let y = power(x, half);
        lemma_pow2_unfold(k);
        lemma_pow2_pos((k - 1) as nat);
        lemma_power_element(x, half);
        lemma_power_adds(x, half, half);
        lemma_square_is_one(y);
        lemma_generator_square(u, k);
        let v = u.spec_mul(u);
        if y == F::spec_one() {
            let j = law_roots_are_powers(v, (k - 1) as nat, x);
            lemma_power_of_square(u, j);
            2 * j
        } else {
            // x / u, written with u^(2^k - 1) for the inverse of u, is a root of half the order.
            let order = pow2(k);
            let inverse = power(u, (order - 1) as nat);
            let shifted = x.spec_mul(inverse);
            lemma_power_element(u, (order - 1) as nat);
            F::lemma_closed(x, inverse);
            assert(power(shifted, half) == F::spec_one()) by {
                lemma_power_of_product(x, inverse, half);
                lemma_power_multiplies(u, (order - 1) as nat, half);
                lemma_power_multiplies(u, half, (order - 1) as nat);
                assert((order - 1) * half == half * (order - 1)) by (nonlinear_arith);
                assert(order - 1 == 2 * (half - 1) + 1);
                lemma_minus_one_to_odd::<F>((half - 1) as nat);
                lemma_mul_minus_one(x);
            }
            let j = law_roots_are_powers(v, (k - 1) as nat, shifted);
            lemma_power_of_square(u, j);
            lemma_power_element(v, j);
            // u * shifted == x * (u * inverse) == x * u^order == x
            lemma_generator_order(u, k);
            F::lemma_multiplication(u, x, inverse);
            F::lemma_multiplication(x, u, inverse);
            F::lemma_multiplication(x, F::spec_one(), u);
            assert(u.spec_mul(shifted) == x) by {
                assert(power(u, order) == u.spec_mul(inverse));
            }
            2 * j + 1
        }
    }
}

/// The root of unity of order `2^order` that the field's own two-adic root gives.
pub open spec fn primitive_root<F: IsFFTField>(order: nat) -> F
    recommends
        order <= F::spec_two_adicity(),
{
    power(F::spec_two_adic_root(), pow2((F::spec_two_adicity() - order) as nat))
}

/// The root of unity of order `2^order` is a generator of that order.
pub proof fn law_primitive_root_is_generator<F: IsFFTField>(order: nat)
    requires
        order <= F::spec_two_adicity(),
    ensures
        is_generator(primitive_root::<F>(order), order),
{
    let adicity = F::spec_two_adicity();
    let root = F::spec_two_adic_root();
    let gap = (adicity - order) as nat;
    F::lemma_two_adic_root();
    lemma_power_element(root, pow2(gap));
    if order == 0 {
        lemma_generator_order(root, adicity);
    } else {
        let below = (order - 1) as nat;
        lemma_power_multiplies(root, pow2(gap), pow2(below));
        lemma_pow2_adds(gap, below);
        assert(gap + below == adicity - 1);
    }
}

/// The root of unity of the largest order is the field's own, and the square of each is the next
/// one down.
pub proof fn law_primitive_roots_square<F: IsFFTField>(order: nat)
    requires
        0 < order <= F::spec_two_adicity(),
    ensures
        primitive_root::<F>(F::spec_two_adicity()) == F::spec_two_adic_root(),
        primitive_root::<F>(order).spec_mul(primitive_root::<F>(order)) == primitive_root::<F>(
            (order - 1) as nat,
        ),
{
    let gap = (F::spec_two_adicity() - order) as nat;
    let root = F::spec_two_adic_root();
    F::lemma_two_adic_root();
    lemma_pow2_zero();
    lemma_power_one(root);
    lemma_pow2_unfold(gap + 1);
    lemma_power_adds(root, pow2(gap), pow2(gap));
    assert(F::spec_two_adicity() - (order - 1) == gap + 1);
}

/// What can go wrong in a field.
#[derive(Clone, Copy, Debug, PartialEq, Eq)]
pub enum FieldError {
    /// The field has no root of unity of order `2^k` for this `k`.
    RootOfUnityError(u64),
}

/// A root of unity of order `2^order`, for every `order` up to the field's two-adicity.
pub fn get_primitive_root_of_unity<F: IsFFTField>(order: u64) -> (r: Result<F, FieldError>)
    ensures
        match r {
            Ok(root) => {
                &&& order <= F::spec_two_adicity()
                &&& root.is_element()
                &&& root == primitive_root::<F>(order as nat)
            },
            Err(error) => {
                &&& order > F::spec_two_adicity()
                &&& error == FieldError::RootOfUnityError(order)
            },
        },
{
    let adicity: u64 = F::two_adicity();
    if order > adicity {
        return Err(FieldError::RootOfUnityError(order));
    }
    let mut root = F::two_adic_root();
    let mut left: u64 = adicity;
    proof {
        lemma_pow2_zero();
        lemma_power_one(root);
    }
    while left > order
        invariant
            order <= left <= adicity,
            adicity == F::spec_two_adicity(),
            root.is_element(),
            root == primitive_root::<F>(left as nat),
        decreases left - order,
    {
        let ghost gap = (adicity - left) as nat;
        proof {
            F::lemma_two_adic_root();
            lemma_pow2_unfold(gap + 1);
            lemma_power_adds(F::spec_two_adic_root(), pow2(gap), pow2(gap));
            assert(adicity - (left - 1) == gap + 1);
        }
        root = root.mul(&root);
        left = left - 1;
    }
    Ok(root)
}

/// The first `count` points of the coset of the roots of unity of order `2^order` that `offset`
/// shifts them to, in natural order.
pub fn get_powers_of_primitive_root_coset<F: IsFFTField>(
    order: u64,
    count: usize,
    offset: &F,
) -> (r: Result<Vec<F>, FieldError>)
    requires
        offset.is_element(),
    ensures
        match r {
            Ok(points) => {
                &&& order <= F::spec_two_adicity()
                &&& points@ == Seq::new(
                    count as nat,
                    |i: int| offset.spec_mul(power(primitive_root::<F>(order as nat), i as nat)),
                )
            },
            Err(error) => {
                &&& order > F::spec_two_adicity()
                &&& error == FieldError::RootOfUnityError(order)
            },
        },
{
    let root: F = match get_primitive_root_of_unity(order) {
        Ok(root) => root,
        Err(error) => {
            return Err(error);
        },
    };
    let mut points: Vec<F> = Vec::new();
    let mut point: F = *offset;
    let ghost expected = |i: int| offset.spec_mul(power(root, i as nat));
    proof {
        F::lemma_multiplication(*offset, *offset, *offset);
    }
    let mut i: usize = 0;
    while i < count
        invariant
            i <= count,
            offset.is_element(),
            root.is_element(),
            point.is_element(),
            point == offset.spec_mul(power(root, i as nat)),
            expected == (|i: int| offset.spec_mul(power(root, i as nat))),
            points@ == Seq::new(i as nat, expected),
        decreases count - i,
    {
        points.push(point);
        assert(points@ =~= Seq::new((i + 1) as nat, expected));
        proof {
            // (offset * root^i) * root == offset * (root * root^i)
            lemma_power_element(root, i as nat);
            F::lemma_multiplication(*offset, power(root, i as nat), root);
            F::lemma_multiplication(power(root, i as nat), root, root);
        }
        point = point.mul(&root);
        i = i + 1;
    }
    Ok(points)
}

} // verus!
