//! Fields, as the rest of the library sees them.
//!
//! A field is a type whose values represent elements. Its arithmetic is described by spec
//! functions on those values, held to the field axioms by the proof functions that every
//! implementation has to supply, and carried out by executable methods that agree with the spec
//! functions.

use vstd::prelude::*;
use vstd::arithmetic::power2::pow2;

verus! {

/// A field. `Self` is the type of its elements.
pub trait IsField: Sized + Copy {
    /// Whether the value represents an element. Elements are equal as values when they are equal
    /// in the field.
    spec fn is_element(self) -> bool;

    /// The neutral element of addition.
    spec fn spec_zero() -> Self;

    /// The neutral element of multiplication.
    spec fn spec_one() -> Self;

    /// The sum of two elements.
    spec fn spec_add(self, other: Self) -> Self;

    /// The additive inverse of an element.
    spec fn spec_neg(self) -> Self;

    /// The product of two elements.
    spec fn spec_mul(self, other: Self) -> Self;

    /// The multiplicative inverse of an element other than zero.
    spec fn spec_inv(self) -> Self;

    /// The image of an integer.
    spec fn spec_from_u64(value: u64) -> Self;

    /// The serialisation of an element.
    spec fn spec_as_bytes(self) -> Seq<u8>;

    /// The number of bytes that every element serialises to.
    spec fn spec_byte_len() -> nat;

    /// Zero and one are different elements.
    proof fn lemma_constants()
        ensures
            Self::spec_zero().is_element(),
            Self::spec_one().is_element(),
            Self::spec_zero() != Self::spec_one(),
    ;

    /// The operations stay within the field.
    proof fn lemma_closed(a: Self, b: Self)
        requires
            a.is_element(),
            b.is_element(),
        ensures
            a.spec_add(b).is_element(),
            a.spec_neg().is_element(),
            a.spec_mul(b).is_element(),
    ;

    /// Addition makes the elements a commutative group.
    proof fn lemma_addition(a: Self, b: Self, c: Self)
        requires
            a.is_element(),
            b.is_element(),
            c.is_element(),
        ensures
            a.spec_add(b) == b.spec_add(a),
            a.spec_add(b).spec_add(c) == a.spec_add(b.spec_add(c)),
            a.spec_add(Self::spec_zero()) == a,
            a.spec_add(a.spec_neg()) == Self::spec_zero(),
    ;

    /// Multiplication is commutative, associative and distributes over addition.
    proof fn lemma_multiplication(a: Self, b: Self, c: Self)
        requires
            a.is_element(),
            b.is_element(),
            c.is_element(),
        ensures
            a.spec_mul(b) == b.spec_mul(a),
            a.spec_mul(b).spec_mul(c) == a.spec_mul(b.spec_mul(c)),
            a.spec_mul(Self::spec_one()) == a,
            a.spec_mul(b.spec_add(c)) == a.spec_mul(b).spec_add(a.spec_mul(c)),
    ;

    /// Every element other than zero has an inverse.
    proof fn lemma_inverse(a: Self)
        requires
            a.is_element(),
            a != Self::spec_zero(),
        ensures
            a.spec_inv().is_element(),
            a.spec_mul(a.spec_inv()) == Self::spec_one(),
    ;

    /// The image of an integer is that many ones added up.
    proof fn lemma_from_u64(value: u64)
        ensures
            Self::spec_from_u64(value).is_element(),
            value == 0 ==> Self::spec_from_u64(value) == Self::spec_zero(),
            value > 0 ==> Self::spec_from_u64(value) == Self::spec_from_u64(
                (value - 1) as u64,
            ).spec_add(Self::spec_one()),
    ;

    /// Every element serialises to the same, positive number of bytes.
    proof fn lemma_as_bytes(a: Self)
        requires
            a.is_element(),
        ensures
            a.spec_as_bytes().len() == Self::spec_byte_len(),
            0 < Self::spec_byte_len(),
    ;

    /// The neutral element of multiplication.
    fn one() -> (r: Self)
        ensures
            r.is_element(),
            r == Self::spec_one(),
    ;

    /// The image of an integer.
    fn from_u64(value: u64) -> (r: Self)
        ensures
            r.is_element(),
            r == Self::spec_from_u64(value),
    ;

    /// The product of two elements.
    fn mul(&self, other: &Self) -> (r: Self)
        requires
            self.is_element(),
            other.is_element(),
        ensures
            r.is_element(),
            r == self.spec_mul(*other),
    ;

    /// Whether two elements are equal.
    fn equals(&self, other: &Self) -> (r: bool)
        requires
            self.is_element(),
            other.is_element(),
        ensures
            r <==> *self == *other,
    ;

    /// The serialisation of an element.
    fn as_bytes(&self) -> (r: Vec<u8>)
        requires
            self.is_element(),
        ensures
            r@ == self.spec_as_bytes(),
    ;
}

/// `base` multiplied by itself `exponent` times.
pub open spec fn power<F: IsField>(base: F, exponent: nat) -> F
    decreases exponent,
{
    if exponent == 0 {
        F::spec_one()
    } else {
        base.spec_mul(power(base, (exponent - 1) as nat))
    }
}

/// A field whose elements include those of `Self`.
pub trait IsSubFieldOf<E: IsField>: IsField {
    /// The element as one of the larger field.
    spec fn spec_to_extension(self) -> E;

    /// The inclusion is a field homomorphism.
    proof fn lemma_to_extension(a: Self, b: Self)
        requires
            a.is_element(),
            b.is_element(),
        ensures
            a.spec_to_extension().is_element(),
            Self::spec_one().spec_to_extension() == E::spec_one(),
            a.spec_add(b).spec_to_extension() == a.spec_to_extension().spec_add(
                b.spec_to_extension(),
            ),
            a.spec_mul(b).spec_to_extension() == a.spec_to_extension().spec_mul(
                b.spec_to_extension(),
            ),
    ;

    /// The element as one of the larger field.
    fn to_extension(&self) -> (r: E)
        requires
            self.is_element(),
        ensures
            r.is_element(),
            r == self.spec_to_extension(),
    ;
}

impl<F: IsField> IsSubFieldOf<F> for F {
    open spec fn spec_to_extension(self) -> F {
        self
    }

    proof fn lemma_to_extension(a: F, b: F) {
    }

    fn to_extension(&self) -> (r: F)
        ensures
            r == *self,
    {
        *self
    }
}

/// A field with roots of unity of order `2^k` for every `k` up to some bound.
pub trait IsFFTField: IsField {
    /// The `k` for which [`IsFFTField::two_adic_root`] has order `2^k`.
    spec fn spec_two_adicity() -> nat;

    /// A root of unity of order `2^two_adicity()`.
    spec fn spec_two_adic_root() -> Self;

    /// Raising the root to half its order gives minus one, which differs from one.
    proof fn lemma_two_adic_root()
        ensures
            0 < Self::spec_two_adicity() <= u64::MAX,
            Self::spec_two_adic_root().is_element(),
            power(
                Self::spec_two_adic_root(),
                pow2((Self::spec_two_adicity() - 1) as nat),
            ) == Self::spec_one().spec_neg(),
            Self::spec_one().spec_neg() != Self::spec_one(),
    ;

    /// The `k` for which [`IsFFTField::two_adic_root`] has order `2^k`.
    fn two_adicity() -> (r: u64)
        ensures
            r == Self::spec_two_adicity(),
    ;

    /// A root of unity of order `2^two_adicity()`.
    fn two_adic_root() -> (r: Self)
        ensures
            r.is_element(),
            r == Self::spec_two_adic_root(),
    ;
}

} // verus!
