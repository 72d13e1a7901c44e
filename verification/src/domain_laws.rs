//! What the evaluation domains promise as a whole.

use vstd::prelude::*;
use vstd::arithmetic::power2::pow2;
use crate::binary::{
    is_power_of_two, lemma_power_of_two_factor, lemma_power_of_two_positive,
    lemma_trailing_zeros_bound, lemma_valuation, spec_trailing_zeros,
};
use crate::domain::{
    construction_error, is_first_outside, lde_size_fits, Domain, DomainParameters,
};
use crate::field::{power, IsFFTField, IsField, IsSubFieldOf};
use crate::field_laws::{
    lemma_add_cancels, lemma_mul_zero, lemma_neg_is_unique, lemma_product_is_zero,
};
use crate::powers::{
    lemma_one_power, lemma_power_adds, lemma_power_element, lemma_power_multiplies,
    lemma_power_of_product, lemma_power_to_extension,
};
use crate::roots_of_unity::{
    is_generator, law_generator_is_primitive, law_primitive_root_is_generator, law_roots_are_powers,
    lemma_generator_order,
};
use crate::stark252::Stark252;

verus! {

/// The points of a domain as elements of a larger field.
pub open spec fn in_extension<F: IsSubFieldOf<E>, E: IsField>(points: Seq<F>) -> Seq<E> {
    Seq::new(points.len(), |i: int| points[i].spec_to_extension())
}

/// Zero and minus one stay what they are in a larger field.
proof fn lemma_constants_to_extension<F: IsSubFieldOf<E>, E: IsField>()
    ensures
        F::spec_zero().spec_to_extension() == E::spec_zero(),
        F::spec_one().spec_neg().spec_to_extension() == E::spec_one().spec_neg(),
{
    let zero = F::spec_zero();
    let one = F::spec_one();
    let minus_one = one.spec_neg();
    F::lemma_constants();
    E::lemma_constants();
    F::lemma_closed(one, one);
    F::lemma_to_extension(zero, zero);
    F::lemma_to_extension(one, minus_one);
    F::lemma_to_extension(minus_one, one);
    F::lemma_addition(zero, zero, zero);
    F::lemma_addition(one, minus_one, one);
    E::lemma_addition(zero.spec_to_extension(), E::spec_zero(), E::spec_zero());
    lemma_add_cancels(zero.spec_to_extension(), zero.spec_to_extension(), E::spec_zero());
    lemma_neg_is_unique(E::spec_one(), minus_one.spec_to_extension());
}

/// Only zero is taken to zero in a larger field.
proof fn lemma_zero_from_extension<F: IsSubFieldOf<E>, E: IsField>(a: F)
    requires
        a.is_element(),
        a.spec_to_extension() == E::spec_zero(),
    ensures
        a == F::spec_zero(),
{
    E::lemma_constants();
    if a != F::spec_zero() {
        let image = a.spec_inv().spec_to_extension();
        F::lemma_inverse(a);
        F::lemma_to_extension(a, a.spec_inv());
        F::lemma_to_extension(a.spec_inv(), a);
        E::lemma_multiplication(E::spec_zero(), image, E::spec_one());
        lemma_mul_zero(image);
    }
}

/// Only one is taken to one in a larger field.
proof fn lemma_one_from_extension<F: IsSubFieldOf<E>, E: IsField>(a: F)
    requires
        a.is_element(),
        a.spec_to_extension() == E::spec_one(),
    ensures
        a == F::spec_one(),
{
    let one = F::spec_one();
    let minus_one = one.spec_neg();
    let difference = minus_one.spec_add(a);
    F::lemma_constants();
    E::lemma_constants();
    F::lemma_closed(one, one);
    F::lemma_closed(minus_one, a);
    lemma_constants_to_extension::<F, E>();
    F::lemma_to_extension(minus_one, a);
    E::lemma_closed(E::spec_one(), E::spec_one());
    E::lemma_addition(E::spec_one(), E::spec_one().spec_neg(), E::spec_one());
    lemma_zero_from_extension::<F, E>(difference);
    F::lemma_addition(minus_one, one, one);
    F::lemma_addition(one, minus_one, one);
    lemma_add_cancels(minus_one, a, one);
}

/// A generator stays one in a larger field.
proof fn lemma_generator_to_extension<F: IsSubFieldOf<E>, E: IsField>(u: F, k: nat)
    requires
        is_generator(u, k),
    ensures
        is_generator(u.spec_to_extension(), k),
{
    F::lemma_to_extension(u, u);
    if k > 0 {
        lemma_power_to_extension::<F, E>(u, pow2((k - 1) as nat));
        lemma_constants_to_extension::<F, E>();
    }
}

/// A power is zero only where its base is.
proof fn lemma_power_is_zero<F: IsField>(base: F, n: nat)
    requires
        base.is_element(),
        n > 0,
    ensures
        power(base, n) == F::spec_zero() <==> base == F::spec_zero(),
    decreases n,
{
    let before = (n - 1) as nat;
    F::lemma_constants();
    lemma_power_element(base, before);
    if base == F::spec_zero() {
        lemma_mul_zero(power(base, before));
        F::lemma_multiplication(base, power(base, before), base);
    } else if power(base, n) == F::spec_zero() {
        lemma_product_is_zero(base, power(base, before));
        if before > 0 {
            lemma_power_is_zero(base, before);
        }
    }
}

/// The elements whose `n`-th power agrees with that of `h` are the multiples of `h` by an `n`-th
/// root of unity.
proof fn lemma_equal_powers<E: IsField>(h: E, n: nat, z: E)
    requires
        h.is_element(),
        z.is_element(),
        h != E::spec_zero() || n > 0,
    ensures
        power(z, n) == power(h, n) <==> exists|u: E| #[trigger]
            u.is_element() && power(u, n) == E::spec_one() && z == h.spec_mul(u),
{
    E::lemma_constants();
    lemma_power_element(h, n);
    if power(z, n) == power(h, n) {
        if h == E::spec_zero() {
            lemma_power_is_zero(h, n);
            lemma_power_is_zero(z, n);
            lemma_one_power::<E>(n);
            E::lemma_multiplication(h, h, h);
            assert(E::spec_one().is_element() && z == h.spec_mul(E::spec_one()));
        } else {
            let inverse = h.spec_inv();
            let u = inverse.spec_mul(z);
            E::lemma_inverse(h);
            E::lemma_closed(inverse, z);
            E::lemma_multiplication(h, inverse, z);
            E::lemma_multiplication(inverse, h, z);
            E::lemma_multiplication(z, E::spec_one(), z);
            lemma_power_of_product(inverse, z, n);
            lemma_power_of_product(inverse, h, n);
            lemma_one_power::<E>(n);
            assert(u.is_element() && power(u, n) == E::spec_one() && z == h.spec_mul(u));
        }
    }
    if exists|u: E| #[trigger]
        u.is_element() && power(u, n) == E::spec_one() && z == h.spec_mul(u) {
        let u = choose|u: E| #[trigger]
            u.is_element() && power(u, n) == E::spec_one() && z == h.spec_mul(u);
        lemma_power_of_product(h, u, n);
        E::lemma_multiplication(power(h, n), E::spec_one(), E::spec_one());
    }
}

/// The powers of a generator of order `2^k` give one when raised to that order.
proof fn lemma_powers_are_roots<E: IsField>(u: E, k: nat, i: nat)
    requires
        is_generator(u, k),
    ensures
        power(u, i).is_element(),
        power(power(u, i), pow2(k)) == E::spec_one(),
{
    let n = pow2(k);
    lemma_power_element(u, i);
    lemma_generator_order(u, k);
    lemma_power_multiplies(u, i, n);
    lemma_power_multiplies(u, n, i);
    assert(i * n == n * i) by (nonlinear_arith);
    lemma_one_power::<E>(i);
}

/// The generator of the LDE domain has the order of the domain.
proof fn lemma_lde_generator<F: IsFFTField>(domain: Domain<F>) -> (k: nat)
    requires
        domain.wf(),
    ensures
        domain.lde_domain_size == pow2(k),
        is_generator(domain.lde_primitive_root, k),
{
    let k = spec_trailing_zeros(domain.lde_domain_size);
    lemma_power_of_two_positive();
    lemma_valuation(domain.lde_domain_size as nat);
    law_primitive_root_is_generator::<F>(k);
    k
}

/// The exponentiation test of the LDE coset accepts exactly the multiples of the offset by a root
/// of unity of the order of the LDE domain.
pub proof fn law_lde_test_is_definition<F: IsFFTField + IsSubFieldOf<E>, E: IsField>(
    domain: Domain<F>,
    z: E,
)
    requires
        domain.wf(),
        z.is_element(),
    ensures
        domain.passes_lde_test(z) <==> exists|u: E| #[trigger]
            u.is_element() && power(u, domain.lde_domain_size as nat) == E::spec_one() && z
                == domain.coset_offset.spec_to_extension().spec_mul(u),
{
    let n = domain.lde_domain_size as nat;
    let h = domain.coset_offset;
    lemma_power_of_two_positive();
    F::lemma_to_extension(h, h);
    lemma_power_to_extension::<F, E>(h, n);
    lemma_equal_powers(h.spec_to_extension(), n, z);
}

/// The exponentiation test of the LDE coset accepts exactly the points of the coset, in any field
/// that contains them.
pub proof fn law_lde_test_is_exact<F: IsFFTField + IsSubFieldOf<E>, E: IsField>(
    domain: Domain<F>,
    z: E,
)
    requires
        domain.wf(),
        z.is_element(),
    ensures
        domain.passes_lde_test(z) <==> in_extension::<F, E>(domain.lde_coset()).contains(z),
{
    let n = domain.lde_domain_size as nat;
    let g = domain.lde_primitive_root;
    let h = domain.coset_offset;
    let points = in_extension::<F, E>(domain.lde_coset());
    let k = lemma_lde_generator(domain);
    lemma_generator_to_extension::<F, E>(g, k);
    assert forall|i: int| 0 <= i < points.len() implies #[trigger] points[i]
        == h.spec_to_extension().spec_mul(power(g.spec_to_extension(), i as nat)) by {
        lemma_power_element(g, i as nat);
        lemma_power_to_extension::<F, E>(g, i as nat);
        F::lemma_to_extension(h, power(g, i as nat));
    }
    law_lde_test_is_definition::<F, E>(domain, z);
    if domain.passes_lde_test(z) {
        let u = choose|u: E| #[trigger]
            u.is_element() && power(u, n) == E::spec_one() && z
                == h.spec_to_extension().spec_mul(u);
        let i = law_roots_are_powers(g.spec_to_extension(), k, u);
        assert(points[i as int] == z);
    }
    if points.contains(z) {
        let i = choose|i: int| 0 <= i < points.len() && points[i] == z;
        let u = power(g.spec_to_extension(), i as nat);
        lemma_powers_are_roots(g.spec_to_extension(), k, i as nat);
        assert(u.is_element() && power(u, n) == E::spec_one() && z
            == h.spec_to_extension().spec_mul(u));
    }
}

/// The exponentiation test of the trace domain accepts exactly the points of that domain, in any
/// field that contains them.
pub proof fn law_trace_test_is_exact<F: IsFFTField + IsSubFieldOf<E>, E: IsField>(
    domain: Domain<F>,
    z: E,
)
    requires
        domain.wf(),
        z.is_element(),
    ensures
        domain.passes_trace_test(z) <==> in_extension::<F, E>(domain.trace_domain()).contains(z),
{
    let k = domain.root_order as nat;
    let g = domain.trace_primitive_root;
    let points = in_extension::<F, E>(domain.trace_domain());
    law_primitive_root_is_generator::<F>(k);
    lemma_generator_to_extension::<F, E>(g, k);
    assert forall|i: int| 0 <= i < points.len() implies #[trigger] points[i] == power(
        g.spec_to_extension(),
        i as nat,
    ) by {
        lemma_power_to_extension::<F, E>(g, i as nat);
    }
    if domain.passes_trace_test(z) {
        let i = law_roots_are_powers(g.spec_to_extension(), k, z);
        assert(points[i as int] == z);
    }
    if points.contains(z) {
        let i = choose|i: int| 0 <= i < points.len() && points[i] == z;
        lemma_powers_are_roots(g.spec_to_extension(), k, i as nat);
    }
}

/// Whether a scan over the materialised domains finds `z`.
pub open spec fn found_by_scan<F: IsFFTField + IsSubFieldOf<E>, E: IsField>(
    domain: Domain<F>,
    z: E,
) -> bool {
    in_extension::<F, E>(domain.lde_coset()).contains(z) || in_extension::<F, E>(
        domain.trace_domain(),
    ).contains(z)
}

/// Sampling picks the draw that a sampler would pick that scans the materialised domains.
pub proof fn law_sampling_agrees_with_scan<F: IsFFTField + IsSubFieldOf<E>, E: IsField>(
    domain: Domain<F>,
    draws: Seq<E>,
    r: Option<usize>,
)
    requires
        domain.wf(),
        forall|k: int| 0 <= k < draws.len() ==> (#[trigger] draws[k]).is_element(),
    ensures
        is_first_outside(draws, |z: E| domain.rejects(z), r) <==> is_first_outside(
            draws,
            |z: E| found_by_scan::<F, E>(domain, z),
            r,
        ),
{
    assert forall|k: int| 0 <= k < draws.len() implies domain.rejects(#[trigger] draws[k])
        == found_by_scan::<F, E>(domain, draws[k]) by {
        law_lde_test_is_exact::<F, E>(domain, draws[k]);
        law_trace_test_is_exact::<F, E>(domain, draws[k]);
    }
}

/// Two domains built from the same parameters, materialised or not, have the same points and the
/// same membership tests.
pub proof fn law_domains_agree<F: IsFFTField + IsSubFieldOf<E>, E: IsField>(
    parameters: DomainParameters,
    left: Domain<F>,
    right: Domain<F>,
    index: nat,
    z: E,
)
    requires
        left.scalars().describes(parameters),
        right.scalars().describes(parameters),
    ensures
        left.lde_domain_size == right.lde_domain_size,
        left.spec_lde_point(index) == right.spec_lde_point(index),
        left.lde_coset() == right.lde_coset(),
        left.trace_domain() == right.trace_domain(),
        left.passes_lde_test(z) == right.passes_lde_test(z),
        left.passes_trace_test(z) == right.passes_trace_test(z),
{
    assert(left.lde_coset() =~= right.lde_coset());
    assert(left.trace_domain() =~= right.trace_domain());
}

/// The LDE generator is a primitive root of unity of the order of the LDE domain.
pub proof fn law_lde_generator_is_primitive<F: IsFFTField>(domain: Domain<F>, m: nat)
    requires
        domain.wf(),
    ensures
        power(domain.lde_primitive_root, domain.lde_domain_size as nat) == F::spec_one(),
        0 < m < domain.lde_domain_size ==> power(domain.lde_primitive_root, m) != F::spec_one(),
{
    let k = lemma_lde_generator(domain);
    lemma_generator_order(domain.lde_primitive_root, k);
    F::lemma_two_adic_root();
    if 0 < m < domain.lde_domain_size {
        law_generator_is_primitive(domain.lde_primitive_root, k, m);
    }
}

/// The trace generator is a primitive root of unity of the order of the trace domain.
pub proof fn law_trace_generator_is_primitive<F: IsFFTField>(domain: Domain<F>, m: nat)
    requires
        domain.wf(),
    ensures
        power(domain.trace_primitive_root, domain.interpolation_domain_size as nat)
            == F::spec_one(),
        0 < m < domain.interpolation_domain_size ==> power(domain.trace_primitive_root, m)
            != F::spec_one(),
{
    let k = domain.root_order as nat;
    law_primitive_root_is_generator::<F>(k);
    lemma_generator_order(domain.trace_primitive_root, k);
    F::lemma_two_adic_root();
    if 0 < m < domain.interpolation_domain_size {
        law_generator_is_primitive(domain.trace_primitive_root, k, m);
    }
}

/// The points of the LDE coset are distinct, where the offset is not zero.
pub proof fn law_lde_points_are_distinct<F: IsFFTField>(domain: Domain<F>, i: nat, j: nat)
    requires
        domain.wf(),
        domain.coset_offset != F::spec_zero(),
        i < j < domain.lde_domain_size,
    ensures
        domain.spec_lde_point(i) != domain.spec_lde_point(j),
{
    if domain.spec_lde_point(i) == domain.spec_lde_point(j) {
        let k = lemma_lde_generator(domain);
        let n = pow2(k);
        let g = domain.lde_primitive_root;
        let h = domain.coset_offset;
        let inverse = h.spec_inv();
        let x = power(g, i);
        let y = power(g, j);
        lemma_power_element(g, i);
        lemma_power_element(g, j);
        F::lemma_constants();
        F::lemma_inverse(h);
        F::lemma_multiplication(inverse, h, x);
        F::lemma_multiplication(inverse, h, y);
        F::lemma_multiplication(h, inverse, x);
        F::lemma_multiplication(x, F::spec_one(), x);
        F::lemma_multiplication(y, F::spec_one(), y);
        assert(x == y);
        // g^(j - i) == g^(n - i) * g^j == g^(n - i) * g^i == 1
        let gap = (j - i) as nat;
        let rest = (n - i) as nat;
        lemma_power_adds(g, rest, i);
        lemma_power_adds(g, rest, j);
        lemma_power_adds(g, n, gap);
        lemma_generator_order(g, k);
        lemma_power_element(g, gap);
        F::lemma_multiplication(power(g, gap), F::spec_one(), x);
        assert(rest + i == n);
        assert(rest + j == n + gap);
        law_lde_generator_is_primitive(domain, gap);
    }
}

/// A point of the trace domain passes the test of the LDE coset exactly where the offset is itself
/// a root of unity of the order of the LDE domain. Otherwise the two domains are disjoint.
pub proof fn law_domains_are_disjoint<F: IsFFTField + IsSubFieldOf<E>, E: IsField>(
    domain: Domain<F>,
    z: E,
)
    requires
        domain.wf(),
        z.is_element(),
        domain.passes_trace_test(z),
    ensures
        domain.passes_lde_test(z) <==> power(domain.coset_offset, domain.lde_domain_size as nat)
            == F::spec_one(),
{
    let size = domain.lde_domain_size as nat;
    let scaled = power(domain.coset_offset, size);
    F::lemma_constants();
    lemma_power_multiplies(
        z,
        domain.interpolation_domain_size as nat,
        domain.blowup_factor as nat,
    );
    lemma_one_power::<E>(domain.blowup_factor as nat);
    lemma_power_element(domain.coset_offset, size);
    F::lemma_to_extension(scaled, scaled);
    if domain.passes_lde_test(z) {
        lemma_one_from_extension::<F, E>(scaled);
    }
}

/// The points of the LDE coset start at the offset, and each is the one before times the generator,
/// beyond the end of the coset too. The materialised coset holds exactly the points below its size.
pub proof fn law_lde_points_follow_the_generator<F: IsFFTField>(domain: Domain<F>, i: nat)
    requires
        domain.wf(),
    ensures
        domain.spec_lde_point(0) == domain.coset_offset,
        domain.spec_lde_point(i + 1) == domain.spec_lde_point(i).spec_mul(
            domain.lde_primitive_root,
        ),
        domain.spec_lde_point(i + domain.lde_domain_size as nat) == domain.spec_lde_point(i),
        domain.lde_coset().len() == domain.lde_domain_size,
        i < domain.lde_domain_size ==> domain.lde_coset()[i as int] == domain.spec_lde_point(i),
{
    let g = domain.lde_primitive_root;
    let h = domain.coset_offset;
    let n = domain.lde_domain_size as nat;
    let k = lemma_lde_generator(domain);
    F::lemma_constants();
    lemma_power_element(g, i);
    F::lemma_multiplication(h, h, h);
    F::lemma_multiplication(h, power(g, i), g);
    F::lemma_multiplication(power(g, i), g, g);
    lemma_power_adds(g, i, n);
    lemma_generator_order(g, k);
    F::lemma_multiplication(power(g, i), F::spec_one(), g);
}

/// The points of the trace domain start at one, and each is the one before times the generator.
pub proof fn law_trace_points_follow_the_generator<F: IsFFTField>(domain: Domain<F>, i: int)
    requires
        domain.wf(),
        0 <= i < domain.interpolation_domain_size - 1,
    ensures
        domain.trace_domain().len() == domain.interpolation_domain_size,
        domain.trace_domain()[0] == F::spec_one(),
        domain.trace_domain()[i + 1] == domain.trace_domain()[i].spec_mul(
            domain.trace_primitive_root,
        ),
{
    let g = domain.trace_primitive_root;
    law_primitive_root_is_generator::<F>(domain.root_order as nat);
    lemma_power_element(g, i as nat);
    F::lemma_multiplication(power(g, i as nat), g, g);
}

/// A draw passes the test of the LDE coset exactly where it is one of the points of the coset, and
/// the test of the trace domain exactly where it is a power of the trace generator.
pub proof fn law_tests_find_the_points<F: IsFFTField + IsSubFieldOf<E>, E: IsField>(
    domain: Domain<F>,
    z: E,
)
    requires
        domain.wf(),
        z.is_element(),
    ensures
        domain.passes_lde_test(z) <==> exists|i: nat|
            i < domain.lde_domain_size && z == (#[trigger] domain.spec_lde_point(
                i,
            )).spec_to_extension(),
        domain.passes_trace_test(z) <==> exists|i: nat|
            i < domain.interpolation_domain_size && z == (#[trigger] power(
                domain.trace_primitive_root,
                i,
            )).spec_to_extension(),
        domain.rejects(z) <==> domain.passes_lde_test(z) || domain.passes_trace_test(z),
{
    let coset = in_extension::<F, E>(domain.lde_coset());
    let trace = in_extension::<F, E>(domain.trace_domain());
    law_lde_test_is_exact::<F, E>(domain, z);
    law_trace_test_is_exact::<F, E>(domain, z);
    if domain.passes_lde_test(z) {
        let i = choose|i: int| 0 <= i < coset.len() && coset[i] == z;
        assert(z == domain.spec_lde_point(i as nat).spec_to_extension());
    }
    if exists|i: nat|
        i < domain.lde_domain_size && z == (#[trigger] domain.spec_lde_point(
            i,
        )).spec_to_extension() {
        let i = choose|i: nat|
            i < domain.lde_domain_size && z == (#[trigger] domain.spec_lde_point(
                i,
            )).spec_to_extension();
        assert(coset[i as int] == z);
    }
    if domain.passes_trace_test(z) {
        let i = choose|i: int| 0 <= i < trace.len() && trace[i] == z;
        assert(z == power(domain.trace_primitive_root, i as nat).spec_to_extension());
    }
    if exists|i: nat|
        i < domain.interpolation_domain_size && z == (#[trigger] power(
            domain.trace_primitive_root,
            i,
        )).spec_to_extension() {
        let i = choose|i: nat|
            i < domain.interpolation_domain_size && z == (#[trigger] power(
                domain.trace_primitive_root,
                i,
            )).spec_to_extension();
        assert(trace[i as int] == z);
    }
}

/// Sampling stops at the first draw outside both domains. For every draw, `inside` being whether it
/// is a point of the LDE coset or of the trace domain: a draw before the one picked is inside, the
/// one picked is not, and a draw that is not inside is never passed over, so that the very first
/// draw is picked where it is outside.
pub proof fn law_sampling_takes_the_first_outside<F: IsFFTField + IsSubFieldOf<E>, E: IsField>(
    domain: Domain<F>,
    draws: Seq<E>,
    r: Option<usize>,
    k: int,
    inside: bool,
)
    requires
        domain.wf(),
        forall|j: int| 0 <= j < draws.len() ==> (#[trigger] draws[j]).is_element(),
        is_first_outside(draws, |z: E| domain.rejects(z), r),
        0 <= k < draws.len(),
        inside <==> (exists|i: nat|
            i < domain.lde_domain_size && draws[k] == (#[trigger] domain.spec_lde_point(
                i,
            )).spec_to_extension()) || (exists|i: nat|
            i < domain.interpolation_domain_size && draws[k] == (#[trigger] power(
                domain.trace_primitive_root,
                i,
            )).spec_to_extension()),
    ensures
        r matches Some(position) ==> {
            &&& position < draws.len()
            &&& k < position ==> inside
            &&& k == position ==> !inside
        },
        !inside ==> r is Some && r->0 <= k,
        !inside && k == 0 ==> r == Some(0usize),
{
    law_tests_find_the_points::<F, E>(domain, draws[k]);
    assert(domain.rejects(draws[k]) <==> inside);
}

/// More draws do not change the pick: what was picked among the first draws is picked among all.
pub proof fn law_sampling_ignores_later_draws<F: IsFFTField + IsSubFieldOf<E>, E: IsField>(
    domain: Domain<F>,
    draws: Seq<E>,
    later: Seq<E>,
    r: Option<usize>,
    all: Option<usize>,
)
    requires
        is_first_outside(draws, |z: E| domain.rejects(z), r),
        is_first_outside(draws + later, |z: E| domain.rejects(z), all),
    ensures
        r is Some ==> all == r,
        r is None && all is Some ==> all->0 >= draws.len(),
{
    let whole = draws + later;
    assert(forall|j: int| 0 <= j < draws.len() ==> whole[j] == #[trigger] draws[j]);
    if let Some(position) = r {
        assert(whole[position as int] == draws[position as int]);
        if let Some(other) = all {
            if other < position {
                assert(domain.rejects(draws[other as int]));
            } else if other > position {
                assert(domain.rejects(whole[position as int]));
            }
        }
    } else if let Some(other) = all {
        if other < draws.len() {
            assert(domain.rejects(draws[other as int]));
        }
    }
}

/// Over the STARK field, the parameters have their domains exactly where both domains have a power
/// of two of points, which is where the trace length and the blowup factor are powers of two.
/// Machine words are too short for an order that the field lacks.
pub proof fn law_stark252_has_domains(parameters: DomainParameters)
    requires
        lde_size_fits::<Stark252>(parameters),
    ensures
        construction_error::<Stark252>(parameters) is None <==> is_power_of_two(
            parameters.trace_length as nat,
        ) && is_power_of_two((parameters.trace_length * parameters.blowup_factor) as nat),
        construction_error::<Stark252>(parameters) is None <==> is_power_of_two(
            parameters.trace_length as nat,
        ) && is_power_of_two(parameters.blowup_factor as nat),
{
    lemma_trailing_zeros_bound(parameters.trace_length);
    lemma_trailing_zeros_bound((parameters.trace_length * parameters.blowup_factor) as usize);
    if is_power_of_two(parameters.trace_length as nat) {
        lemma_power_of_two_factor(
            parameters.trace_length as nat,
            parameters.blowup_factor as nat,
        );
    }
}

} // verus!
