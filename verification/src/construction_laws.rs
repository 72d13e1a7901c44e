//! Which parameters have evaluation domains, why others have none, and that the domains are the
//! ones asked for.

use vstd::prelude::*;
use vstd::arithmetic::power2::pow2;
use crate::binary::{
    is_power_of_two, law_trailing_zeros, lemma_power_of_two_positive, lemma_valuation,
};
use crate::domain::{
    construction_error, lde_size_fits, Domain, DomainParameters, DomainScalars, ProvingError,
};
use crate::field::IsFFTField;
use crate::roots_of_unity::primitive_root;

verus! {

/// A domain can be asked for wherever its LDE size is a machine word, and also wherever that size
/// is never looked at because the trace length is refused.
pub proof fn law_parameters_are_admitted<F: IsFFTField>(parameters: DomainParameters, a: nat)
    ensures
        parameters.trace_length * parameters.blowup_factor <= usize::MAX ==> lde_size_fits::<F>(
            parameters,
        ),
        (forall|k: nat| parameters.trace_length != #[trigger] pow2(k)) ==> lde_size_fits::<F>(
            parameters,
        ),
        parameters.trace_length == pow2(a) && a > F::spec_two_adicity() ==> lde_size_fits::<F>(
            parameters,
        ),
{
    if parameters.trace_length == pow2(a) {
        assert(pow2(a) * 1 == pow2(a));
        law_trailing_zeros(parameters.trace_length, a, 1);
        lemma_power_of_two_positive();
        assert(is_power_of_two(parameters.trace_length as nat));
    }
}

/// A trace length is invalid exactly where it is no power of two.
pub proof fn law_invalid_trace_lengths<F: IsFFTField>(parameters: DomainParameters)
    ensures
        construction_error::<F>(parameters) == Some(
            ProvingError::InvalidTraceLength(parameters.trace_length),
        ) <==> forall|k: nat| parameters.trace_length != #[trigger] pow2(k),
{
}

/// A trace length of more points than the field has roots of unity for is reported with its order.
pub proof fn law_missing_trace_root<F: IsFFTField>(parameters: DomainParameters, a: nat)
    requires
        parameters.trace_length == pow2(a),
        a > F::spec_two_adicity(),
    ensures
        construction_error::<F>(parameters) == Some(ProvingError::PrimitiveRootNotFound(a as u64)),
{
    assert(pow2(a) * 1 == pow2(a));
    law_trailing_zeros(parameters.trace_length, a, 1);
    assert(is_power_of_two(parameters.trace_length as nat));
}

/// Where the trace length is in order, the LDE size `2^b * odd` decides: there are domains exactly
/// where it is a power of two that the field has roots of unity for, and otherwise `b` is reported.
pub proof fn law_lde_size_decides<F: IsFFTField>(
    parameters: DomainParameters,
    a: nat,
    b: nat,
    odd: nat,
)
    requires
        parameters.trace_length == pow2(a),
        a <= F::spec_two_adicity(),
        parameters.trace_length * parameters.blowup_factor <= usize::MAX,
        parameters.trace_length * parameters.blowup_factor == pow2(b) * odd,
        odd % 2 == 1,
    ensures
        construction_error::<F>(parameters) is None <==> odd == 1 && b <= F::spec_two_adicity(),
        construction_error::<F>(parameters) is Some ==> construction_error::<F>(parameters) == Some(
            ProvingError::PrimitiveRootNotFound(b as u64),
        ),
{
    let size = (parameters.trace_length * parameters.blowup_factor) as usize;
    assert(pow2(a) * 1 == pow2(a));
    law_trailing_zeros(parameters.trace_length, a, 1);
    assert(is_power_of_two(parameters.trace_length as nat));
    law_trailing_zeros(size, b, odd);
    vstd::arithmetic::power2::lemma_pow2_pos(b);
    assert(size > 0) by (nonlinear_arith)
        requires
            size == pow2(b) * odd,
            pow2(b) > 0,
            odd % 2 == 1,
    ;
    lemma_valuation(size as nat);
    assert(odd == 1 <==> pow2(b) * odd == pow2(b)) by (nonlinear_arith)
        requires
            pow2(b) > 0,
    ;
}

/// The blowup factor zero is refused, with the width of a machine word for the order.
pub proof fn law_empty_lde_domain<F: IsFFTField>(parameters: DomainParameters, a: nat)
    requires
        parameters.trace_length == pow2(a),
        a <= F::spec_two_adicity(),
        parameters.blowup_factor == 0,
    ensures
        construction_error::<F>(parameters) == Some(
            ProvingError::PrimitiveRootNotFound(usize::BITS as u64),
        ),
{
    assert(pow2(a) * 1 == pow2(a));
    law_trailing_zeros(parameters.trace_length, a, 1);
    assert(is_power_of_two(parameters.trace_length as nat));
    assert(parameters.trace_length * parameters.blowup_factor == 0);
    law_trailing_zeros(0, 0, 1);
    lemma_power_of_two_positive();
}

/// The scalars of a domain are those that were asked for: the trace length and its root of unity,
/// the offset as a field element, and the LDE size and its root of unity.
pub proof fn law_scalars_are_as_asked<F: IsFFTField>(
    parameters: DomainParameters,
    scalars: DomainScalars<F>,
    a: nat,
    b: nat,
)
    requires
        scalars.describes(parameters),
        parameters.trace_length == pow2(a),
        parameters.trace_length * parameters.blowup_factor == pow2(b),
    ensures
        scalars.coset_offset == F::spec_from_u64(parameters.coset_offset),
        scalars.blowup_factor == parameters.blowup_factor,
        scalars.interpolation_domain_size == parameters.trace_length,
        scalars.lde_domain_size == parameters.trace_length * parameters.blowup_factor,
        scalars.root_order == a,
        scalars.trace_primitive_root == primitive_root::<F>(a),
        scalars.lde_primitive_root == primitive_root::<F>(b),
{
    assert(pow2(a) * 1 == pow2(a));
    assert(pow2(b) * 1 == pow2(b));
    law_trailing_zeros(parameters.trace_length, a, 1);
    law_trailing_zeros(scalars.lde_domain_size, b, 1);
}

/// A domain is the one that was asked for, in the same sense.
pub proof fn law_domain_is_as_asked<F: IsFFTField>(
    parameters: DomainParameters,
    domain: Domain<F>,
    a: nat,
    b: nat,
)
    requires
        domain.scalars().describes(parameters),
        parameters.trace_length == pow2(a),
        parameters.trace_length * parameters.blowup_factor == pow2(b),
    ensures
        domain.coset_offset == F::spec_from_u64(parameters.coset_offset),
        domain.blowup_factor == parameters.blowup_factor,
        domain.interpolation_domain_size == parameters.trace_length,
        domain.lde_domain_size == parameters.trace_length * parameters.blowup_factor,
        domain.root_order == a,
        domain.trace_primitive_root == primitive_root::<F>(a),
        domain.lde_primitive_root == primitive_root::<F>(b),
{
    law_scalars_are_as_asked(parameters, domain.scalars(), a, b);
}

/// The first point of the LDE coset is the offset asked for, as a field element.
pub proof fn law_lde_coset_starts_at_the_offset<F: IsFFTField>(
    parameters: DomainParameters,
    domain: Domain<F>,
)
    requires
        domain.wf(),
        domain.scalars().describes(parameters),
    ensures
        domain.spec_lde_point(0) == F::spec_from_u64(parameters.coset_offset),
        domain.lde_coset().len() > 0,
        domain.lde_coset()[0] == F::spec_from_u64(parameters.coset_offset),
{
    let h = F::spec_from_u64(parameters.coset_offset);
    F::lemma_from_u64(parameters.coset_offset);
    F::lemma_multiplication(h, h, h);
    lemma_power_of_two_positive();
}

} // verus!
