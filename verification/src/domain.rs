//! The evaluation domains of a STARK.

use vstd::prelude::*;
use vstd::arithmetic::power2::pow2;
use crate::binary::{
    check_power_of_two, is_power_of_two, lemma_power_of_two_positive, lemma_valuation,
    spec_trailing_zeros, trailing_zeros, valuation,
};
use crate::field::{power, IsFFTField, IsField, IsSubFieldOf};
use crate::powers::{lemma_power_element, pow};
use crate::roots_of_unity::{
    get_powers_of_primitive_root_coset, get_primitive_root_of_unity,
    law_primitive_root_is_generator, primitive_root,
};

verus! {

/// What a domain is built from: the length of the execution trace, and the proof options that
/// bear on the domains.
#[derive(Clone, Copy, Debug, PartialEq, Eq)]
pub struct DomainParameters {
    /// Rows of the execution trace.
    pub trace_length: usize,
    /// How many times larger than the trace domain the LDE domain is.
    pub blowup_factor: u8,
    /// The integer whose image in the field shifts the LDE domain.
    pub coset_offset: u64,
}

/// Why a domain cannot be built.
#[derive(Clone, Copy, Debug, PartialEq, Eq)]
pub enum ProvingError {
    /// The trace length is not a positive power of two.
    InvalidTraceLength(usize),
    /// No generator is known for a domain of this size: the size is not a power of two, or one that
    /// exceeds the two-adicity of the field. The number is that of the size's trailing zeros.
    PrimitiveRootNotFound(u64),
}

/// The evaluation domains of a STARK: the trace domain (the `trace_length`-th roots of unity) and
/// the LDE domain (a coset of the `trace_length * blowup_factor`-th roots of unity, shifted by
/// `coset_offset`).
///
/// The prover materialises the LDE domain ([`new_domain`] / [`Domain::new`]) because it evaluates
/// polynomials on every point of it. The verifier only ever needs a handful of points and two
/// membership tests, so [`new_verifier_domain`] leaves the vector empty and
/// [`Domain::lde_point`], [`Domain::is_in_lde_coset`] and [`Domain::is_in_trace_domain`] compute
/// what is needed by exponentiation.
pub struct Domain<F: IsFFTField> {
    /// The trace length is two to this power.
    pub root_order: u32,
    /// Points of the LDE coset in natural order; empty for a verifier domain.
    pub lde_roots_of_unity_coset: Vec<F>,
    /// Generator of the trace domain.
    pub trace_primitive_root: F,
    /// The shift of the LDE domain.
    pub coset_offset: F,
    /// How many times larger than the trace domain the LDE domain is.
    pub blowup_factor: usize,
    /// The trace length.
    pub interpolation_domain_size: usize,
    /// Generator of the LDE domain, a primitive `lde_domain_size`-th root of unity.
    pub lde_primitive_root: F,
    /// `trace_length * blowup_factor`.
    pub lde_domain_size: usize,
}

/// Everything about a domain that does not require materialising it.
pub struct DomainScalars<F: IsFFTField> {
    /// The trace length is two to this power.
    pub root_order: u32,
    /// Generator of the trace domain.
    pub trace_primitive_root: F,
    /// The shift of the LDE domain.
    pub coset_offset: F,
    /// How many times larger than the trace domain the LDE domain is.
    pub blowup_factor: usize,
    /// The trace length.
    pub interpolation_domain_size: usize,
    /// Generator of the LDE domain.
    pub lde_primitive_root: F,
    /// `trace_length * blowup_factor`.
    pub lde_domain_size: usize,
}

/// Whether the size of the LDE domain is a machine word. Only a valid trace length whose roots of
/// unity exist is ever multiplied by the blowup factor.
pub open spec fn lde_size_fits<F: IsFFTField>(parameters: DomainParameters) -> bool {
    is_power_of_two(parameters.trace_length as nat) && valuation(parameters.trace_length as nat)
        <= F::spec_two_adicity() ==> parameters.trace_length * parameters.blowup_factor
        <= usize::MAX
}

/// Why no domain can be built from the parameters, where that is so.
pub open spec fn construction_error<F: IsFFTField>(parameters: DomainParameters) -> Option<
    ProvingError,
> {
    let trace_order = spec_trailing_zeros(parameters.trace_length);
    let lde_order = spec_trailing_zeros(
        (parameters.trace_length * parameters.blowup_factor) as usize,
    );
    if !is_power_of_two(parameters.trace_length as nat) {
        Some(ProvingError::InvalidTraceLength(parameters.trace_length))
    } else if trace_order > F::spec_two_adicity() {
        Some(ProvingError::PrimitiveRootNotFound(trace_order as u64))
    } else if !is_power_of_two((parameters.trace_length * parameters.blowup_factor) as nat)
        || lde_order > F::spec_two_adicity() {
        Some(ProvingError::PrimitiveRootNotFound(lde_order as u64))
    } else {
        None
    }
}

impl<F: IsFFTField> DomainScalars<F> {
    /// The scalars that the parameters determine.
    pub open spec fn describes(self, parameters: DomainParameters) -> bool {
        &&& self.root_order == spec_trailing_zeros(parameters.trace_length)
        &&& self.trace_primitive_root == primitive_root::<F>(self.root_order as nat)
        &&& self.coset_offset == F::spec_from_u64(parameters.coset_offset)
        &&& self.blowup_factor == parameters.blowup_factor
        &&& self.interpolation_domain_size == parameters.trace_length
        &&& self.lde_domain_size == parameters.trace_length * parameters.blowup_factor
        &&& self.lde_primitive_root == primitive_root::<F>(
            spec_trailing_zeros(self.lde_domain_size),
        )
    }
}

/// Computes everything about a domain that does not require materialising it.
pub fn domain_scalars<F: IsFFTField>(parameters: &DomainParameters) -> (r: Result<
    DomainScalars<F>,
    ProvingError,
>)
    requires
        lde_size_fits::<F>(*parameters),
    ensures
        match r {
            Ok(scalars) => {
                &&& construction_error::<F>(*parameters) is None
                &&& scalars.describes(*parameters)
                &&& scalars.coset_offset == F::spec_from_u64(parameters.coset_offset)
                &&& scalars.interpolation_domain_size == parameters.trace_length
                &&& scalars.blowup_factor == parameters.blowup_factor
                &&& scalars.lde_domain_size == parameters.trace_length * parameters.blowup_factor
                &&& scalars.interpolation_domain_size == pow2(scalars.root_order as nat)
            },
            Err(error) => construction_error::<F>(*parameters) == Some(error),
        },
{
    let blowup_factor: usize = parameters.blowup_factor as usize;
    let coset_offset = F::from_u64(parameters.coset_offset);
    let trace_length: usize = parameters.trace_length;

    // The trace length must be a power of two (required for FFT).
    if trace_length == 0 || !check_power_of_two(trace_length) {
        proof {
            lemma_power_of_two_positive();
        }
        return Err(ProvingError::InvalidTraceLength(trace_length));
    }
    let root_order: u32 = trailing_zeros(trace_length);
    proof {
        lemma_power_of_two_positive();
        lemma_valuation(trace_length as nat);
    }
    let trace_primitive_root: F = match get_primitive_root_of_unity(root_order as u64) {
        Ok(root) => root,
        Err(_) => {
            return Err(ProvingError::PrimitiveRootNotFound(root_order as u64));
        },
    };

    let lde_domain_size: usize = trace_length * blowup_factor;
    let lde_root_order: u32 = trailing_zeros(lde_domain_size);
    // The root found below has a power of two for its order, so the size must be one.
    if !check_power_of_two(lde_domain_size) {
        return Err(ProvingError::PrimitiveRootNotFound(lde_root_order as u64));
    }
    let lde_primitive_root: F = match get_primitive_root_of_unity(lde_root_order as u64) {
        Ok(root) => root,
        Err(_) => {
            return Err(ProvingError::PrimitiveRootNotFound(lde_root_order as u64));
        },
    };

    Ok(
        DomainScalars {
            root_order,
            trace_primitive_root,
            coset_offset,
            blowup_factor,
            interpolation_domain_size: trace_length,
            lde_primitive_root,
            lde_domain_size,
        },
    )
}

/// Whether `r` is the position of the first of the `draws` that is not `inside`, or `None` where
/// there is none.
pub open spec fn is_first_outside<E>(
    draws: Seq<E>,
    inside: spec_fn(E) -> bool,
    r: Option<usize>,
) -> bool {
    match r {
        Some(position) => {
            &&& position < draws.len()
            &&& !inside(draws[position as int])
            &&& forall|k: int| 0 <= k < position ==> inside(#[trigger] draws[k])
        },
        None => forall|k: int| 0 <= k < draws.len() ==> inside(#[trigger] draws[k]),
    }
}

impl<F: IsFFTField> Domain<F> {
    /// The part of the domain that is not materialised.
    pub open spec fn scalars(self) -> DomainScalars<F> {
        DomainScalars {
            root_order: self.root_order,
            trace_primitive_root: self.trace_primitive_root,
            coset_offset: self.coset_offset,
            blowup_factor: self.blowup_factor,
            interpolation_domain_size: self.interpolation_domain_size,
            lde_primitive_root: self.lde_primitive_root,
            lde_domain_size: self.lde_domain_size,
        }
    }

    /// The `index`-th point of the LDE coset, `coset_offset * g^index`.
    pub open spec fn spec_lde_point(self, index: nat) -> F {
        self.coset_offset.spec_mul(power(self.lde_primitive_root, index))
    }

    /// The points of the LDE coset in natural order.
    pub open spec fn lde_coset(self) -> Seq<F> {
        Seq::new(self.lde_domain_size as nat, |i: int| self.spec_lde_point(i as nat))
    }

    /// The points of the trace domain in natural order.
    pub open spec fn trace_domain(self) -> Seq<F> {
        Seq::new(
            self.interpolation_domain_size as nat,
            |i: int| power(self.trace_primitive_root, i as nat),
        )
    }

    /// The generators have the orders that the sizes call for, and what is materialised are points
    /// of the LDE coset.
    pub open spec fn wf(self) -> bool {
        &&& self.interpolation_domain_size == pow2(self.root_order as nat)
        &&& self.root_order <= F::spec_two_adicity()
        &&& self.trace_primitive_root == primitive_root::<F>(self.root_order as nat)
        &&& self.lde_domain_size == self.interpolation_domain_size * self.blowup_factor
        &&& is_power_of_two(self.lde_domain_size as nat)
        &&& spec_trailing_zeros(self.lde_domain_size) <= F::spec_two_adicity()
        &&& self.lde_primitive_root == primitive_root::<F>(
            spec_trailing_zeros(self.lde_domain_size),
        )
        &&& self.coset_offset.is_element()
        &&& self.lde_roots_of_unity_coset@.len() == 0 || self.lde_roots_of_unity_coset@
            == self.lde_coset()
    }

    /// Whether `z` passes the membership test of the LDE coset, `z^n == coset_offset^n` for
    /// `n = lde_domain_size`.
    pub open spec fn passes_lde_test<E: IsField>(self, z: E) -> bool where F: IsSubFieldOf<E> {
        power(z, self.lde_domain_size as nat) == power(
            self.coset_offset,
            self.lde_domain_size as nat,
        ).spec_to_extension()
    }

    /// Whether `z` passes the membership test of the trace domain, `z^n == 1` for
    /// `n = interpolation_domain_size`.
    pub open spec fn passes_trace_test<E: IsField>(self, z: E) -> bool {
        power(z, self.interpolation_domain_size as nat) == E::spec_one()
    }

    /// Whether `z` cannot be the out-of-domain point.
    pub open spec fn rejects<E: IsField>(self, z: E) -> bool where F: IsSubFieldOf<E> {
        self.passes_lde_test(z) || self.passes_trace_test(z)
    }

    /// The two generators are elements.
    proof fn lemma_generators(self)
        requires
            self.wf(),
        ensures
            self.trace_primitive_root.is_element(),
            self.lde_primitive_root.is_element(),
    {
        law_primitive_root_is_generator::<F>(self.root_order as nat);
        law_primitive_root_is_generator::<F>(spec_trailing_zeros(self.lde_domain_size));
    }

    /// Creates a fully materialised domain.
    ///
    /// The parameters must admit one; [`new_domain`] reports why where they do not.
    pub fn new(parameters: &DomainParameters) -> (r: Self)
        requires
            lde_size_fits::<F>(*parameters),
            construction_error::<F>(*parameters) is None,
        ensures
            r.wf(),
            r.scalars().describes(*parameters),
            r.lde_roots_of_unity_coset@ == r.lde_coset(),
            r.coset_offset == F::spec_from_u64(parameters.coset_offset),
            r.interpolation_domain_size == parameters.trace_length,
            r.blowup_factor == parameters.blowup_factor,
            r.lde_domain_size == parameters.trace_length * parameters.blowup_factor,
            r.lde_roots_of_unity_coset@.len() == r.lde_domain_size,
            forall|i: int|
                0 <= i < r.lde_domain_size ==> #[trigger] r.lde_roots_of_unity_coset@[i]
                    == r.coset_offset.spec_mul(power(r.lde_primitive_root, i as nat)),
    {
        Self::eager(parameters).unwrap()
    }

    fn from_scalars(scalars: DomainScalars<F>, lde_roots_of_unity_coset: Vec<F>) -> (r: Self)
        ensures
            r.scalars() == scalars,
            r.lde_roots_of_unity_coset == lde_roots_of_unity_coset,
    {
        Domain {
            root_order: scalars.root_order,
            lde_roots_of_unity_coset,
            trace_primitive_root: scalars.trace_primitive_root,
            coset_offset: scalars.coset_offset,
            blowup_factor: scalars.blowup_factor,
            interpolation_domain_size: scalars.interpolation_domain_size,
            lde_primitive_root: scalars.lde_primitive_root,
            lde_domain_size: scalars.lde_domain_size,
        }
    }

    fn eager(parameters: &DomainParameters) -> (r: Result<Self, ProvingError>)
        requires
            lde_size_fits::<F>(*parameters),
        ensures
            match r {
                Ok(domain) => {
                    &&& construction_error::<F>(*parameters) is None
                    &&& domain.wf()
                    &&& domain.scalars().describes(*parameters)
                    &&& domain.lde_roots_of_unity_coset@ == domain.lde_coset()
                    &&& domain.coset_offset == F::spec_from_u64(parameters.coset_offset)
                    &&& domain.interpolation_domain_size == parameters.trace_length
                    &&& domain.blowup_factor == parameters.blowup_factor
                    &&& domain.lde_domain_size == parameters.trace_length * parameters.blowup_factor
                    &&& domain.lde_roots_of_unity_coset@.len() == domain.lde_domain_size
                    &&& forall|i: int|
                        0 <= i < domain.lde_domain_size
                            ==> #[trigger] domain.lde_roots_of_unity_coset@[i]
                            == domain.coset_offset.spec_mul(
                            power(domain.lde_primitive_root, i as nat),
                        )
                },
                Err(error) => construction_error::<F>(*parameters) == Some(error),
            },
    {
        let scalars: DomainScalars<F> = match domain_scalars(parameters) {
            Ok(scalars) => scalars,
            Err(error) => {
                return Err(error);
            },
        };
        proof {
            F::lemma_from_u64(parameters.coset_offset);
            lemma_power_of_two_positive();
            lemma_valuation(parameters.trace_length as nat);
        }
        let lde_root_order: u64 = trailing_zeros(scalars.lde_domain_size) as u64;
        let lde_roots_of_unity_coset: Vec<F> = match get_powers_of_primitive_root_coset(
            lde_root_order,
            scalars.lde_domain_size,
            &scalars.coset_offset,
        ) {
            Ok(points) => points,
            Err(_) => {
                return Err(ProvingError::PrimitiveRootNotFound(lde_root_order));
            },
        };
        let domain = Self::from_scalars(scalars, lde_roots_of_unity_coset);
        assert(domain.lde_roots_of_unity_coset@ =~= domain.lde_coset());
        Ok(domain)
    }

    fn lazy(parameters: &DomainParameters) -> (r: Result<Self, ProvingError>)
        requires
            lde_size_fits::<F>(*parameters),
        ensures
            match r {
                Ok(domain) => {
                    &&& construction_error::<F>(*parameters) is None
                    &&& domain.wf()
                    &&& domain.scalars().describes(*parameters)
                    &&& domain.lde_roots_of_unity_coset@.len() == 0
                    &&& domain.coset_offset == F::spec_from_u64(parameters.coset_offset)
                    &&& domain.interpolation_domain_size == parameters.trace_length
                    &&& domain.blowup_factor == parameters.blowup_factor
                    &&& domain.lde_domain_size == parameters.trace_length * parameters.blowup_factor
                },
                Err(error) => construction_error::<F>(*parameters) == Some(error),
            },
    {
        let scalars: DomainScalars<F> = match domain_scalars(parameters) {
            Ok(scalars) => scalars,
            Err(error) => {
                return Err(error);
            },
        };
        proof {
            F::lemma_from_u64(parameters.coset_offset);
            lemma_power_of_two_positive();
            lemma_valuation(parameters.trace_length as nat);
        }
        Ok(Self::from_scalars(scalars, Vec::new()))
    }

    /// Number of points of the LDE domain, `trace_length * blowup_factor`.
    pub fn lde_domain_size(&self) -> (r: usize)
        ensures
            r == self.lde_domain_size,
    {
        self.lde_domain_size
    }

    /// The `index`-th point of the LDE coset in natural order, `coset_offset * g^index`. Reads the
    /// materialised vector when present and exponentiates otherwise.
    pub fn lde_point(&self, index: usize) -> (r: F)
        requires
            self.wf(),
        ensures
            r.is_element(),
            r == self.spec_lde_point(index as nat),
            r == self.coset_offset.spec_mul(power(self.lde_primitive_root, index as nat)),
    {
        proof {
            self.lemma_generators();
            lemma_power_element(self.lde_primitive_root, index as nat);
            F::lemma_closed(self.coset_offset, power(self.lde_primitive_root, index as nat));
        }
        match self.lde_roots_of_unity_coset.get(index) {
            Some(point) => *point,
            None => self.coset_offset.mul(&pow(&self.lde_primitive_root, index)),
        }
    }

    /// Whether `z` lies in the LDE coset: `z = coset_offset * u` with `u^n = 1` for
    /// `n = lde_domain_size`, i.e. `z^n = coset_offset^n`.
    pub fn is_in_lde_coset<E: IsField>(&self, z: &E) -> (r: bool) where F: IsSubFieldOf<E>
        requires
            self.wf(),
            z.is_element(),
        ensures
            r <==> self.passes_lde_test(*z),
            r <==> power(*z, self.lde_domain_size as nat) == power(
                self.coset_offset,
                self.lde_domain_size as nat,
            ).spec_to_extension(),
    {
        let size: usize = self.lde_domain_size;
        pow(z, size).equals(&pow(&self.coset_offset, size).to_extension())
    }

    /// Whether `z` is a `trace_length`-th root of unity.
    pub fn is_in_trace_domain<E: IsField>(&self, z: &E) -> (r: bool) where F: IsSubFieldOf<E>
        requires
            z.is_element(),
        ensures
            r <==> self.passes_trace_test(*z),
            r <==> power(*z, self.interpolation_domain_size as nat) == E::spec_one(),
    {
        pow(z, self.interpolation_domain_size).equals(&E::one())
    }

    /// Picks the out-of-domain point among the `draws` of a transcript: the position of the first
    /// one that lies neither in the LDE coset nor in the trace domain, or `None` where all of them
    /// do and more have to be drawn.
    pub fn sample_z_ood<E: IsField>(&self, draws: &[E]) -> (r: Option<usize>) where
        F: IsSubFieldOf<E>,

        requires
            self.wf(),
            forall|k: int| 0 <= k < draws@.len() ==> (#[trigger] draws@[k]).is_element(),
        ensures
            is_first_outside(draws@, |z: E| self.rejects(z), r),
            r matches Some(position) ==> {
                &&& position < draws@.len()
                &&& !self.passes_lde_test(draws@[position as int])
                &&& !self.passes_trace_test(draws@[position as int])
                &&& forall|k: int|
                    0 <= k < position ==> self.passes_lde_test(#[trigger] draws@[k])
                        || self.passes_trace_test(draws@[k])
            },
            r is None ==> forall|k: int|
                0 <= k < draws@.len() ==> self.passes_lde_test(#[trigger] draws@[k])
                    || self.passes_trace_test(draws@[k]),
    {
        let mut position: usize = 0;
        while position < draws.len()
            invariant
                self.wf(),
                position <= draws@.len(),
                forall|k: int| 0 <= k < draws@.len() ==> (#[trigger] draws@[k]).is_element(),
                forall|k: int| 0 <= k < position ==> self.rejects(#[trigger] draws@[k]),
            decreases draws@.len() - position,
        {
            let z: E = draws[position];
            if !self.is_in_lde_coset(&z) && !self.is_in_trace_domain(&z) {
                return Some(position);
            }
            position = position + 1;
        }
        None
    }
}

/// Creates a fully materialised domain, for the prover.
pub fn new_domain<F: IsFFTField>(parameters: &DomainParameters) -> (r: Result<
    Domain<F>,
    ProvingError,
>)
    requires
        lde_size_fits::<F>(*parameters),
    ensures
        match r {
            Ok(domain) => {
                &&& construction_error::<F>(*parameters) is None
                &&& domain.wf()
                &&& domain.scalars().describes(*parameters)
                &&& domain.lde_roots_of_unity_coset@ == domain.lde_coset()
                &&& domain.coset_offset == F::spec_from_u64(parameters.coset_offset)
                &&& domain.interpolation_domain_size == parameters.trace_length
                &&& domain.blowup_factor == parameters.blowup_factor
                &&& domain.lde_domain_size == parameters.trace_length * parameters.blowup_factor
                &&& domain.lde_roots_of_unity_coset@.len() == domain.lde_domain_size
                &&& forall|i: int|
                    0 <= i < domain.lde_domain_size
                        ==> #[trigger] domain.lde_roots_of_unity_coset@[i]
                        == domain.coset_offset.spec_mul(
                        power(domain.lde_primitive_root, i as nat),
                    )
            },
            Err(error) => construction_error::<F>(*parameters) == Some(error),
        },
{
    Domain::eager(parameters)
}

/// Creates a domain that materialises nothing, for the verifier: points are computed on demand
/// with [`Domain::lde_point`] and membership is tested by exponentiation.
pub fn new_verifier_domain<F: IsFFTField>(parameters: &DomainParameters) -> (r: Result<
    Domain<F>,
    ProvingError,
>)
    requires
        lde_size_fits::<F>(*parameters),
    ensures
        match r {
            Ok(domain) => {
                &&& construction_error::<F>(*parameters) is None
                &&& domain.wf()
                &&& domain.scalars().describes(*parameters)
                &&& domain.lde_roots_of_unity_coset@.len() == 0
                &&& domain.coset_offset == F::spec_from_u64(parameters.coset_offset)
                &&& domain.interpolation_domain_size == parameters.trace_length
                &&& domain.blowup_factor == parameters.blowup_factor
                &&& domain.lde_domain_size == parameters.trace_length * parameters.blowup_factor
            },
            Err(error) => construction_error::<F>(*parameters) == Some(error),
        },
{
    Domain::lazy(parameters)
}

} // verus!
