use stark_commit::domain::{
    domain_scalars, new_domain, new_verifier_domain, Domain, DomainParameters, ProvingError,
};
use stark_commit::field::IsField;
use stark_commit::powers::pow;
use stark_commit::roots_of_unity::get_powers_of_primitive_root_coset;
use stark_commit::stark252::Stark252;

type FE = Stark252;

fn parameters(trace_length: usize, blowup_factor: u8, coset_offset: u64) -> DomainParameters {
    DomainParameters { trace_length, blowup_factor, coset_offset }
}

fn domains() -> (Domain<FE>, Domain<FE>) {
    let parameters = parameters(16, 4, 3);
    (
        new_domain(&parameters).unwrap(),
        new_verifier_domain(&parameters).unwrap(),
    )
}

/// The trace roots of unity, which do not live in the domain.
fn trace_roots(domain: &Domain<FE>) -> Vec<FE> {
    get_powers_of_primitive_root_coset(
        domain.root_order as u64,
        domain.interpolation_domain_size,
        &FE::one(),
    )
    .unwrap()
}

fn hex(element: &FE) -> String {
    element
        .as_bytes()
        .iter()
        .map(|byte| format!("{:02x}", byte))
        .collect()
}

/// A stream of field elements that a seed determines.
struct Draws {
    state: FE,
}

impl Draws {
    fn new(seed: &[u8]) -> Draws {
        let mut state = FE::from_u64(7);
        for byte in seed {
            state = pow(&state, 300 + *byte as usize);
        }
        Draws { state }
    }

    fn sample(&mut self) -> FE {
        self.state = pow(&self.state, 5);
        self.state
    }
}

#[test]
fn verifier_domain_points_match_the_materialised_coset() {
    let (eager, lazy) = domains();
    assert!(lazy.lde_roots_of_unity_coset.is_empty());
    assert_eq!(lazy.lde_domain_size(), eager.lde_roots_of_unity_coset.len());
    assert_eq!(lazy.lde_domain_size(), 64);
    for (i, point) in eager.lde_roots_of_unity_coset.iter().enumerate() {
        assert_eq!(&lazy.lde_point(i), point);
        assert_eq!(&eager.lde_point(i), point);
    }
}

#[test]
fn membership_tests_characterise_the_domains() {
    let (eager, lazy) = domains();
    for point in &eager.lde_roots_of_unity_coset {
        assert!(lazy.is_in_lde_coset(point));
        assert!(!lazy.is_in_trace_domain(point));
    }
    for point in &trace_roots(&eager) {
        assert!(lazy.is_in_trace_domain(point));
        assert!(!lazy.is_in_lde_coset(point));
    }
    let outside = FE::from_u64(12345u64);
    assert!(!lazy.is_in_lde_coset(&outside));
    assert!(!lazy.is_in_trace_domain(&outside));
}

#[test]
fn sampling_agrees_with_the_scan_based_sampler() {
    let (eager, lazy) = domains();
    let trace = trace_roots(&eager);
    let mut scan_draws = Draws::new(b"z");
    let mut fast_draws = Draws::new(b"z");
    let scanned = loop {
        let z = scan_draws.sample();
        if !eager.lde_roots_of_unity_coset.contains(&z) && !trace.contains(&z) {
            break z;
        }
    };
    let fast = loop {
        let z = fast_draws.sample();
        if lazy.sample_z_ood(&[z]) == Some(0) {
            break z;
        }
    };
    assert_eq!(scanned, fast);
}

#[test]
fn sampling_passes_over_the_points_of_both_domains() {
    let (eager, lazy) = domains();
    let trace = trace_roots(&eager);
    let outside = FE::from_u64(12345);
    let draws = [eager.lde_point(5), trace[3], trace[0], eager.lde_point(63), outside, trace[1]];
    assert_eq!(lazy.sample_z_ood(&draws), Some(4));
    assert_eq!(eager.sample_z_ood(&draws), Some(4));
    assert_eq!(lazy.sample_z_ood(&draws[..4]), None);
    assert_eq!(lazy.sample_z_ood::<FE>(&[]), None);
}

#[test]
fn domain_values_are_the_ones_of_the_field() {
    let (eager, lazy) = domains();
    assert_eq!(lazy.root_order, 4);
    assert_eq!(lazy.blowup_factor, 4);
    assert_eq!(lazy.interpolation_domain_size, 16);
    assert_eq!(lazy.coset_offset, FE::from_u64(3));
    assert_eq!(
        hex(&lazy.trace_primitive_root),
        "07fbd38e02f014171bccca987bd1640ed512ef0164ab17cad0cb911e1030c9fd"
    );
    assert_eq!(
        hex(&lazy.lde_primitive_root),
        "021208b0b7b544e80f3074c9674e8565a58dc7653cdfca6561d5a808566afbf5"
    );
    for domain in [&eager, &lazy] {
        assert_eq!(domain.lde_point(0), FE::from_u64(3));
        assert_eq!(
            hex(&domain.lde_point(5)),
            "02274c7843f70e49433eb449e20bb781917de09aeaa07fb42ff959799d354206"
        );
        assert_eq!(
            hex(&domain.lde_point(63)),
            "006f7660c3e0c64f5673840598e6af93a7758176f9b4e276f92d27dfb8d8323d"
        );
    }
}

#[test]
fn points_beyond_the_coset_wrap_around() {
    let (eager, lazy) = domains();
    for i in 0..64 {
        assert_eq!(eager.lde_point(64 + i), eager.lde_point(i));
        assert_eq!(lazy.lde_point(64 + i), lazy.lde_point(i));
    }
}

#[test]
fn infallible_construction_gives_the_materialised_domain() {
    let domain: Domain<FE> = Domain::new(&parameters(16, 4, 3));
    assert_eq!(domain.lde_roots_of_unity_coset, domains().0.lde_roots_of_unity_coset);
}

#[test]
fn trace_lengths_must_be_powers_of_two() {
    for trace_length in [0usize, 3, 6, 12, 100, usize::MAX] {
        let refused = ProvingError::InvalidTraceLength(trace_length);
        let parameters = parameters(trace_length, 4, 3);
        assert_eq!(new_domain::<FE>(&parameters).err(), Some(refused));
        assert_eq!(new_verifier_domain::<FE>(&parameters).err(), Some(refused));
        assert_eq!(domain_scalars::<FE>(&parameters).err(), Some(refused));
    }
}

#[test]
fn shortest_trace_has_a_domain_of_one_point() {
    let domain: Domain<FE> = new_domain(&parameters(1, 1, 3)).unwrap();
    assert_eq!(domain.root_order, 0);
    assert_eq!(domain.trace_primitive_root, FE::one());
    assert_eq!(domain.lde_roots_of_unity_coset, vec![FE::from_u64(3)]);
    assert!(domain.is_in_lde_coset(&FE::from_u64(3)));
    assert!(!domain.is_in_lde_coset(&FE::one()));
    assert!(domain.is_in_trace_domain(&FE::one()));
}

#[test]
fn longest_trace_of_a_verifier_is_not_materialised() {
    let domain: Domain<FE> = new_verifier_domain(&parameters(1 << 62, 2, 3)).unwrap();
    assert_eq!(domain.lde_domain_size(), 1 << 63);
    assert_eq!(domain.root_order, 62);
    assert!(domain.is_in_lde_coset(&domain.lde_point((1 << 63) - 1)));
    assert!(!domain.is_in_lde_coset(&FE::one()));
}

#[test]
fn empty_lde_domain_is_refused() {
    let refused = Some(ProvingError::PrimitiveRootNotFound(usize::BITS as u64));
    assert_eq!(new_domain::<FE>(&parameters(16, 0, 3)).err(), refused);
    assert_eq!(new_verifier_domain::<FE>(&parameters(16, 0, 3)).err(), refused);
    assert_eq!(domain_scalars::<FE>(&parameters(16, 0, 3)).err(), refused);
}

#[test]
fn lde_sizes_must_be_powers_of_two() {
    for (trace_length, blowup_factor, order) in
        [(16usize, 3u8, 4u64), (8, 3, 3), (16, 5, 4), (16, 6, 5), (1, 7, 0), (2, 255, 1)]
    {
        let refused = Some(ProvingError::PrimitiveRootNotFound(order));
        let parameters = parameters(trace_length, blowup_factor, 3);
        assert_eq!(new_domain::<FE>(&parameters).err(), refused);
        assert_eq!(new_verifier_domain::<FE>(&parameters).err(), refused);
        assert_eq!(domain_scalars::<FE>(&parameters).err(), refused);
    }
}

#[test]
fn every_blowup_that_is_a_power_of_two_has_a_domain() {
    for order in 0..8 {
        let blowup_factor = 1u8 << order;
        let domain: Domain<FE> = new_domain(&parameters(4, blowup_factor, 3)).unwrap();
        let size = domain.lde_domain_size();
        assert_eq!(size, 4 * blowup_factor as usize);
        assert_eq!(pow(&domain.lde_primitive_root, size), FE::one());
        assert_ne!(pow(&domain.lde_primitive_root, size / 2), FE::one());
    }
}

#[test]
fn lde_points_are_distinct() {
    let (eager, _) = domains();
    let points = &eager.lde_roots_of_unity_coset;
    for i in 0..points.len() {
        for j in 0..i {
            assert_ne!(points[i], points[j]);
        }
    }
}

#[test]
fn generators_are_primitive() {
    let (_, lazy) = domains();
    assert_eq!(pow(&lazy.lde_primitive_root, 64), FE::one());
    assert_eq!(pow(&lazy.trace_primitive_root, 16), FE::one());
    for m in 1..64 {
        assert_ne!(pow(&lazy.lde_primitive_root, m), FE::one());
        if m < 16 {
            assert_ne!(pow(&lazy.trace_primitive_root, m), FE::one());
        }
    }
}

#[test]
fn offset_that_is_a_root_of_unity_makes_the_domains_overlap() {
    let domain: Domain<FE> = new_domain(&parameters(16, 4, 1)).unwrap();
    for point in &trace_roots(&domain) {
        assert!(domain.is_in_trace_domain(point));
        assert!(domain.is_in_lde_coset(point));
    }
}

#[test]
fn offset_zero_leaves_a_single_point() {
    let domain: Domain<FE> = new_domain(&parameters(16, 4, 0)).unwrap();
    let zero = FE::from_u64(0);
    assert!(domain.lde_roots_of_unity_coset.iter().all(|point| *point == zero));
    assert!(domain.is_in_lde_coset(&zero));
    assert!(!domain.is_in_lde_coset(&FE::one()));
}
