use stark_commit::field::{IsFFTField, IsField, IsSubFieldOf};
use stark_commit::powers::pow;
use stark_commit::roots_of_unity::{
    get_powers_of_primitive_root_coset, get_primitive_root_of_unity, FieldError,
};
use stark_commit::stark252::Stark252;

type FE = Stark252;

fn hex(element: &FE) -> String {
    element
        .as_bytes()
        .iter()
        .map(|byte| format!("{:02x}", byte))
        .collect()
}

#[test]
fn elements_serialise_to_their_montgomery_form() {
    assert_eq!(
        hex(&FE::from_u64(0)),
        "0000000000000000000000000000000000000000000000000000000000000000"
    );
    assert_eq!(
        hex(&FE::one()),
        "07fffffffffffdf0ffffffffffffffffffffffffffffffffffffffffffffffe1"
    );
    assert_eq!(
        hex(&FE::from_u64(2)),
        "07fffffffffffbd0ffffffffffffffffffffffffffffffffffffffffffffffc1"
    );
    assert_eq!(
        hex(&FE::from_u64(12345)),
        "07ffffffff9986f0fffffffffffffffffffffffffffffffffffffffffff9f8e1"
    );
    assert_eq!(
        hex(&FE::from_u64(u64::MAX)),
        "000000000004861fffffffffffffffffffffffffffffffe00000000000004420"
    );
}

#[test]
fn products_have_their_exact_values() {
    let max = FE::from_u64(u64::MAX);
    assert_eq!(
        hex(&max.mul(&max)),
        "07fffffff65e75f0ffffffffffffffe0000000000000443fffffffffff6ef7e1"
    );
    assert_eq!(FE::from_u64(6).mul(&FE::from_u64(7)), FE::from_u64(42));
    assert_eq!(max.mul(&FE::from_u64(0)), FE::from_u64(0));
    assert_eq!(max.mul(&FE::one()), max);
}

#[test]
fn powers_have_their_exact_values() {
    let three = FE::from_u64(3);
    assert_eq!(
        hex(&pow(&three, 1000)),
        "06cf1f011097a2c9fc337647d571fc04dd673cd06f58a3012680f75715b8c219"
    );
    assert_eq!(pow(&three, 0), FE::one());
    assert_eq!(pow(&FE::from_u64(0), 0), FE::one());
    assert_eq!(pow(&three, 1), three);
    assert_eq!(pow(&three, 5), FE::from_u64(243));
}

#[test]
fn multiplication_obeys_the_field_laws() {
    let (a, b, c) = (pow(&FE::from_u64(3), 900), pow(&FE::from_u64(5), 700), FE::from_u64(11));
    assert_eq!(a.mul(&b), b.mul(&a));
    assert_eq!(a.mul(&b).mul(&c), a.mul(&b.mul(&c)));
    assert!(a.equals(&a));
    assert!(!a.equals(&b));
    let same: FE = a.to_extension();
    assert_eq!(same, a);
}

#[test]
fn two_adic_root_is_the_one_of_the_field() {
    assert_eq!(FE::two_adicity(), 192);
    assert_eq!(
        hex(&FE::two_adic_root()),
        "07222e32c47afc260a35c5be60505574aaada25731fe3be94106bccd64a2bdd8"
    );
}

#[test]
fn primitive_roots_have_their_exact_values() {
    let root = |order: u64| get_primitive_root_of_unity::<FE>(order).unwrap();
    assert_eq!(root(0), FE::one());
    assert_eq!(
        hex(&root(1)),
        "0000000000000220000000000000000000000000000000000000000000000020"
    );
    assert_eq!(
        hex(&root(4)),
        "07fbd38e02f014171bccca987bd1640ed512ef0164ab17cad0cb911e1030c9fd"
    );
    assert_eq!(
        hex(&root(6)),
        "021208b0b7b544e80f3074c9674e8565a58dc7653cdfca6561d5a808566afbf5"
    );
    assert_eq!(root(192), FE::two_adic_root());
}

#[test]
fn primitive_roots_have_their_order() {
    for order in 0u64..12 {
        let root = get_primitive_root_of_unity::<FE>(order).unwrap();
        let n: usize = 1 << order;
        assert_eq!(pow(&root, n), FE::one());
        for m in 1..n {
            assert_ne!(pow(&root, m), FE::one());
        }
    }
}

#[test]
fn orders_beyond_the_two_adicity_are_refused() {
    for order in [193u64, 1000, u64::MAX] {
        assert_eq!(
            get_primitive_root_of_unity::<FE>(order),
            Err(FieldError::RootOfUnityError(order))
        );
        assert_eq!(
            get_powers_of_primitive_root_coset(order, 4, &FE::one()),
            Err(FieldError::RootOfUnityError(order))
        );
    }
}

#[test]
fn coset_points_are_the_shifted_powers() {
    let offset = FE::from_u64(3);
    let root = get_primitive_root_of_unity::<FE>(6).unwrap();
    let points = get_powers_of_primitive_root_coset(6, 64, &offset).unwrap();
    assert_eq!(points.len(), 64);
    for (i, point) in points.iter().enumerate() {
        assert_eq!(*point, offset.mul(&pow(&root, i)));
    }
    assert!(get_powers_of_primitive_root_coset(6, 0, &offset).unwrap().is_empty());
}
