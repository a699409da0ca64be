use miniplonk::circuit::check_gates;
use miniplonk::domain::{evaluation_domain, to_coefficients, to_evaluations, vanishing_eval};
use miniplonk::example::{configure, synthesize};
use miniplonk::field::{fr_add, fr_eq, fr_invert, fr_mul, fr_neg, fr_pow, fr_sub, Fr};
use miniplonk::Error;

#[test]
fn field_arithmetic_basics() {
    let a = Fr::from_u64(5);
    let b = Fr::from_u64(7);
    assert_eq!(fr_add(a, b), Fr::from_u64(12));
    assert_eq!(fr_mul(Fr::from_u64(6), b), Fr::from_u64(42));
    assert_eq!(fr_pow(Fr::from_u64(3), 4), Fr::from_u64(81));
    // a - b + b == a even when the difference wraps.
    assert_eq!(fr_add(fr_sub(a, b), b), a);
    assert!(fr_eq(a, a));
    assert!(!fr_eq(a, b));
}

#[test]
fn field_inverse_and_negation() {
    let two = Fr::from_u64(2);
    let inv = fr_invert(two).expect("two is invertible");
    assert_eq!(fr_mul(inv, two), Fr::one());
    assert!(fr_invert(Fr::zero()).is_none());
    assert_eq!(fr_neg(Fr::zero()), Fr::zero());
    assert_eq!(fr_add(fr_neg(two), two), Fr::zero());
}

#[test]
fn domain_rejects_oversized_k() {
    assert_eq!(evaluation_domain(25).unwrap_err(), Error::DomainError);
}

#[test]
fn domain_has_expected_size() {
    let dom = evaluation_domain(3).expect("domain of size 8");
    assert_eq!(dom.n, 8);
    // omega^n == 1.
    assert_eq!(fr_pow(dom.omega, 8), Fr::one());
    assert_eq!(fr_mul(dom.omega, dom.omega_inv), Fr::one());
}

#[test]
fn transform_round_trip() {
    let dom = evaluation_domain(3).expect("domain");
    let poly: Vec<Fr> = (1u64..=8).map(Fr::from_u64).collect();
    let evals = to_evaluations(&dom, &poly);
    let back = to_coefficients(&dom, &evals);
    assert_eq!(back, poly);
}

#[test]
fn transform_round_trip_with_wrapped_values() {
    let dom = evaluation_domain(2).expect("domain");
    let poly = vec![Fr::zero(), fr_neg(Fr::one()), Fr::from_u64(123456789), Fr::one()];
    let evals = to_evaluations(&dom, &poly);
    let back = to_coefficients(&dom, &evals);
    assert_eq!(back, poly);
}

#[test]
fn vanishing_polynomial_values() {
    let dom = evaluation_domain(3).expect("domain");
    // x = 1 is the first root of unity, so x^n - 1 vanishes.
    assert_eq!(vanishing_eval(&dom, Fr::one()), Fr::zero());
    // 2^8 - 1 = 255 away from the domain.
    assert_eq!(vanishing_eval(&dom, Fr::from_u64(2)), Fr::from_u64(255));
    // Every root of unity is a zero of the vanishing polynomial.
    assert_eq!(vanishing_eval(&dom, dom.omega), Fr::zero());
}

#[test]
fn configure_builds_the_standard_shape() {
    let d = configure();
    assert_eq!(d.num_wire_cols, 3);
    assert_eq!(d.num_fixed_cols, 4);
    assert_eq!(d.gates.len(), 1);
    assert_eq!(d.gates[0].terms.len(), 4);
    assert_eq!(d.copies.len(), 1);
    assert_eq!(d.perm_enabled, vec![false, false, true]);
}

#[test]
fn synthesize_accepts_both_roots() {
    let d = configure();
    // 0 * 0 == 0 + 0.
    let a0 = synthesize(&d, Fr::from_u64(0), Fr::from_u64(0), 8).expect("witness (0, 0)");
    assert_eq!(a0.wires[2][0], Fr::zero());
    // 2 * 2 == 2 + 2.
    let a2 = synthesize(&d, Fr::from_u64(2), Fr::from_u64(2), 8).expect("witness (2, 2)");
    assert_eq!(a2.wires[2][0], Fr::from_u64(4));
    assert_eq!(a2.wires[2][1], Fr::from_u64(4));
}

#[test]
fn synthesize_rejects_non_root() {
    let d = configure();
    // 1 * 1 != 1 + 1: the copy constraint cannot hold.
    let e = synthesize(&d, Fr::from_u64(1), Fr::from_u64(1), 8).unwrap_err();
    assert_eq!(e, Error::UnsatisfiedConstraint { copy: true, index: 0, row: 0 });
}

#[test]
fn gates_vanish_on_valid_assignments() {
    let d = configure();
    for (a, b) in [(0u64, 0u64), (2, 2)] {
        let asg = synthesize(&d, Fr::from_u64(a), Fr::from_u64(b), 8).expect("valid witness");
        assert_eq!(check_gates(&d, &asg), None);
    }
    // Gate identities also vanish for witnesses that fail only the copy
    // constraint: the per-row identities hold by construction.
    let asg = synthesize(&d, Fr::from_u64(3), Fr::from_u64(5), 8);
    assert!(asg.is_err());
}

#[test]
fn lagrange_range_rejects_inverted_span() {
    let dom = evaluation_domain(3).expect("domain");
    let r = miniplonk::domain::lagrange_basis_range(&dom, Fr::from_u64(5), 2, -1);
    assert_eq!(r.unwrap_err(), Error::DomainError);
}

#[test]
fn lagrange_range_empty_is_valid() {
    let dom = evaluation_domain(3).expect("domain");
    let r = miniplonk::domain::lagrange_basis_range(&dom, Fr::from_u64(5), 0, 0).expect("empty");
    assert!(r.is_empty());
}

#[test]
fn lagrange_basis_on_a_root_of_unity() {
    let dom = evaluation_domain(3).expect("domain");
    // At x = omega^2 the basis is 1 at index 2 and 0 elsewhere, with the
    // matching index handled without division.
    let x = fr_mul(dom.omega, dom.omega);
    let l = miniplonk::domain::lagrange_basis_range(&dom, x, 0, 8).expect("range");
    for (i, li) in l.iter().enumerate() {
        if i == 2 {
            assert_eq!(*li, Fr::one());
        } else {
            assert_eq!(*li, Fr::zero());
        }
    }
}

#[test]
fn lagrange_basis_sums_to_one() {
    let dom = evaluation_domain(3).expect("domain");
    // The basis is a partition of unity at any point.
    let l = miniplonk::domain::lagrange_basis_range(&dom, Fr::from_u64(5), -4, 4).expect("range");
    let mut sum = Fr::zero();
    for li in &l {
        sum = fr_add(sum, *li);
    }
    assert_eq!(sum, Fr::one());
}

#[test]
fn vanishing_division_is_exact() {
    // (x^2 - 1) / (x^2 - 1) over n = 2 gives the constant 1.
    let num = vec![fr_neg(Fr::one()), Fr::zero(), Fr::one()];
    let q = miniplonk::poly::divide_by_vanishing(&num, 2).expect("exact division");
    assert_eq!(q, vec![Fr::one()]);
    // x + 1 is not divisible by x^2 - 1; the offending remainder index
    // is reported.
    let bad = vec![Fr::one(), Fr::one()];
    assert_eq!(miniplonk::poly::divide_by_vanishing(&bad, 2), Err(0));
}
