//! Elements of the BLS12-381 scalar field.
//!
//! A field element is held as four little-endian 64-bit limbs in canonical
//! (fully reduced) form, so that the mathematical value of an element is a
//! plain function of its limbs and two elements are equal exactly when
//! their limbs are. The modular arithmetic itself is delegated to the
//! outside pairing library through trusted wrappers whose contracts state
//! the result modulo the field characteristic.
use vstd::prelude::*;
use vstd::arithmetic::power::pow;

verus! {

/// The characteristic of the BLS12-381 scalar field.
pub open spec fn fp() -> nat {
    52435875175126190479447740508185965837690552500527637822603658699938581184513nat
}

/// An element of the scalar field, as four little-endian 64-bit limbs.
#[derive(Clone, Copy, Debug, PartialEq, Eq, Structural)]
pub struct Fr {
    pub l0: u64,
    pub l1: u64,
    pub l2: u64,
    pub l3: u64,
}

/// The mathematical value of a field element.
pub open spec fn fval(a: Fr) -> nat {
    (a.l0 + a.l1 * 0x10000000000000000int
        + a.l2 * 0x100000000000000000000000000000000int
        + a.l3 * 0x1000000000000000000000000000000000000000000000000int) as nat
}

/// A field element is well formed when it is fully reduced.
pub open spec fn fr_ok(a: Fr) -> bool {
    fval(a) < fp()
}

/// Modular exponentiation, the reference semantics of `fr_pow`.
pub open spec fn pow_mod(b: nat, e: nat) -> nat {
    (pow(b as int, e) % (fp() as int)) as nat
}

impl Fr {
    /// The additive identity.
    pub fn zero() -> (r: Fr)
        ensures
            fval(r) == 0,
            fr_ok(r),
    {
        Fr { l0: 0, l1: 0, l2: 0, l3: 0 }
    }

    /// The multiplicative identity.
    pub fn one() -> (r: Fr)
        ensures
            fval(r) == 1,
            fr_ok(r),
    {
        Fr { l0: 1, l1: 0, l2: 0, l3: 0 }
    }

    /// Embeds a machine integer, which is always below the characteristic.
    pub fn from_u64(x: u64) -> (r: Fr)
        ensures
            fval(r) == x,
            fr_ok(r),
    {
        Fr { l0: x, l1: 0, l2: 0, l3: 0 }
    }
}

/// Two field elements with the same value have the same limbs.
pub proof fn lemma_fval_injective(a: Fr, b: Fr)
    requires
        fval(a) == fval(b),
    ensures
        a == b,
{
    let m: int = 0x10000000000000000;
    assert(a.l0 == b.l0 && a.l1 == b.l1 && a.l2 == b.l2 && a.l3 == b.l3) by (nonlinear_arith)
        requires
            a.l0 < m && a.l1 < m && a.l2 < m && a.l3 < m,
            b.l0 < m && b.l1 < m && b.l2 < m && b.l3 < m,
            a.l0 + a.l1 * m + a.l2 * (m * m) + a.l3 * (m * (m * m))
                == b.l0 + b.l1 * m + b.l2 * (m * m) + b.l3 * (m * (m * m)),
    ;
}

/// Relies on bls12_381::Scalar: addition in the scalar field; `from_raw`
/// embeds little-endian limbs reducing modulo the characteristic and
/// `to_bytes` returns the canonical little-endian representation.
#[verifier::external_body]
pub fn fr_add(a: Fr, b: Fr) -> (r: Fr)
    ensures
        fval(r) == (fval(a) + fval(b)) % fp(),
        fr_ok(r),
{
    let x = bls12_381::Scalar::from_raw([a.l0, a.l1, a.l2, a.l3]);
    let y = bls12_381::Scalar::from_raw([b.l0, b.l1, b.l2, b.l3]);
    let t = (x + y).to_bytes();
    Fr {
        l0: u64::from_le_bytes(t[0..8].try_into().unwrap()),
        l1: u64::from_le_bytes(t[8..16].try_into().unwrap()),
        l2: u64::from_le_bytes(t[16..24].try_into().unwrap()),
        l3: u64::from_le_bytes(t[24..32].try_into().unwrap()),
    }
}

/// Relies on bls12_381::Scalar: multiplication in the scalar field.
#[verifier::external_body]
pub fn fr_mul(a: Fr, b: Fr) -> (r: Fr)
    ensures
        fval(r) == (fval(a) * fval(b)) % fp(),
        fr_ok(r),
{
    let x = bls12_381::Scalar::from_raw([a.l0, a.l1, a.l2, a.l3]);
    let y = bls12_381::Scalar::from_raw([b.l0, b.l1, b.l2, b.l3]);
    let t = (x * y).to_bytes();
    Fr {
        l0: u64::from_le_bytes(t[0..8].try_into().unwrap()),
        l1: u64::from_le_bytes(t[8..16].try_into().unwrap()),
        l2: u64::from_le_bytes(t[16..24].try_into().unwrap()),
        l3: u64::from_le_bytes(t[24..32].try_into().unwrap()),
    }
}

/// Relies on bls12_381::Scalar: additive negation in the scalar field.
#[verifier::external_body]
pub fn fr_neg(a: Fr) -> (r: Fr)
    ensures
        fval(r) as int == (fp() - fval(a)) % (fp() as int),
        fr_ok(r),
{
    let x = bls12_381::Scalar::from_raw([a.l0, a.l1, a.l2, a.l3]);
    let t = (-x).to_bytes();
    Fr {
        l0: u64::from_le_bytes(t[0..8].try_into().unwrap()),
        l1: u64::from_le_bytes(t[8..16].try_into().unwrap()),
        l2: u64::from_le_bytes(t[16..24].try_into().unwrap()),
        l3: u64::from_le_bytes(t[24..32].try_into().unwrap()),
    }
}

/// Relies on bls12_381::Scalar::invert: the multiplicative inverse,
/// which exists exactly for the nonzero elements. Only reduced inputs
/// are admitted: on an unreduced multiple of the characteristic the
/// outside call would return `None` although the limb value is nonzero.
#[verifier::external_body]
pub fn fr_invert(a: Fr) -> (r: Option<Fr>)
    requires
        fr_ok(a),
    ensures
        r is Some <==> fval(a) != 0,
        r is Some ==> fval(r->Some_0) * fval(a) % fp() == 1 && fr_ok(r->Some_0),
{
    let x = bls12_381::Scalar::from_raw([a.l0, a.l1, a.l2, a.l3]);
    match Option::<bls12_381::Scalar>::from(x.invert()) {
        None => None,
        Some(s) => {
            let t = s.to_bytes();
            Some(Fr {
                l0: u64::from_le_bytes(t[0..8].try_into().unwrap()),
                l1: u64::from_le_bytes(t[8..16].try_into().unwrap()),
                l2: u64::from_le_bytes(t[16..24].try_into().unwrap()),
                l3: u64::from_le_bytes(t[24..32].try_into().unwrap()),
            })
        }
    }
}

/// Relies on bls12_381::Scalar::ROOT_OF_UNITY: a root of unity of the
/// maximal two-adic order. The library re-checks at run time every
/// property its domains need, so only well-formedness is assumed.
#[verifier::external_body]
pub fn fr_two_adic_root() -> (r: Fr)
    ensures
        fr_ok(r),
{
    let t = <bls12_381::Scalar as ff::PrimeField>::ROOT_OF_UNITY.to_bytes();
    Fr {
        l0: u64::from_le_bytes(t[0..8].try_into().unwrap()),
        l1: u64::from_le_bytes(t[8..16].try_into().unwrap()),
        l2: u64::from_le_bytes(t[16..24].try_into().unwrap()),
        l3: u64::from_le_bytes(t[24..32].try_into().unwrap()),
    }
}

/// Value equality, decided on the canonical limbs.
pub fn fr_eq(a: Fr, b: Fr) -> (r: bool)
    ensures
        r == (fval(a) == fval(b)),
{
    if a == b {
        true
    } else {
        proof {
            if fval(a) == fval(b) {
                lemma_fval_injective(a, b);
            }
        }
        false
    }
}

/// Test against the additive identity.
pub fn fr_is_zero(a: Fr) -> (r: bool)
    ensures
        r == (fval(a) == 0),
{
    fr_eq(a, Fr { l0: 0, l1: 0, l2: 0, l3: 0 })
}

/// Subtraction, as addition of the negation.
pub fn fr_sub(a: Fr, b: Fr) -> (r: Fr)
    requires
        fr_ok(b),
    ensures
        fval(r) as int == (fval(a) - fval(b)) % (fp() as int),
        fr_ok(r),
{
    let n = fr_neg(b);
    let r = fr_add(a, n);
    proof {
        let p = fp() as int;
        let av = fval(a) as int;
        let bv = fval(b) as int;
        if bv == 0 {
            vstd::arithmetic::div_mod::lemma_small_mod(0nat, fp());
        } else {
            vstd::arithmetic::div_mod::lemma_small_mod((fp() - fval(b)) as nat, fp());
        }
        vstd::arithmetic::div_mod::lemma_mod_add_multiples_vanish(av - bv, p);
    }
    r
}

/// Exponentiation by a machine integer, by repeated multiplication.
pub fn fr_pow(a: Fr, e: u64) -> (r: Fr)
    ensures
        fval(r) == pow_mod(fval(a), e as nat),
        fr_ok(r),
{
    let mut acc = Fr::one();
    let mut i: u64 = 0;
    proof {
        vstd::arithmetic::power::lemma_pow0(fval(a) as int);
        vstd::arithmetic::div_mod::lemma_small_mod(1nat, fp());
    }
    while i < e
        invariant
            i <= e,
            fr_ok(acc),
            fval(acc) == pow_mod(fval(a), i as nat),
        decreases e - i,
    {
        proof {
            lemma_pow_mod_step(fval(a), i as nat);
        }
        acc = fr_mul(acc, a);
        i = i + 1;
    }
    acc
}

/// One step of modular exponentiation: multiplying a reduced power by the
/// base and reducing again advances the exponent by one.
pub proof fn lemma_pow_mod_step(b: nat, e: nat)
    ensures
        pow_mod(b, e) * b % fp() == pow_mod(b, (e + 1) as nat),
{
    let p = fp() as int;
    let bi = b as int;
    vstd::arithmetic::power::lemma_pow1(bi);
    vstd::arithmetic::power::lemma_pow_adds(bi, e, 1);
    vstd::arithmetic::div_mod::lemma_mul_mod_noop_left(pow(bi, e), bi, p);
}

} // verus!
