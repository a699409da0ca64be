//! The evaluation domain: the 2^k-th roots of unity, the transforms
//! between coefficient and evaluation form, and the vanishing polynomial.
//!
//! A domain carries the primitive root, its inverse and the inverse of
//! the domain size. Every algebraic property the transforms and the
//! round-trip theorem rest on is re-checked at construction time, so a
//! successfully built domain carries them as proved facts whatever the
//! outside library returned for the root of unity. Construction is
//! quadratic in the domain size.
use vstd::prelude::*;
use vstd::arithmetic::power::pow;
use vstd::arithmetic::power2::pow2;
use vstd::arithmetic::div_mod::{
    lemma_add_mod_noop, lemma_mul_mod_noop, lemma_small_mod, lemma_sub_mod_noop,
};
use crate::field::{
    Fr, fval, fr_ok, fp, fr_add, fr_mul, fr_sub, fr_pow, fr_invert, fr_eq, fr_is_zero,
    fr_two_adic_root, pow_mod, lemma_pow_mod_step,
};
use crate::poly::{vals, poly_eval_v, poly_eval, geo};
use crate::Error;

verus! {

/// An evaluation domain of size n = 2^k.
#[derive(Clone, Copy, Debug)]
pub struct Domain {
    pub k: usize,
    pub n: usize,
    pub omega: Fr,
    pub omega_inv: Fr,
    pub n_inv: Fr,
}

/// Everything a well-built domain guarantees: the size is 2^k, the root
/// and the size have inverses, the root has order dividing n, and every
/// nontrivial geometric sum of powers of the root (and of its inverse)
/// vanishes. The last two facts are exactly what interpolation needs.
pub open spec fn domain_ok(dom: Domain) -> bool {
    &&& dom.n == pow2(dom.k as nat)
    &&& 1 <= dom.n
    &&& fr_ok(dom.omega) && fr_ok(dom.omega_inv) && fr_ok(dom.n_inv)
    &&& fval(dom.omega) * fval(dom.omega_inv) % fp() == 1
    &&& (dom.n as nat) * fval(dom.n_inv) % fp() == 1
    &&& pow_mod(fval(dom.omega), dom.n as nat) == 1
    &&& forall|d: int|
        1 <= d < dom.n ==> #[trigger] geo(pow_mod(fval(dom.omega), d as nat), dom.n as int) % (
        fp() as int) == 0
    &&& forall|d: int|
        1 <= d < dom.n ==> #[trigger] geo(pow_mod(fval(dom.omega_inv), d as nat), dom.n as int) % (
        fp() as int) == 0
}

/// Raises a field element to the power 2^k by repeated squaring.
pub fn fr_pow_pow2(a: Fr, k: usize) -> (r: Fr)
    requires
        fr_ok(a),
        k <= 32,
    ensures
        fval(r) == pow_mod(fval(a), pow2(k as nat)),
        fr_ok(r),
{
    let av = Ghost(fval(a));
    let mut cur = a;
    let mut j: usize = 0;
    proof {
        vstd::arithmetic::power::lemma_pow1(av@ as int);
        vstd::arithmetic::power2::lemma2_to64();
        lemma_small_mod(fval(a), fp());
    }
    while j < k
        invariant
            j <= k,
            fr_ok(cur),
            fval(cur) == pow_mod(av@, pow2(j as nat)),
        decreases k - j,
    {
        proof {
            let p = fp() as int;
            let e = pow2(j as nat);
            lemma_mul_mod_noop(pow(av@ as int, e), pow(av@ as int, e), p);
            vstd::arithmetic::power::lemma_pow_adds(av@ as int, e, e);
            vstd::arithmetic::power2::lemma_pow2_adds(j as nat, 1);
            vstd::arithmetic::power2::lemma2_to64();
            assert(pow2((j + 1) as nat) == e + e);
        }
        cur = fr_mul(cur, cur);
        j = j + 1;
    }
    cur
}

/// Decides whether the geometric sum 1 + x + ... + x^(n-1) vanishes in
/// the field.
fn geo_vanishes(x: Fr, n: usize) -> (r: bool)
    ensures
        r == (geo(fval(x), n as int) % (fp() as int) == 0),
{
    let mut acc = Fr::zero();
    let mut t = Fr::one();
    let mut j: usize = 0;
    proof {
        vstd::arithmetic::power::lemma_pow0(fval(x) as int);
        lemma_small_mod(1nat, fp());
        lemma_small_mod(0nat, fp());
    }
    while j < n
        invariant
            j <= n,
            fr_ok(acc),
            fr_ok(t),
            fval(t) == pow_mod(fval(x), j as nat),
            fval(acc) as int == geo(fval(x), j as int) % (fp() as int),
        decreases n - j,
    {
        proof {
            lemma_add_mod_noop(geo(fval(x), j as int), pow(fval(x) as int, j as nat), fp() as int);
            lemma_pow_mod_step(fval(x), j as nat);
        }
        acc = fr_add(acc, t);
        t = fr_mul(t, x);
        j = j + 1;
    }
    fr_is_zero(acc)
}

/// Builds the evaluation domain of size 2^k. The primitive root comes
/// from the outside library; its order and the vanishing of every
/// nontrivial geometric sum are checked here at run time, so a returned
/// domain satisfies `domain_ok` unconditionally. Sizes above 2^20 are
/// rejected.
pub fn evaluation_domain(k: usize) -> (r: Result<Domain, Error>)
    ensures
        r is Ok ==> domain_ok(r->Ok_0) && r->Ok_0.k == k && r->Ok_0.n == pow2(k as nat),
        k > 20 ==> r is Err,
        r is Err ==> r->Err_0 == Error::DomainError,
{
    if k > 20 {
        return Err(Error::DomainError);
    }
    let mut n: usize = 1;
    let mut i: usize = 0;
    proof {
        vstd::arithmetic::power2::lemma2_to64();
    }
    while i < k
        invariant
            i <= k <= 20,
            n == pow2(i as nat),
            n <= 0x100000,
        decreases k - i,
    {
        proof {
            vstd::arithmetic::power2::lemma_pow2_adds(i as nat, 1);
            vstd::arithmetic::power2::lemma2_to64();
            if i < 19 {
                vstd::arithmetic::power2::lemma_pow2_strictly_increases(i as nat, 19);
            }
        }
        n = n * 2;
        i = i + 1;
    }
    let root = fr_two_adic_root();
    let omega = fr_pow_pow2(root, 32 - k);
    let omega_inv = match fr_invert(omega) {
        Some(x) => x,
        None => { return Err(Error::DomainError) },
    };
    let n_inv = match fr_invert(Fr::from_u64(n as u64)) {
        Some(x) => x,
        None => { return Err(Error::DomainError) },
    };
    proof {
        vstd::arithmetic::mul::lemma_mul_is_commutative(
            fval(omega) as int,
            fval(omega_inv) as int,
        );
        vstd::arithmetic::mul::lemma_mul_is_commutative(n as int, fval(n_inv) as int);
    }
    // The root must have order dividing n.
    let wn = fr_pow_pow2(omega, k);
    if !fr_eq(wn, Fr::one()) {
        return Err(Error::DomainError);
    }
    // Every nontrivial geometric sum of powers of omega must vanish.
    let mut d: usize = 1;
    let mut wd = omega;
    proof {
        vstd::arithmetic::power::lemma_pow1(fval(omega) as int);
        lemma_small_mod(fval(omega), fp());
    }
    while d < n
        invariant
            1 <= d <= n,
            fr_ok(wd),
            fval(wd) == pow_mod(fval(omega), d as nat),
            fr_ok(omega),
            n <= 0x100000,
            forall|d2: int|
                1 <= d2 < d ==> #[trigger] geo(pow_mod(fval(omega), d2 as nat), n as int) % (
                fp() as int) == 0,
        decreases n - d,
    {
        if !geo_vanishes(wd, n) {
            return Err(Error::DomainError);
        }
        proof {
            lemma_pow_mod_step(fval(omega), d as nat);
        }
        wd = fr_mul(wd, omega);
        d = d + 1;
    }
    // And the same for its inverse.
    let mut d2: usize = 1;
    let mut wd2 = omega_inv;
    proof {
        vstd::arithmetic::power::lemma_pow1(fval(omega_inv) as int);
        lemma_small_mod(fval(omega_inv), fp());
    }
    while d2 < n
        invariant
            1 <= d2 <= n,
            fr_ok(wd2),
            fval(wd2) == pow_mod(fval(omega_inv), d2 as nat),
            fr_ok(omega_inv),
            n <= 0x100000,
            forall|e: int|
                1 <= e < d2 ==> #[trigger] geo(pow_mod(fval(omega_inv), e as nat), n as int) % (
                fp() as int) == 0,
        decreases n - d2,
    {
        if !geo_vanishes(wd2, n) {
            return Err(Error::DomainError);
        }
        proof {
            lemma_pow_mod_step(fval(omega_inv), d2 as nat);
        }
        wd2 = fr_mul(wd2, omega_inv);
        d2 = d2 + 1;
    }
    Ok(Domain { k, n, omega, omega_inv, n_inv })
}

/// Transforms a polynomial from coefficient form to evaluation form:
/// entry j of the result is the polynomial evaluated at omega^j.
pub fn to_evaluations(dom: &Domain, c: &Vec<Fr>) -> (r: Vec<Fr>)
    requires
        domain_ok(*dom),
        c@.len() == dom.n,
    ensures
        r@.len() == dom.n,
        forall|j: int|
            0 <= j < dom.n ==> fval(#[trigger] r@[j]) == poly_eval_v(
                vals(c@),
                pow_mod(fval(dom.omega), j as nat),
            ) && fr_ok(r@[j]),
{
    let mut r: Vec<Fr> = Vec::new();
    let mut xj = Fr::one();
    let mut j: usize = 0;
    proof {
        vstd::arithmetic::power::lemma_pow0(fval(dom.omega) as int);
        lemma_small_mod(1nat, fp());
    }
    while j < dom.n
        invariant
            j <= dom.n,
            r@.len() == j,
            fr_ok(xj),
            fval(xj) == pow_mod(fval(dom.omega), j as nat),
            c@.len() == dom.n,
            forall|j2: int|
                0 <= j2 < j ==> fval(#[trigger] r@[j2]) == poly_eval_v(
                    vals(c@),
                    pow_mod(fval(dom.omega), j2 as nat),
                ) && fr_ok(r@[j2]),
        decreases dom.n - j,
    {
        r.push(poly_eval(c, xj));
        proof {
            lemma_pow_mod_step(fval(dom.omega), j as nat);
        }
        xj = fr_mul(xj, dom.omega);
        j = j + 1;
    }
    r
}

/// The coefficient values that interpolate the given evaluations over a
/// domain: value k is 1/n times the evaluation vector, read as a
/// polynomial, evaluated at omega^(-k).
pub open spec fn interp_vals(e: Seq<nat>, dom: Domain) -> Seq<nat> {
    Seq::new(
        dom.n as nat,
        |k: int| fval(dom.n_inv) * poly_eval_v(e, pow_mod(fval(dom.omega_inv), k as nat)) % fp(),
    )
}

/// Transforms evaluation form back to coefficient form: coefficient k of
/// the result is 1/n times the evaluation vector, read as a polynomial,
/// evaluated at omega^(-k).
pub fn to_coefficients(dom: &Domain, e: &Vec<Fr>) -> (r: Vec<Fr>)
    requires
        domain_ok(*dom),
        e@.len() == dom.n,
    ensures
        r@.len() == dom.n,
        forall|k2: int|
            0 <= k2 < dom.n ==> fval(#[trigger] r@[k2]) == fval(dom.n_inv) * poly_eval_v(
                vals(e@),
                pow_mod(fval(dom.omega_inv), k2 as nat),
            ) % fp() && fr_ok(r@[k2]),
        vals(r@) == interp_vals(vals(e@), *dom),
{
    let mut r: Vec<Fr> = Vec::new();
    let mut xk = Fr::one();
    let mut k2: usize = 0;
    proof {
        vstd::arithmetic::power::lemma_pow0(fval(dom.omega_inv) as int);
        lemma_small_mod(1nat, fp());
    }
    while k2 < dom.n
        invariant
            k2 <= dom.n,
            r@.len() == k2,
            fr_ok(xk),
            fval(xk) == pow_mod(fval(dom.omega_inv), k2 as nat),
            e@.len() == dom.n,
            forall|k3: int|
                0 <= k3 < k2 ==> fval(#[trigger] r@[k3]) == fval(dom.n_inv) * poly_eval_v(
                    vals(e@),
                    pow_mod(fval(dom.omega_inv), k3 as nat),
                ) % fp() && fr_ok(r@[k3]),
        decreases dom.n - k2,
    {
        let ev = poly_eval(e, xk);
        r.push(fr_mul(dom.n_inv, ev));
        proof {
            lemma_pow_mod_step(fval(dom.omega_inv), k2 as nat);
        }
        xk = fr_mul(xk, dom.omega_inv);
        k2 = k2 + 1;
    }
    proof {
        assert(vals(r@) =~= interp_vals(vals(e@), *dom));
    }
    r
}

/// The value of the vanishing polynomial x^n - 1, reduced.
pub open spec fn vanishing_v(x: nat, n: nat) -> nat {
    (((pow(x as int, n) - 1) % (fp() as int))) as nat
}

/// Evaluates the vanishing polynomial of the domain at `x`.
pub fn vanishing_eval(dom: &Domain, x: Fr) -> (r: Fr)
    requires
        domain_ok(*dom),
    ensures
        fval(r) == vanishing_v(fval(x), dom.n as nat),
        fr_ok(r),
{
    let xn = fr_pow(x, dom.n as u64);
    proof {
        lemma_small_mod(1nat, fp());
        lemma_sub_mod_noop(pow(fval(x) as int, dom.n as nat), 1int, fp() as int);
    }
    fr_sub(xn, Fr::one())
}


/// The index in 0..n that a (possibly negative) rotation names.
pub open spec fn rot_index(n: int, i: int) -> int {
    ((i % n) + n) % n
}

/// Whether the Lagrange value at `x` for this index is computable: either
/// the boundary case (x is that root of unity) or the denominator
/// n * (x - omega^idx) is nonzero in the field.
pub open spec fn lagrange_defined(dom: Domain, xv: nat, idx: int) -> bool {
    let p = fp() as int;
    let wi = pow_mod(fval(dom.omega), idx as nat);
    xv == wi || (dom.n * ((xv - wi) % p)) % p != 0
}

/// What a Lagrange basis value must satisfy at `x`: on the matching root
/// of unity it is one (computed without any division), and elsewhere it
/// solves lv * (n * (x - omega^idx)) == (x^n - 1) * omega^idx in the
/// field, the closed form L_idx(x) = (x^n - 1) * omega^idx / (n * (x - omega^idx)).
pub open spec fn lagrange_rel(dom: Domain, xv: nat, idx: int, lv: nat) -> bool {
    let p = fp() as int;
    let wi = pow_mod(fval(dom.omega), idx as nat) as int;
    if xv == wi {
        lv == 1
    } else {
        (lv * ((dom.n * ((xv - wi) % p)) % p)) % p == ((vanishing_v(xv, dom.n as nat) * wi) % p)
    }
}

/// Evaluates the Lagrange basis polynomials for every rotation in
/// [rot_start, rot_end) at `x`. An inverted range is a `DomainError`; an
/// empty range is valid and contributes nothing. Landing exactly on a
/// root of unity is handled as a boundary case without division.
pub fn lagrange_basis_range(dom: &Domain, x: Fr, rot_start: i64, rot_end: i64) -> (r: Result<
    Vec<Fr>,
    Error,
>)
    requires
        domain_ok(*dom),
        fr_ok(x),
        -0x100000 <= rot_start <= 0x100000,
        -0x100000 <= rot_end <= 0x100000,
    ensures
        r is Err ==> r->Err_0 == Error::DomainError,
        r is Ok <==> (rot_start <= rot_end && (forall|j: int|
            0 <= j < rot_end - rot_start ==> #[trigger] lagrange_defined(
                *dom,
                fval(x),
                rot_index(dom.n as int, rot_start + j),
            ))),
        r is Ok ==> {
            let out = r->Ok_0;
            &&& out@.len() == rot_end - rot_start
            &&& forall|j: int|
                0 <= j < out@.len() ==> lagrange_rel(
                    *dom,
                    fval(x),
                    rot_index(dom.n as int, rot_start + j),
                    fval(#[trigger] out@[j]),
                ) && fr_ok(out@[j])
        },
{
    if rot_end < rot_start {
        return Err(Error::DomainError);
    }
    let n = dom.n;
    let n_fr = Fr::from_u64(n as u64);
    let vanish = vanishing_eval(dom, x);
    let mut out: Vec<Fr> = Vec::new();
    let mut rot: i64 = rot_start;
    while rot < rot_end
        invariant
            rot_start <= rot <= rot_end,
            -0x100000 <= rot_start <= 0x100000,
            -0x100000 <= rot_end <= 0x100000,
            domain_ok(*dom),
            fr_ok(x),
            n == dom.n,
            fval(n_fr) == n,
            fr_ok(n_fr),
            fval(vanish) == vanishing_v(fval(x), dom.n as nat),
            fr_ok(vanish),
            out@.len() == rot - rot_start,
            forall|j: int|
                0 <= j < out@.len() ==> lagrange_rel(
                    *dom,
                    fval(x),
                    rot_index(dom.n as int, rot_start + j),
                    fval(#[trigger] out@[j]),
                ) && fr_ok(out@[j]),
            forall|j: int|
                0 <= j < rot - rot_start ==> #[trigger] lagrange_defined(
                    *dom,
                    fval(x),
                    rot_index(dom.n as int, rot_start + j),
                ),
        decreases rot_end - rot,
    {
        let idx: usize = if rot >= 0 {
            (rot as usize) % n
        } else {
            let m = ((-rot) as usize) % n;
            if m == 0 {
                0
            } else {
                n - m
            }
        };
        proof {
            lemma_rot_index(dom.n as int, rot as int, idx as int);
        }
        let wi = fr_pow(dom.omega, idx as u64);
        let lv = if fr_eq(x, wi) {
            Fr::one()
        } else {
            let sub = fr_sub(x, wi);
            let denom = fr_mul(n_fr, sub);
            let dinv = match fr_invert(denom) {
                Some(d) => d,
                None => {
                    proof {
                        assert(!lagrange_defined(*dom, fval(x), idx as int));
                        assert(0 <= rot - rot_start < rot_end - rot_start);
                        assert(rot_index(dom.n as int, rot_start + (rot - rot_start)) == idx);
                    }
                    return Err(Error::DomainError)
                },
            };
            let num = fr_mul(vanish, wi);
            let l = fr_mul(num, dinv);
            proof {
                lemma_cancel_inverse(fval(num), fval(dinv), fval(denom));
            }
            l
        };
        proof {
            lemma_small_mod(1nat, fp());
        }
        out.push(lv);
        rot = rot + 1;
    }
    Ok(out)
}

/// The two branch computations of a rotation's index agree with the
/// mathematical remainder.
proof fn lemma_rot_index(n: int, i: int, idx: int)
    requires
        n >= 1,
        0 <= idx < n,
        i >= 0 ==> idx == i % n,
        i < 0 ==> (((0 - i) % n == 0 && idx == 0) || idx == n - ((0 - i) % n)),
    ensures
        idx == rot_index(n, i),
{
    if i >= 0 {
        vstd::arithmetic::div_mod::lemma_mod_bound(i, n);
        lemma_small_mod((i % n) as nat, n as nat);
    } else {
        let k = 0 - i;
        vstd::arithmetic::div_mod::lemma_fundamental_div_mod(k, n);
        let q = k / n;
        let rr = k % n;
        vstd::arithmetic::div_mod::lemma_mod_bound(k, n);
        if rr == 0 {
            assert(i == (0 - q) * n + 0) by (nonlinear_arith)
                requires
                    i == 0 - k,
                    k == n * q + rr,
                    rr == 0,
            ;
            vstd::arithmetic::div_mod::lemma_fundamental_div_mod_converse_mod(i, n, 0 - q, 0);
            lemma_small_mod(0nat, n as nat);
        } else {
            assert(i == (0 - q - 1) * n + (n - rr)) by (nonlinear_arith)
                requires
                    i == 0 - k,
                    k == n * q + rr,
            ;
            vstd::arithmetic::div_mod::lemma_fundamental_div_mod_converse_mod(
                i,
                n,
                0 - q - 1,
                n - rr,
            );
            lemma_small_mod((n - rr) as nat, n as nat);
        }
    }
    vstd::arithmetic::div_mod::lemma_mod_add_multiples_vanish(idx, n);
    lemma_small_mod(idx as nat, n as nat);
}

/// Multiplying by a value and then by its inverse leaves a reduced value
/// unchanged modulo the characteristic.
pub proof fn lemma_cancel_inverse(a: nat, iv: nat, d: nat)
    requires
        a < fp(),
        iv * d % fp() == 1,
    ensures
        ((a * iv) % fp()) * d % fp() == a,
{
    let p = fp() as int;
    vstd::arithmetic::div_mod::lemma_mul_mod_noop_left((a * iv) as int, d as int, p);
    vstd::arithmetic::mul::lemma_mul_is_associative(a as int, iv as int, d as int);
    vstd::arithmetic::div_mod::lemma_mul_mod_noop_right(a as int, (iv * d) as int, p);
    lemma_small_mod(a, fp());
}

} // verus!
