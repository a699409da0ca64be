//! The KZG polynomial commitment scheme: structured setup, commitment,
//! single and batched opening proofs, and the pairing-based verification
//! equation. Curve points are carried as their compressed encodings;
//! group operations and the pairing are supplied by the outside pairing
//! library and named, so every contract here pins results down to those
//! names.
use vstd::prelude::*;
use group::Curve;
use bls12_381::{G1Affine, G1Projective, G2Affine, G2Projective, Scalar};
use rand::{Rng, SeedableRng};
use crate::field::{Fr, fval, fr_ok, fp, fr_add, fr_mul, fr_neg, pow_mod, lemma_pow_mod_step};
use crate::poly::{vals, poly_eval_v, poly_eval};
use crate::Error;

verus! {

/// What scalar multiplication of the G1 generator returns.
pub uninterp spec fn g1_gen_mul_of(s: nat) -> Seq<u8>;

/// What scalar multiplication of a compressed G1 point returns.
pub uninterp spec fn g1_mul_of(p: Seq<u8>, s: nat) -> Seq<u8>;

/// What addition of two compressed G1 points returns.
pub uninterp spec fn g1_add_of(a: Seq<u8>, b: Seq<u8>) -> Seq<u8>;

/// What scalar multiplication of the G2 generator returns.
pub uninterp spec fn g2_gen_mul_of(s: nat) -> Seq<u8>;

/// What addition of two compressed G2 points returns.
pub uninterp spec fn g2_add_of(a: Seq<u8>, b: Seq<u8>) -> Seq<u8>;

/// Whether the pairings e(a1, b1) and e(a2, b2) agree.
pub uninterp spec fn pairing_eq_of(a1: Seq<u8>, b1: Seq<u8>, a2: Seq<u8>, b2: Seq<u8>) -> bool;

/// Whether 48 bytes are a valid compressed G1 encoding (what
/// `G1Affine::from_compressed` accepts: a function of the bytes alone).
pub uninterp spec fn g1_decodes(p: Seq<u8>) -> bool;

/// Whether 96 bytes are a valid compressed G2 encoding.
pub uninterp spec fn g2_decodes(p: Seq<u8>) -> bool;

/// Relies on bls12_381::G1Affine: generator, scalar multiplication and
/// compression; the result depends on the scalar alone, and the encoding
/// of a group element always decodes back.
#[verifier::external_body]
pub fn g1_gen_mul(s: Fr) -> (r: Vec<u8>)
    requires
        fr_ok(s),
    ensures
        r@ == g1_gen_mul_of(fval(s)),
        r@.len() == 48,
        g1_decodes(r@),
{
    let x = Scalar::from_raw([s.l0, s.l1, s.l2, s.l3]);
    let p = G1Affine::generator() * x;
    p.to_affine().to_compressed().to_vec()
}

/// Relies on G1Affine::from_compressed and scalar
/// multiplication; `None` exactly when the bytes decode to no point.
#[verifier::external_body]
pub fn g1_mul(p: &Vec<u8>, s: Fr) -> (r: Option<Vec<u8>>)
    requires
        p@.len() == 48,
        fr_ok(s),
    ensures
        r is Some <==> g1_decodes(p@),
        r is Some ==> r->Some_0@ == g1_mul_of(p@, fval(s)) && r->Some_0@.len() == 48 && g1_decodes(
            r->Some_0@,
        ),
{
    let arr: [u8; 48] = p.as_slice().try_into().unwrap();
    let pt: Option<G1Affine> = G1Affine::from_compressed(&arr).into();
    let x = Scalar::from_raw([s.l0, s.l1, s.l2, s.l3]);
    pt.map(|q| (q * x).to_affine().to_compressed().to_vec())
}

/// Relies on bls12_381 G1 group addition; `None` exactly when either
/// encoding decodes to no point.
#[verifier::external_body]
pub fn g1_add(a: &Vec<u8>, b: &Vec<u8>) -> (r: Option<Vec<u8>>)
    requires
        a@.len() == 48,
        b@.len() == 48,
    ensures
        r is Some <==> (g1_decodes(a@) && g1_decodes(b@)),
        r is Some ==> r->Some_0@ == g1_add_of(a@, b@) && r->Some_0@.len() == 48 && g1_decodes(
            r->Some_0@,
        ),
{
    let aa: [u8; 48] = a.as_slice().try_into().unwrap();
    let bb: [u8; 48] = b.as_slice().try_into().unwrap();
    let pa: Option<G1Affine> = G1Affine::from_compressed(&aa).into();
    let pb: Option<G1Affine> = G1Affine::from_compressed(&bb).into();
    match (pa, pb) {
        (Some(pa), Some(pb)) => Some(
            (G1Projective::from(pa) + G1Projective::from(pb)).to_affine()
                .to_compressed().to_vec(),
        ),
        _ => None,
    }
}

/// Relies on bls12_381::G2Affine: generator, scalar multiplication and
/// compression; the result depends on the scalar alone, and the encoding
/// of a group element always decodes back.
#[verifier::external_body]
pub fn g2_gen_mul(s: Fr) -> (r: Vec<u8>)
    requires
        fr_ok(s),
    ensures
        r@ == g2_gen_mul_of(fval(s)),
        r@.len() == 96,
        g2_decodes(r@),
{
    let x = Scalar::from_raw([s.l0, s.l1, s.l2, s.l3]);
    let p = G2Affine::generator() * x;
    p.to_affine().to_compressed().to_vec()
}

/// Relies on bls12_381 G2 group addition; `None` exactly when either
/// encoding decodes to no point.
#[verifier::external_body]
pub fn g2_add(a: &Vec<u8>, b: &Vec<u8>) -> (r: Option<Vec<u8>>)
    requires
        a@.len() == 96,
        b@.len() == 96,
    ensures
        r is Some <==> (g2_decodes(a@) && g2_decodes(b@)),
        r is Some ==> r->Some_0@ == g2_add_of(a@, b@) && r->Some_0@.len() == 96 && g2_decodes(
            r->Some_0@,
        ),
{
    let aa: [u8; 96] = a.as_slice().try_into().unwrap();
    let bb: [u8; 96] = b.as_slice().try_into().unwrap();
    let pa: Option<G2Affine> = G2Affine::from_compressed(&aa).into();
    let pb: Option<G2Affine> = G2Affine::from_compressed(&bb).into();
    match (pa, pb) {
        (Some(pa), Some(pb)) => Some(
            (G2Projective::from(pa) + G2Projective::from(pb)).to_affine()
                .to_compressed().to_vec(),
        ),
        _ => None,
    }
}

/// Relies on bls12_381::pairing: decides whether e(a1, b1) == e(a2, b2);
/// `None` exactly when any encoding decodes to no point.
#[verifier::external_body]
pub fn pairing_eq(a1: &Vec<u8>, b1: &Vec<u8>, a2: &Vec<u8>, b2: &Vec<u8>) -> (r: Option<bool>)
    requires
        a1@.len() == 48,
        b1@.len() == 96,
        a2@.len() == 48,
        b2@.len() == 96,
    ensures
        r is Some <==> (g1_decodes(a1@) && g2_decodes(b1@) && g1_decodes(a2@) && g2_decodes(b2@)),
        r is Some ==> r->Some_0 == pairing_eq_of(a1@, b1@, a2@, b2@),
{
    let p1: G1Affine = Option::from(G1Affine::from_compressed(a1.as_slice().try_into().unwrap()))?;
    let q1: G2Affine = Option::from(G2Affine::from_compressed(b1.as_slice().try_into().unwrap()))?;
    let p2: G1Affine = Option::from(G1Affine::from_compressed(a2.as_slice().try_into().unwrap()))?;
    let q2: G2Affine = Option::from(G2Affine::from_compressed(b2.as_slice().try_into().unwrap()))?;
    Some(bls12_381::pairing(&p1, &q1) == bls12_381::pairing(&p2, &q2))
}


/// What the seeded generator produces: a byte stream depending on the
/// seed and the length alone.
pub uninterp spec fn rng_of(seed: Seq<u8>, count: nat) -> Seq<u8>;

/// Relies on rand::rngs::StdRng seeded from the given bytes: the output
/// stream is a deterministic function of the seed and the length, so
/// setup and blinding are reproducible for a fixed seed.
#[verifier::external_body]
pub fn rng_bytes(seed: &Vec<u8>, count: usize) -> (r: Vec<u8>)
    requires
        seed@.len() == 32,
    ensures
        r@ == rng_of(seed@, count as nat),
        r@.len() == count,
{
    let arr: [u8; 32] = seed.as_slice().try_into().unwrap();
    let mut rng = rand::rngs::StdRng::from_seed(arr);
    let mut out = vec![0u8; count];
    rng.fill_bytes(&mut out);
    out
}

/// The structured reference string: the powers of a secret scalar on G1,
/// and the generator and the secret's image on G2.
pub struct Srs {
    pub g1_powers: Vec<Vec<u8>>,
    pub g2_gen: Vec<u8>,
    pub g2_tau: Vec<u8>,
}

/// Shape of a well-formed reference string.
pub open spec fn srs_wf(srs: Srs) -> bool {
    &&& srs.g1_powers@.len() >= 1
    &&& forall|i: int|
        0 <= i < srs.g1_powers@.len() ==> (#[trigger] srs.g1_powers@[i])@.len() == 48 && g1_decodes(
            srs.g1_powers@[i]@,
        )
    &&& srs.g2_gen@.len() == 96 && g2_decodes(srs.g2_gen@)
    &&& srs.g2_tau@.len() == 96 && g2_decodes(srs.g2_tau@)
}

/// The powers are those of one secret scalar, never published.
pub open spec fn srs_consistent(srs: Srs, tau: nat) -> bool {
    &&& tau < fp()
    &&& forall|i: int|
        0 <= i < srs.g1_powers@.len() ==> (#[trigger] srs.g1_powers@[i])@ == g1_gen_mul_of(
            pow_mod(tau, i as nat),
        )
    &&& srs.g2_gen@ == g2_gen_mul_of(1)
    &&& srs.g2_tau@ == g2_gen_mul_of(tau)
}

/// The trusted setup: derives a secret scalar from the injected
/// randomness, publishes its powers on both groups, and forgets it.
pub fn setup(max_degree: usize, seed: &Vec<u8>) -> (r: Srs)
    requires
        seed@.len() == 32,
        max_degree < usize::MAX,
    ensures
        srs_wf(r),
        r.g1_powers@.len() == max_degree + 1,
        srs_consistent(
            r,
            (crate::transcript::le_val(rng_of(seed@, 64), 64) % (fp() as int)) as nat,
        ),
{
    let wide = rng_bytes(seed, 64);
    let tau = crate::transcript::fr_from_wide(&wide);
    let mut powers: Vec<Vec<u8>> = Vec::new();
    let mut tp = Fr::one();
    let mut i: usize = 0;
    proof {
        vstd::arithmetic::power::lemma_pow0(fval(tau) as int);
        vstd::arithmetic::div_mod::lemma_small_mod(1nat, fp());
    }
    while i <= max_degree
        invariant
            i <= max_degree + 1,
            max_degree < usize::MAX,
            powers@.len() == i,
            fr_ok(tp),
            fr_ok(tau),
            fval(tp) == pow_mod(fval(tau), i as nat),
            forall|j: int|
                0 <= j < i ==> (#[trigger] powers@[j])@ == g1_gen_mul_of(pow_mod(fval(tau), j as nat))
                    && powers@[j]@.len() == 48 && g1_decodes(powers@[j]@),
        decreases max_degree + 1 - i,
    {
        powers.push(g1_gen_mul(tp));
        proof {
            lemma_pow_mod_step(fval(tau), i as nat);
        }
        tp = fr_mul(tp, tau);
        i = i + 1;
    }
    let g2_gen = g2_gen_mul(Fr::one());
    let g2_tau = g2_gen_mul(tau);
    let srs = Srs { g1_powers: powers, g2_gen, g2_tau };
    proof {
        assert(srs_consistent(srs, fval(tau)));
    }
    srs
}

/// The multi-scalar combination Sum c_i * P_i, folded left to right from
/// the zero point.
pub open spec fn msm_of(ps: Seq<Seq<u8>>, cs: Seq<nat>, m: int) -> Seq<u8>
    decreases m,
{
    if m <= 0 {
        g1_gen_mul_of(0)
    } else {
        g1_add_of(msm_of(ps, cs, m - 1), g1_mul_of(ps[m - 1], cs[m - 1]))
    }
}

/// The views of a vector of byte vectors.
pub open spec fn views(s: Seq<Vec<u8>>) -> Seq<Seq<u8>> {
    Seq::new(s.len(), |i: int| s[i]@)
}

/// Commits to a polynomial: the combination of the reference string's
/// powers with the coefficients. Fails with `DegreeOverflow` when the
/// polynomial exceeds the degree the setup supports.
pub fn commit(srs: &Srs, poly: &Vec<Fr>) -> (r: Result<Vec<u8>, Error>)
    requires
        srs_wf(*srs),
        forall|i: int| 0 <= i < poly@.len() ==> fr_ok(#[trigger] poly@[i]),
    ensures
        r is Ok <==> poly@.len() <= srs.g1_powers@.len(),
        r is Err ==> r->Err_0 == Error::DegreeOverflow,
        r is Ok ==> r->Ok_0@ == msm_of(views(srs.g1_powers@), vals(poly@), poly@.len() as int)
            && r->Ok_0@.len() == 48 && g1_decodes(r->Ok_0@),
{
    if poly.len() > srs.g1_powers.len() {
        return Err(Error::DegreeOverflow);
    }
    let mut acc = g1_gen_mul(Fr::zero());
    let mut i: usize = 0;
    while i < poly.len()
        invariant
            i <= poly@.len(),
            poly@.len() <= srs.g1_powers@.len(),
            srs_wf(*srs),
            forall|j: int| 0 <= j < poly@.len() ==> fr_ok(#[trigger] poly@[j]),
            acc@ == msm_of(views(srs.g1_powers@), vals(poly@), i as int),
            acc@.len() == 48,
            g1_decodes(acc@),
        decreases poly@.len() - i,
    {
        let t = match g1_mul(&srs.g1_powers[i], poly[i]) {
            Some(t) => t,
            None => { return Err(Error::ConstraintViolation) },
        };
        acc = match g1_add(&acc, &t) {
            Some(a) => a,
            None => { return Err(Error::ConstraintViolation) },
        };
        i = i + 1;
    }
    Ok(acc)
}

/// The coefficients of (p(X) - p(z)) / (X - z), by synthetic division:
/// q[i] = p[i+1] + z * q[i+1], reading from the top coefficient down.
pub open spec fn qcoef(v: Seq<nat>, z: nat, i: int) -> nat
    decreases v.len() - i,
{
    if i < 0 || i >= v.len() as int - 1 {
        0nat
    } else {
        ((v[i + 1] + z * qcoef(v, z, i + 1)) % fp()) as nat
    }
}

/// The full quotient coefficient sequence of a division by X - z.
pub open spec fn qvals(v: Seq<nat>, z: nat) -> Seq<nat> {
    Seq::new((v.len() - 1) as nat, |i: int| qcoef(v, z, i))
}

/// Opens one polynomial at one point: returns the evaluation and the
/// commitment to the division witness (p(X) - p(z)) / (X - z).
pub fn open_single(srs: &Srs, poly: &Vec<Fr>, z: Fr) -> (r: Result<(Fr, Vec<u8>), Error>)
    requires
        srs_wf(*srs),
        fr_ok(z),
        poly@.len() >= 1,
        forall|i: int| 0 <= i < poly@.len() ==> fr_ok(#[trigger] poly@[i]),
    ensures
        r is Ok ==> {
            let (value, w) = r->Ok_0;
            &&& fval(value) == poly_eval_v(vals(poly@), fval(z))
            &&& fr_ok(value)
            &&& w@ == msm_of(
                views(srs.g1_powers@),
                qvals(vals(poly@), fval(z)),
                poly@.len() - 1,
            )
            &&& w@.len() == 48
            &&& g1_decodes(w@)
        },
        r is Ok <==> poly@.len() <= srs.g1_powers@.len() + 1,
        r is Err ==> r->Err_0 == Error::DegreeOverflow,
{
    let value = poly_eval(poly, z);
    let q = quotient_by_linear(poly, z);
    let w = match commit(srs, &q) {
        Ok(w) => w,
        Err(e) => { return Err(e) },
    };
    proof {
        assert(vals(q@) =~= qvals(vals(poly@), fval(z)));
    }
    Ok((value, w))
}

/// Divides p(X) - p(z) by X - z, producing the quotient coefficients.
pub fn quotient_by_linear(poly: &Vec<Fr>, z: Fr) -> (q: Vec<Fr>)
    requires
        fr_ok(z),
        poly@.len() >= 1,
        forall|i: int| 0 <= i < poly@.len() ==> fr_ok(#[trigger] poly@[i]),
    ensures
        q@.len() == poly@.len() - 1,
        forall|i: int| 0 <= i < q@.len() ==> fval(#[trigger] q@[i]) == qcoef(vals(poly@), fval(z), i)
            && fr_ok(q@[i]),
{
    let m = poly.len();
    let mut rev: Vec<Fr> = Vec::new();
    let mut acc = Fr::zero();
    let mut i: usize = m;
    proof {
        vstd::arithmetic::div_mod::lemma_small_mod(0nat, fp());
    }
    while i > 1
        invariant
            1 <= i <= m,
            m == poly@.len(),
            fr_ok(z),
            rev@.len() == m - i,
            fr_ok(acc),
            fval(acc) == qcoef(vals(poly@), fval(z), i as int - 1),
            forall|i2: int| 0 <= i2 < poly@.len() ==> fr_ok(#[trigger] poly@[i2]),
            forall|j: int|
                0 <= j < rev@.len() ==> fval(#[trigger] rev@[j]) == qcoef(
                    vals(poly@),
                    fval(z),
                    m - 2 - j,
                ) && fr_ok(rev@[j]),
        decreases i,
    {
        i = i - 1;
        // acc currently holds q[i]; the next coefficient down is
        // q[i-1] = p[i] + z * q[i].
        let next = fr_add(poly[i], fr_mul(z, acc));
        rev.push(next);
        acc = next;
        proof {
            vstd::arithmetic::div_mod::lemma_add_mod_noop(
                fval(poly@[i as int]) as int,
                (fval(z) * qcoef(vals(poly@), fval(z), i as int)) as int,
                fp() as int,
            );
            vstd::arithmetic::div_mod::lemma_small_mod(fval(poly@[i as int]), fp());
            vstd::arithmetic::div_mod::lemma_mod_bound(
                (fval(z) * qcoef(vals(poly@), fval(z), i as int)) as int,
                fp() as int,
            );
        }
    }
    // Un-reverse the coefficients.
    let mut q: Vec<Fr> = Vec::new();
    let mut j: usize = 0;
    while j < m - 1
        invariant
            j <= m - 1,
            m == poly@.len(),
            rev@.len() == m - 1,
            q@.len() == j,
            forall|j2: int|
                0 <= j2 < rev@.len() ==> fval(#[trigger] rev@[j2]) == qcoef(
                    vals(poly@),
                    fval(z),
                    m - 2 - j2,
                ) && fr_ok(rev@[j2]),
            forall|j2: int|
                0 <= j2 < j ==> fval(#[trigger] q@[j2]) == qcoef(vals(poly@), fval(z), j2) && fr_ok(
                    q@[j2],
                ),
        decreases m - 1 - j,
    {
        q.push(rev[m - 2 - j]);
        j = j + 1;
    }
    q
}

/// Checks a single-point opening through the pairing equation
/// e(C - value*G, H) == e(W, tau*H - z*H). `Ok` only when the outside
/// pairing accepted exactly that equation on these encodings.
pub fn verify_single(
    srs: &Srs,
    commitment: &Vec<u8>,
    z: Fr,
    value: Fr,
    w: &Vec<u8>,
) -> (r: Result<(), Error>)
    requires
        srs_wf(*srs),
        fr_ok(z),
        fr_ok(value),
        commitment@.len() == 48,
        w@.len() == 48,
    ensures
        r is Ok <==> (g1_decodes(commitment@) && g1_decodes(w@) && pairing_eq_of(
            g1_add_of(commitment@, g1_gen_mul_of((((fp() - fval(value)) % (fp() as int)) as nat))),
            srs.g2_gen@,
            w@,
            g2_add_of(srs.g2_tau@, g2_gen_mul_of((((fp() - fval(z)) % (fp() as int)) as nat))),
        )),
        r is Err ==> r->Err_0 == Error::InvalidOpening,
{
    let neg_v = g1_gen_mul(fr_neg(value));
    let lhs1 = match g1_add(commitment, &neg_v) {
        Some(x) => x,
        None => { return Err(Error::InvalidOpening) },
    };
    let neg_z_h = g2_gen_mul(fr_neg(z));
    let rhs2 = match g2_add(&srs.g2_tau, &neg_z_h) {
        Some(x) => x,
        None => { return Err(Error::InvalidOpening) },
    };
    match pairing_eq(&lhs1, &srs.g2_gen, w, &rhs2) {
        Some(true) => Ok(()),
        _ => Err(Error::InvalidOpening),
    }
}


/// The successive powers of a batching scalar.
pub open spec fn vpowers(v: nat, m: nat) -> Seq<nat> {
    Seq::new(m, |i: int| pow_mod(v, i as nat))
}

/// Opens several polynomials at the same point with one aggregated proof:
/// the polynomials are combined with powers of the transcript-derived
/// scalar `v` and the combination is opened once. Returns every
/// individual evaluation and the single proof point.
pub fn open_batch(srs: &Srs, polys: &Vec<Vec<Fr>>, z: Fr, v: Fr) -> (r: Result<
    (Vec<Fr>, Vec<u8>),
    Error,
>)
    requires
        srs_wf(*srs),
        fr_ok(z),
        fr_ok(v),
        1 <= polys@.len() <= 64,
        forall|i: int|
            0 <= i < polys@.len() ==> 1 <= (#[trigger] polys@[i])@.len() <= 4096 && crate::poly::poly_ok(
                polys@[i]@,
            ),
    ensures
        r is Ok ==> {
            let (evals, w) = r->Ok_0;
            &&& evals@.len() == polys@.len()
            &&& forall|i: int|
                0 <= i < evals@.len() ==> fval(#[trigger] evals@[i]) == poly_eval_v(
                    vals(polys@[i]@),
                    fval(z),
                ) && fr_ok(evals@[i])
            &&& w@.len() == 48
        },
        (forall|i: int|
            0 <= i < polys@.len() ==> (#[trigger] polys@[i])@.len() <= srs.g1_powers@.len() + 1)
            ==> r is Ok,
        r is Err ==> r->Err_0 == Error::DegreeOverflow,
{
    let mut evals: Vec<Fr> = Vec::new();
    let mut agg: Vec<Fr> = Vec::new();
    agg.push(Fr::zero());
    let mut vp = Fr::one();
    let mut i: usize = 0;
    while i < polys.len()
        invariant
            i <= polys@.len(),
            polys@.len() <= 64,
            fr_ok(z),
            fr_ok(v),
            fr_ok(vp),
            forall|j: int|
                0 <= j < polys@.len() ==> 1 <= (#[trigger] polys@[j])@.len() <= 4096
                    && crate::poly::poly_ok(polys@[j]@),
            evals@.len() == i,
            forall|j: int|
                0 <= j < i ==> fval(#[trigger] evals@[j]) == poly_eval_v(
                    vals(polys@[j]@),
                    fval(z),
                ) && fr_ok(evals@[j]),
            1 <= agg@.len() <= 4096,
            crate::poly::poly_ok(agg@),
            forall|j: int| 0 <= j < i ==> (#[trigger] polys@[j])@.len() <= agg@.len(),
            agg@.len() == 1 || exists|j: int|
                0 <= j < i && (#[trigger] polys@[j])@.len() == agg@.len(),
        decreases polys@.len() - i,
    {
        evals.push(poly_eval(&polys[i], z));
        let ghost old_len = agg@.len();
        agg = crate::poly::poly_add(&agg, &crate::poly::poly_scale(vp, &polys[i]));
        proof {
            if polys@[i as int]@.len() >= old_len {
                assert(polys@[i as int]@.len() == agg@.len());
            }
        }
        vp = fr_mul(vp, v);
        i = i + 1;
    }
    match open_single(srs, &agg, z) {
        Ok((_, w)) => Ok((evals, w)),
        Err(e) => Err(e),
    }
}

/// Checks an aggregated opening of several commitments at one point: the
/// commitments and claimed evaluations are combined with the same powers
/// of `v` and the single pairing check of `verify_single` is applied to
/// the combination.
pub fn verify_batch(
    srs: &Srs,
    comms: &Vec<Vec<u8>>,
    z: Fr,
    evals: &Vec<Fr>,
    v: Fr,
    w: &Vec<u8>,
) -> (r: Result<(), Error>)
    requires
        srs_wf(*srs),
        fr_ok(z),
        fr_ok(v),
        comms@.len() == evals@.len(),
        comms@.len() >= 1,
        forall|i: int| 0 <= i < comms@.len() ==> (#[trigger] comms@[i])@.len() == 48,
        forall|i: int| 0 <= i < evals@.len() ==> fr_ok(#[trigger] evals@[i]),
        w@.len() == 48,
    ensures
        r is Ok <==> ((forall|i: int| 0 <= i < comms@.len() ==> g1_decodes(#[trigger] comms@[i]@))
            && g1_decodes(w@) && pairing_eq_of(
            g1_add_of(
                msm_of(views(comms@), vpowers(fval(v), comms@.len()), comms@.len() as int),
                g1_gen_mul_of(
                    (((fp() - poly_eval_v(vals(evals@), fval(v))) % (fp() as int)) as nat),
                ),
            ),
            srs.g2_gen@,
            w@,
            g2_add_of(srs.g2_tau@, g2_gen_mul_of((((fp() - fval(z)) % (fp() as int)) as nat))),
        )),
        r is Err ==> r->Err_0 == Error::InvalidOpening,
{
    let mut f = g1_gen_mul(Fr::zero());
    let mut e = Fr::zero();
    let mut vp = Fr::one();
    let mut i: usize = 0;
    proof {
        vstd::arithmetic::power::lemma_pow0(fval(v) as int);
        vstd::arithmetic::div_mod::lemma_small_mod(1nat, fp());
        vstd::arithmetic::div_mod::lemma_small_mod(0nat, fp());
    }
    while i < comms.len()
        invariant
            i <= comms@.len(),
            comms@.len() == evals@.len(),
            fr_ok(z),
            fr_ok(v),
            fr_ok(vp),
            fr_ok(e),
            forall|j: int| 0 <= j < comms@.len() ==> (#[trigger] comms@[j])@.len() == 48,
            forall|j: int| 0 <= j < evals@.len() ==> fr_ok(#[trigger] evals@[j]),
            fval(vp) == pow_mod(fval(v), i as nat),
            fval(e) as int == crate::poly::psum(vals(evals@), fval(v), i as int) % (fp() as int),
            f@ == msm_of(views(comms@), vpowers(fval(v), comms@.len() as nat), i as int),
            f@.len() == 48,
            g1_decodes(f@),
            forall|j: int| 0 <= j < i ==> g1_decodes(#[trigger] comms@[j]@),
        decreases comms@.len() - i,
    {
        let term = match g1_mul(&comms[i], vp) {
            Some(t) => t,
            None => { return Err(Error::InvalidOpening) },
        };
        f = match g1_add(&f, &term) {
            Some(t) => t,
            None => { return Err(Error::InvalidOpening) },
        };
        proof {
            let pp = fp() as int;
            let ei = fval(evals@[i as int]) as int;
            let pw = vstd::arithmetic::power::pow(fval(v) as int, i as nat);
            vstd::arithmetic::div_mod::lemma_mul_mod_noop_right(ei, pw, pp);
            vstd::arithmetic::div_mod::lemma_add_mod_noop(
                crate::poly::psum(vals(evals@), fval(v), i as int),
                ei * pw,
                pp,
            );
            vstd::arithmetic::mul::lemma_mul_is_commutative(ei, pw);
            lemma_pow_mod_step(fval(v), i as nat);
        }
        e = fr_add(e, fr_mul(evals[i], vp));
        vp = fr_mul(vp, v);
        i = i + 1;
    }
    verify_single(srs, &f, z, e, w)
}

} // verus!
