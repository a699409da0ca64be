//! The proving and verifying protocol: one proof session walks
//! Init -> WitnessCommitted -> ChallengesDerived -> QuotientCommitted ->
//! Evaluated -> OpeningProved -> Done, and the verifier replays the same
//! transcript schedule, reading commitments and evaluations and
//! recomputing every challenge.
//!
//! A proof is one byte string: the wire commitments, the copy-constraint
//! accumulator commitment, the blinding commitment, the quotient chunk
//! commitments, every evaluation, and the two aggregated opening proofs,
//! in exactly the order the verifier consumes them.
use vstd::prelude::*;
use crate::field::{Fr, fval, fr_ok, fp, pow_mod, lemma_pow_mod_step, fr_add, fr_mul, fr_neg, fr_sub, fr_eq, fr_invert, fr_pow};
use crate::circuit::{CircuitDescription, Assignment, Gate, desc_wf, assign_wf, copies_in_range, eval_gate, gate_eval, col_wf};
use crate::domain::{Domain, domain_ok, to_coefficients, interp_vals, lagrange_rel, vanishing_v};
use crate::poly::{poly_ok, poly_add, poly_scale, poly_mul, divide_by_vanishing, poly_eval, vals};
use crate::kzg::{Srs, srs_wf, commit, open_single, g1_gen_mul, g1_mul, g1_add, pairing_eq, rng_bytes, msm_of, views, g1_gen_mul_of, g1_mul_of, g1_add_of, pairing_eq_of};
use crate::transcript::{Transcript, challenge_of, squeezed_state, fr_to_bytes, fr_from_bytes};
use crate::Error;

verus! {

/// The verifying key: the domain, the circuit shape, commitments to the
/// fixed and permutation columns, and a digest absorbed first by every
/// transcript for domain separation across circuits.
pub struct VerifyingKey {
    pub domain: Domain,
    pub desc: CircuitDescription,
    pub fixed_commits: Vec<Vec<u8>>,
    pub sigma_commits: Vec<Vec<u8>>,
    pub digest: Vec<u8>,
}

/// The proving key: the verifying key plus the fixed and permutation
/// columns themselves, in both forms the prover needs.
pub struct ProvingKey {
    pub vk: VerifyingKey,
    pub fixed_polys: Vec<Vec<Fr>>,
    pub sigma_polys: Vec<Vec<Fr>>,
    pub sigma_vals: Vec<Vec<Fr>>,
}

/// Sizes this protocol instance supports; they keep every intermediate
/// polynomial comfortably inside machine bounds.
pub open spec fn sizes_ok(d: CircuitDescription, n: int) -> bool {
    &&& 2 <= n <= 4096
    &&& 1 <= d.num_wire_cols <= 16
    &&& 1 <= d.num_fixed_cols <= 64
    &&& 1 <= d.gates@.len() <= 16
    &&& forall|g: int|
        0 <= g < d.gates@.len() ==> 1 <= (#[trigger] d.gates@[g]).terms@.len() <= 16
    &&& forall|g: int, t: int|
        0 <= g < d.gates@.len() && 0 <= t < d.gates@[g].terms@.len() ==> (
        #[trigger] d.gates@[g].terms@[t]).wires@.len() <= 8
}

/// A well-formed verifying key.
pub open spec fn vk_wf(vk: VerifyingKey) -> bool {
    &&& domain_ok(vk.domain)
    &&& desc_wf(vk.desc)
    &&& sizes_ok(vk.desc, vk.domain.n as int)
    &&& vk.fixed_commits@.len() == vk.desc.num_fixed_cols
    &&& forall|i: int| 0 <= i < vk.fixed_commits@.len() ==> (#[trigger] vk.fixed_commits@[i])@.len() == 48
    &&& vk.sigma_commits@.len() == vk.desc.num_wire_cols
    &&& forall|i: int| 0 <= i < vk.sigma_commits@.len() ==> (#[trigger] vk.sigma_commits@[i])@.len() == 48
    &&& vk.digest@.len() == 64
}

/// A well-formed proving key.
pub open spec fn pk_wf(pk: ProvingKey) -> bool {
    &&& vk_wf(pk.vk)
    &&& pk.fixed_polys@.len() == pk.vk.desc.num_fixed_cols
    &&& forall|i: int|
        0 <= i < pk.fixed_polys@.len() ==> (#[trigger] pk.fixed_polys@[i])@.len() == pk.vk.domain.n
            && poly_ok(pk.fixed_polys@[i]@)
    &&& pk.sigma_polys@.len() == pk.vk.desc.num_wire_cols
    &&& forall|i: int|
        0 <= i < pk.sigma_polys@.len() ==> (#[trigger] pk.sigma_polys@[i])@.len() == pk.vk.domain.n
            && poly_ok(pk.sigma_polys@[i]@)
    &&& pk.sigma_vals@.len() == pk.vk.desc.num_wire_cols
    &&& forall|i: int|
        0 <= i < pk.sigma_vals@.len() ==> (#[trigger] pk.sigma_vals@[i])@.len() == pk.vk.domain.n
            && poly_ok(pk.sigma_vals@[i]@)
}

/// The concatenation of the first m byte vectors of a list.
pub open spec fn concat_bytes(s: Seq<Vec<u8>>, m: int) -> Seq<u8>
    decreases m,
{
    if m <= 0 {
        Seq::empty()
    } else {
        concat_bytes(s, m - 1) + s[m - 1]@
    }
}

/// Total byte length of a proof for a circuit with `nw` wire columns and
/// `nf` fixed columns.
pub open spec fn proof_len(nw: int, nf: int) -> int {
    48 * (2 * nw + 2) + 32 * (3 * nw + nf + 3) + 96
}


/// The proof length, as executable arithmetic.
pub fn proof_len_bytes(nw: usize, nf: usize) -> (r: usize)
    requires
        1 <= nw <= 16,
        1 <= nf <= 64,
    ensures
        r == proof_len(nw as int, nf as int),
{
    48 * (2 * nw + 2) + 32 * (3 * nw + nf + 3) + 96
}

/// Appends a byte vector to a buffer.
fn append_vec(dst: &mut Vec<u8>, src: &Vec<u8>)
    ensures
        final(dst)@ == old(dst)@ + src@,
{
    let mut i: usize = 0;
    while i < src.len()
        invariant
            i <= src@.len(),
            dst@ == old(dst)@ + src@.subrange(0, i as int),
        decreases src@.len() - i,
    {
        dst.push(src[i]);
        proof {
            assert(old(dst)@ + src@.subrange(0, (i + 1) as int) =~= (old(dst)@ + src@.subrange(
                0,
                i as int,
            )).push(src@[i as int]));
        }
        i = i + 1;
    }
    proof {
        assert(src@.subrange(0, src@.len() as int) =~= src@);
    }
}

/// Copies `len` bytes starting at `off` out of a buffer.
fn take_bytes(src: &Vec<u8>, off: usize, len: usize) -> (r: Vec<u8>)
    requires
        off + len <= src@.len(),
    ensures
        r@ == src@.subrange(off as int, off as int + len as int),
        r@.len() == len,
{
    let src_len = src.len();
    let mut r: Vec<u8> = Vec::new();
    let mut i: usize = 0;
    while i < len
        invariant
            i <= len,
            src_len == src@.len(),
            off + len <= src_len,
            r@ == src@.subrange(off as int, off as int + i as int),
        decreases len - i,
    {
        r.push(src[off + i]);
        proof {
            assert(src@.subrange(off as int, off as int + (i + 1) as int) =~= src@.subrange(
                off as int,
                off as int + i as int,
            ).push(src@[off as int + i as int]));
        }
        i = i + 1;
    }
    r
}

/// The powers 1, omega, omega^2, ... up to the domain size.
fn omega_powers(dom: &Domain) -> (r: Vec<Fr>)
    requires
        domain_ok(*dom),
    ensures
        r@.len() == dom.n,
        poly_ok(r@),
{
    let mut r: Vec<Fr> = Vec::new();
    let mut x = Fr::one();
    let mut i: usize = 0;
    while i < dom.n
        invariant
            i <= dom.n,
            r@.len() == i,
            fr_ok(x),
            fr_ok(dom.omega),
            poly_ok(r@),
        decreases dom.n - i,
    {
        r.push(x);
        x = fr_mul(x, dom.omega);
        i = i + 1;
    }
    r
}

/// Derives the proving and verifying keys from the setup, the circuit
/// shape and one synthesized assignment (whose fixed columns define the
/// circuit's selectors). The permutation columns are the wire identities
/// k_c * omega^i with the cells of every copy constraint exchanged. Both
/// keys are deterministic in (setup, description, assignment): every
/// commitment is the combination of the setup's powers with the
/// interpolation of its column, and the digest hashes exactly the
/// concatenated commitments.
pub fn keygen(srs: &Srs, dom: &Domain, desc: CircuitDescription, asg: &Assignment) -> (r: Result<
    ProvingKey,
    Error,
>)
    requires
        srs_wf(*srs),
        domain_ok(*dom),
        desc_wf(desc),
        sizes_ok(desc, dom.n as int),
        assign_wf(desc, *asg),
        copies_in_range(desc, *asg),
        asg.rows == dom.n,
    ensures
        dom.n <= srs.g1_powers@.len() ==> r is Ok,
        r is Ok ==> {
            let pk = r->Ok_0;
            &&& pk_wf(pk)
            &&& pk.vk.domain == *dom
            &&& pk.vk.desc == desc
            &&& forall|i: int|
                0 <= i < pk.fixed_polys@.len() ==> vals((#[trigger] pk.fixed_polys@[i])@)
                    == interp_vals(vals(asg.fixed@[i]@), *dom) && pk.vk.fixed_commits@[i]@
                    == msm_of(
                    views(srs.g1_powers@),
                    interp_vals(vals(asg.fixed@[i]@), *dom),
                    dom.n as int,
                )
            &&& forall|i: int|
                0 <= i < pk.sigma_polys@.len() ==> vals((#[trigger] pk.sigma_polys@[i])@)
                    == interp_vals(vals(pk.sigma_vals@[i]@), *dom) && pk.vk.sigma_commits@[i]@
                    == msm_of(
                    views(srs.g1_powers@),
                    interp_vals(vals(pk.sigma_vals@[i]@), *dom),
                    dom.n as int,
                )
            &&& pk.vk.digest@ == crate::transcript::blake2b_of(
                concat_bytes(pk.vk.fixed_commits@, pk.vk.fixed_commits@.len() as int)
                    + concat_bytes(pk.vk.sigma_commits@, pk.vk.sigma_commits@.len() as int),
            )
        },
{
    let n = dom.n;
    let pows = omega_powers(dom);
    // Fixed columns, in coefficient form, and their commitments.
    let mut fixed_polys: Vec<Vec<Fr>> = Vec::new();
    let mut fixed_commits: Vec<Vec<u8>> = Vec::new();
    let mut c: usize = 0;
    while c < desc.num_fixed_cols
        invariant
            c <= desc.num_fixed_cols,
            srs_wf(*srs),
            domain_ok(*dom),
            assign_wf(desc, *asg),
            asg.rows == dom.n,
            fixed_polys@.len() == c,
            fixed_commits@.len() == c,
            srs_wf(*srs),
            forall|i: int|
                0 <= i < c ==> (#[trigger] fixed_polys@[i])@.len() == dom.n && poly_ok(
                    fixed_polys@[i]@,
                ) && vals(fixed_polys@[i]@) == interp_vals(vals(asg.fixed@[i]@), *dom),
            forall|i: int|
                0 <= i < c ==> (#[trigger] fixed_commits@[i])@.len() == 48 && fixed_commits@[i]@
                    == msm_of(
                    views(srs.g1_powers@),
                    interp_vals(vals(asg.fixed@[i]@), *dom),
                    dom.n as int,
                ),
        decreases desc.num_fixed_cols - c,
    {
        let poly = to_coefficients(dom, &asg.fixed[c]);
        let cm = match commit(srs, &poly) {
            Ok(cm) => cm,
            Err(e) => { return Err(e) },
        };
        fixed_polys.push(poly);
        fixed_commits.push(cm);
        c = c + 1;
    }
    // Permutation columns: identities with copy-constrained cells swapped.
    let seven = Fr::from_u64(7);
    let mut sigma_vals: Vec<Vec<Fr>> = Vec::new();
    let mut kc = Fr::one();
    let mut c2: usize = 0;
    while c2 < desc.num_wire_cols
        invariant
            c2 <= desc.num_wire_cols,
            domain_ok(*dom),
            pows@.len() == dom.n,
            poly_ok(pows@),
            fr_ok(kc),
            fr_ok(seven),
            sigma_vals@.len() == c2,
            forall|i: int|
                0 <= i < c2 ==> (#[trigger] sigma_vals@[i])@.len() == dom.n && poly_ok(
                    sigma_vals@[i]@,
                ),
        decreases desc.num_wire_cols - c2,
    {
        let mut col: Vec<Fr> = Vec::new();
        let mut i: usize = 0;
        while i < dom.n
            invariant
                i <= dom.n,
                pows@.len() == dom.n,
                poly_ok(pows@),
                fr_ok(kc),
                col@.len() == i,
                poly_ok(col@),
            decreases dom.n - i,
        {
            col.push(fr_mul(kc, pows[i]));
            i = i + 1;
        }
        sigma_vals.push(col);
        kc = fr_mul(kc, seven);
        c2 = c2 + 1;
    }
    let mut ci: usize = 0;
    while ci < desc.copies.len()
        invariant
            ci <= desc.copies@.len(),
            desc_wf(desc),
            copies_in_range(desc, *asg),
            asg.rows == dom.n,
            sigma_vals@.len() == desc.num_wire_cols,
            forall|i: int|
                0 <= i < sigma_vals@.len() ==> (#[trigger] sigma_vals@[i])@.len() == dom.n
                    && poly_ok(sigma_vals@[i]@),
        decreases desc.copies@.len() - ci,
    {
        let cc = desc.copies[ci];
        let a = sigma_vals[cc.col_a][cc.row_a];
        let b = sigma_vals[cc.col_b][cc.row_b];
        sigma_vals[cc.col_a][cc.row_a] = b;
        sigma_vals[cc.col_b][cc.row_b] = a;
        proof {
            assert forall|i: int| 0 <= i < sigma_vals@.len() implies (
            #[trigger] sigma_vals@[i])@.len() == dom.n && poly_ok(sigma_vals@[i]@) by {}
        }
        ci = ci + 1;
    }
    // Their coefficient forms and commitments.
    let mut sigma_polys: Vec<Vec<Fr>> = Vec::new();
    let mut sigma_commits: Vec<Vec<u8>> = Vec::new();
    let mut c3: usize = 0;
    while c3 < desc.num_wire_cols
        invariant
            c3 <= desc.num_wire_cols,
            srs_wf(*srs),
            domain_ok(*dom),
            sigma_vals@.len() == desc.num_wire_cols,
            forall|i: int|
                0 <= i < sigma_vals@.len() ==> (#[trigger] sigma_vals@[i])@.len() == dom.n
                    && poly_ok(sigma_vals@[i]@),
            sigma_polys@.len() == c3,
            sigma_commits@.len() == c3,
            forall|i: int|
                0 <= i < c3 ==> (#[trigger] sigma_polys@[i])@.len() == dom.n && poly_ok(
                    sigma_polys@[i]@,
                ) && vals(sigma_polys@[i]@) == interp_vals(vals(sigma_vals@[i]@), *dom),
            forall|i: int|
                0 <= i < c3 ==> (#[trigger] sigma_commits@[i])@.len() == 48 && sigma_commits@[i]@
                    == msm_of(
                    views(srs.g1_powers@),
                    interp_vals(vals(sigma_vals@[i]@), *dom),
                    dom.n as int,
                ),
        decreases desc.num_wire_cols - c3,
    {
        let poly = to_coefficients(dom, &sigma_vals[c3]);
        let cm = match commit(srs, &poly) {
            Ok(cm) => cm,
            Err(e) => { return Err(e) },
        };
        sigma_polys.push(poly);
        sigma_commits.push(cm);
        c3 = c3 + 1;
    }
    // The digest: a hash over every commitment of the key.
    let mut blob: Vec<u8> = Vec::new();
    proof {
        assert(blob@ =~= concat_bytes(fixed_commits@, 0));
    }
    let mut b1: usize = 0;
    while b1 < fixed_commits.len()
        invariant
            b1 <= fixed_commits@.len(),
            blob@ == concat_bytes(fixed_commits@, b1 as int),
        decreases fixed_commits@.len() - b1,
    {
        append_vec(&mut blob, &fixed_commits[b1]);
        b1 = b1 + 1;
    }
    proof {
        assert(blob@ + concat_bytes(sigma_commits@, 0) =~= blob@);
    }
    let mut b2: usize = 0;
    while b2 < sigma_commits.len()
        invariant
            b2 <= sigma_commits@.len(),
            blob@ == concat_bytes(fixed_commits@, fixed_commits@.len() as int) + concat_bytes(
                sigma_commits@,
                b2 as int,
            ),
        decreases sigma_commits@.len() - b2,
    {
        append_vec(&mut blob, &sigma_commits[b2]);
        proof {
            assert(concat_bytes(fixed_commits@, fixed_commits@.len() as int) + concat_bytes(
                sigma_commits@,
                b2 + 1,
            ) =~= (concat_bytes(fixed_commits@, fixed_commits@.len() as int) + concat_bytes(
                sigma_commits@,
                b2 as int,
            )) + sigma_commits@[b2 as int]@);
        }
        b2 = b2 + 1;
    }
    let digest = crate::transcript::blake2b(&blob);
    Ok(ProvingKey {
        vk: VerifyingKey {
            domain: *dom,
            desc,
            fixed_commits,
            sigma_commits,
            digest,
        },
        fixed_polys,
        sigma_polys,
        sigma_vals,
    })
}


/// The transcript state when the first permutation challenge is squeezed:
/// the key digest and every wire commitment have been absorbed.
pub open spec fn vstate1(d: Seq<u8>, p: Seq<u8>, nw: int) -> Seq<u8> {
    d + p.subrange(0, 48 * nw)
}

/// The state when the quotient-composition challenge is squeezed: the
/// accumulator and blinding commitments have been absorbed.
pub open spec fn vstate3(d: Seq<u8>, p: Seq<u8>, nw: int) -> Seq<u8> {
    squeezed_state(squeezed_state(vstate1(d, p, nw))) + p.subrange(48 * nw, 48 * nw + 96)
}

/// The state when the evaluation point is squeezed: the quotient chunk
/// commitments have been absorbed.
pub open spec fn vstate4(d: Seq<u8>, p: Seq<u8>, nw: int) -> Seq<u8> {
    squeezed_state(vstate3(d, p, nw)) + p.subrange(48 * nw + 96, 96 * nw + 96)
}

/// The state when the batching scalar is squeezed: every evaluation has
/// been absorbed.
pub open spec fn vstate5(d: Seq<u8>, p: Seq<u8>, nw: int, nf: int) -> Seq<u8> {
    squeezed_state(vstate4(d, p, nw)) + p.subrange(
        96 * nw + 96,
        96 * nw + 96 + 32 * (3 * nw + nf + 3),
    )
}

/// The state when the cross-point scalar is squeezed: both opening proofs
/// have been absorbed.
pub open spec fn vstate6(d: Seq<u8>, p: Seq<u8>, nw: int, nf: int) -> Seq<u8> {
    squeezed_state(vstate5(d, p, nw, nf)) + p.subrange(
        96 * nw + 96 + 32 * (3 * nw + nf + 3),
        96 * nw + 192 + 32 * (3 * nw + nf + 3),
    )
}

/// The whole challenge sequence a transcript replay derives from a key
/// digest and a proof: beta, gamma, y, x, v, u, in schedule order.
pub open spec fn challenges_ok(d: Seq<u8>, p: Seq<u8>, nw: int, nf: int, c: Seq<Fr>) -> bool {
    &&& c.len() == 6
    &&& fval(c[0]) == challenge_of(vstate1(d, p, nw))
    &&& fval(c[1]) == challenge_of(squeezed_state(vstate1(d, p, nw)))
    &&& fval(c[2]) == challenge_of(vstate3(d, p, nw))
    &&& fval(c[3]) == challenge_of(vstate4(d, p, nw))
    &&& fval(c[4]) == challenge_of(vstate5(d, p, nw, nf))
    &&& fval(c[5]) == challenge_of(vstate6(d, p, nw, nf))
    &&& forall|i: int| 0 <= i < c.len() ==> fr_ok(#[trigger] c[i])
}

/// Replays the absorption schedule over a proof and derives every
/// challenge. Both verification and any audit of a proof go through this
/// one deterministic function.
pub fn verifier_challenges(digest: &Vec<u8>, proof: &Vec<u8>, nw: usize, nf: usize) -> (r: Result<
    Vec<Fr>,
    Error,
>)
    requires
        1 <= nw <= 16,
        1 <= nf <= 64,
    ensures
        r is Ok <==> proof@.len() == proof_len(nw as int, nf as int),
        r is Ok ==> challenges_ok(digest@, proof@, nw as int, nf as int, r->Ok_0@),
        r is Err ==> r->Err_0 == Error::VerificationFailed,
{
    let ne: usize = 3 * nw + nf + 3;
    let expected: usize = 48 * (2 * nw + 2) + 32 * ne + 96;
    if proof.len() != expected {
        return Err(Error::VerificationFailed);
    }
    let mut t = Transcript::new();
    t.append_bytes(digest);
    proof {
        assert(t.state@ =~= digest@);
    }
    let wires = take_bytes(proof, 0, 48 * nw);
    t.append_bytes(&wires);
    let beta = t.squeeze_challenge();
    let gamma = t.squeeze_challenge();
    let zr = take_bytes(proof, 48 * nw, 96);
    t.append_bytes(&zr);
    proof {
        assert(t.state@ =~= vstate3(digest@, proof@, nw as int));
    }
    let y = t.squeeze_challenge();
    let chunks = take_bytes(proof, 48 * nw + 96, 48 * nw);
    t.append_bytes(&chunks);
    proof {
        assert(t.state@ =~= vstate4(digest@, proof@, nw as int));
    }
    let x = t.squeeze_challenge();
    let evals = take_bytes(proof, 96 * nw + 96, 32 * ne);
    t.append_bytes(&evals);
    proof {
        assert(t.state@ =~= vstate5(digest@, proof@, nw as int, nf as int));
    }
    let v = t.squeeze_challenge();
    let ws = take_bytes(proof, 96 * nw + 96 + 32 * ne, 96);
    t.append_bytes(&ws);
    proof {
        assert(t.state@ =~= vstate6(digest@, proof@, nw as int, nf as int));
    }
    let u = t.squeeze_challenge();
    let mut out: Vec<Fr> = Vec::new();
    out.push(beta);
    out.push(gamma);
    out.push(y);
    out.push(x);
    out.push(v);
    out.push(u);
    Ok(out)
}

/// Two transcript replays over the same verifying-key digest and the same
/// proof bytes derive identical challenge sequences.
pub proof fn lemma_challenge_determinism(
    d: Seq<u8>,
    p: Seq<u8>,
    nw: int,
    nf: int,
    c1: Seq<Fr>,
    c2: Seq<Fr>,
)
    requires
        challenges_ok(d, p, nw, nf, c1),
        challenges_ok(d, p, nw, nf, c2),
    ensures
        c1 == c2,
{
    assert forall|i: int| 0 <= i < 6 implies c1[i] == c2[i] by {
        crate::field::lemma_fval_injective(c1[i], c2[i]);
    }
    assert(c1 =~= c2);
}

/// A plain copy of a coefficient vector.
fn clone_poly(v: &Vec<Fr>) -> (r: Vec<Fr>)
    ensures
        r@ == v@,
{
    let mut r: Vec<Fr> = Vec::new();
    let mut i: usize = 0;
    while i < v.len()
        invariant
            i <= v@.len(),
            r@ == v@.subrange(0, i as int),
        decreases v@.len() - i,
    {
        r.push(v[i]);
        proof {
            assert(v@.subrange(0, (i + 1) as int) =~= v@.subrange(0, i as int).push(v@[i as int]));
        }
        i = i + 1;
    }
    proof {
        assert(v@.subrange(0, v@.len() as int) =~= v@);
    }
    r
}

/// Multiplies a batch of linear factors (w_c(X) + beta * m_c(X) + gamma)
/// onto an accumulator polynomial, one permutation column at a time.
fn perm_product(
    acc0: Vec<Fr>,
    wires: &Vec<Vec<Fr>>,
    mults: &Vec<Vec<Fr>>,
    beta: Fr,
    gamma: Fr,
    n: usize,
) -> (r: Vec<Fr>)
    requires
        poly_ok(acc0@),
        1 <= acc0@.len() <= 4096,
        wires@.len() == mults@.len(),
        wires@.len() <= 16,
        2 <= n <= 4096,
        fr_ok(beta),
        fr_ok(gamma),
        forall|i: int|
            0 <= i < wires@.len() ==> (#[trigger] wires@[i])@.len() == n && poly_ok(wires@[i]@),
        forall|i: int|
            0 <= i < mults@.len() ==> (#[trigger] mults@[i])@.len() == n && poly_ok(mults@[i]@),
    ensures
        poly_ok(r@),
        1 <= r@.len() <= 4096 * (1 + wires@.len() as int),
{
    let mut acc = acc0;
    let mut c: usize = 0;
    while c < wires.len()
        invariant
            c <= wires@.len(),
            wires@.len() == mults@.len(),
            wires@.len() <= 16,
            2 <= n <= 4096,
            fr_ok(beta),
            fr_ok(gamma),
            poly_ok(acc@),
            1 <= acc@.len() <= 4096 * (1 + c as int),
            forall|i: int|
                0 <= i < wires@.len() ==> (#[trigger] wires@[i])@.len() == n && poly_ok(wires@[i]@),
            forall|i: int|
                0 <= i < mults@.len() ==> (#[trigger] mults@[i])@.len() == n && poly_ok(mults@[i]@),
        decreases wires@.len() - c,
    {
        let mut gpoly: Vec<Fr> = Vec::new();
        gpoly.push(gamma);
        let factor = poly_add(&poly_add(&wires[c], &poly_scale(beta, &mults[c])), &gpoly);
        acc = poly_mul(&acc, &factor);
        c = c + 1;
    }
    acc
}


/// Builds the copy-constraint accumulator column: a running product of
/// (wire + beta * identity + gamma) over (wire + beta * sigma + gamma).
#[verifier::spinoff_prover]
fn accumulator_column(pk: &ProvingKey, asg: &Assignment, pows: &Vec<Fr>, beta: Fr, gamma: Fr) -> (r:
    Result<Vec<Fr>, Error>)
    requires
        pk_wf(*pk),
        assign_wf(pk.vk.desc, *asg),
        asg.rows == pk.vk.domain.n,
        pows@.len() == pk.vk.domain.n,
        poly_ok(pows@),
        fr_ok(beta),
        fr_ok(gamma),
    ensures
        r is Ok ==> r->Ok_0@.len() == pk.vk.domain.n && poly_ok(r->Ok_0@),
        r is Err ==> r->Err_0 == Error::ConstraintViolation,
{
    let n = pk.vk.domain.n;
    let nw = pk.vk.desc.num_wire_cols;
    let seven = Fr::from_u64(7);
    let mut zcol: Vec<Fr> = Vec::new();
    zcol.push(Fr::one());
    let mut i: usize = 0;
    while i + 1 < n
        invariant
            i < n,
            n == pk.vk.domain.n,
            nw == pk.vk.desc.num_wire_cols,
            pk_wf(*pk),
            assign_wf(pk.vk.desc, *asg),
            asg.rows == n,
            pows@.len() == n,
            poly_ok(pows@),
            fr_ok(beta),
            fr_ok(gamma),
            fr_ok(seven),
            zcol@.len() == i + 1,
            poly_ok(zcol@),
        decreases n - i,
    {
        let mut num = Fr::one();
        let mut den = Fr::one();
        let mut kc = Fr::one();
        let mut c2: usize = 0;
        while c2 < nw
            invariant
                c2 <= nw,
                nw == pk.vk.desc.num_wire_cols,
                pk_wf(*pk),
                assign_wf(pk.vk.desc, *asg),
                asg.rows == n,
                n == pk.vk.domain.n,
                i < n,
                pows@.len() == n,
                poly_ok(pows@),
                fr_ok(beta),
                fr_ok(gamma),
                fr_ok(seven),
                fr_ok(num),
                fr_ok(den),
                fr_ok(kc),
            decreases nw - c2,
        {
            let idv = fr_mul(kc, pows[i]);
            let wv = asg.wires[c2][i];
            num = fr_mul(num, fr_add(fr_add(wv, fr_mul(beta, idv)), gamma));
            den = fr_mul(den, fr_add(fr_add(wv, fr_mul(beta, pk.sigma_vals[c2][i])), gamma));
            kc = fr_mul(kc, seven);
            c2 = c2 + 1;
        }
        let dinv = match fr_invert(den) {
            Some(d) => d,
            None => { return Err(Error::ConstraintViolation) },
        };
        let prev = zcol[i];
        zcol.push(fr_mul(prev, fr_mul(num, dinv)));
        i = i + 1;
    }
    Ok(zcol)
}

/// Builds the quotient numerator: every gate identity, the permutation
/// identity and the boundary identity, combined with powers of y, then
/// divided by the vanishing polynomial.
#[verifier::rlimit(100)]
#[verifier::spinoff_prover]
fn quotient_poly(
    pk: &ProvingKey,
    wire_polys: &Vec<Vec<Fr>>,
    z_poly: &Vec<Fr>,
    pows: &Vec<Fr>,
    beta: Fr,
    gamma: Fr,
    y: Fr,
) -> (r: Result<Vec<Fr>, Error>)
    requires
        pk_wf(*pk),
        wire_polys@.len() == pk.vk.desc.num_wire_cols,
        forall|i: int|
            0 <= i < wire_polys@.len() ==> (#[trigger] wire_polys@[i])@.len() == pk.vk.domain.n
                && poly_ok(wire_polys@[i]@),
        z_poly@.len() == pk.vk.domain.n,
        poly_ok(z_poly@),
        pows@.len() == pk.vk.domain.n,
        poly_ok(pows@),
        fr_ok(beta),
        fr_ok(gamma),
        fr_ok(y),
    ensures
        r is Ok ==> poly_ok(r->Ok_0@),
        r is Err ==> r->Err_0 == Error::ConstraintViolation,
{
    let n = pk.vk.domain.n;
    let nw = pk.vk.desc.num_wire_cols;
    let seven = Fr::from_u64(7);
    let mut numerator: Vec<Fr> = Vec::new();
    numerator.push(Fr::zero());
    let mut yp = Fr::one();
    let mut g: usize = 0;
    while g < pk.vk.desc.gates.len()
        invariant
            g <= pk.vk.desc.gates@.len(),
            pk_wf(*pk),
            n == pk.vk.domain.n,
            nw == pk.vk.desc.num_wire_cols,
            wire_polys@.len() == nw,
            forall|i2: int|
                0 <= i2 < nw ==> (#[trigger] wire_polys@[i2])@.len() == n && poly_ok(
                    wire_polys@[i2]@,
                ),
            fr_ok(yp),
            fr_ok(y),
            poly_ok(numerator@),
            1 <= numerator@.len() <= 0x40000,
        decreases pk.vk.desc.gates@.len() - g,
    {
        let mut gate_poly: Vec<Fr> = Vec::new();
        gate_poly.push(Fr::zero());
        let nt = pk.vk.desc.gates[g].terms.len();
        let mut ti: usize = 0;
        while ti < nt
            invariant
                ti <= nt,
                nt == pk.vk.desc.gates@[g as int].terms@.len(),
                g < pk.vk.desc.gates@.len(),
                pk_wf(*pk),
                n == pk.vk.domain.n,
                nw == pk.vk.desc.num_wire_cols,
                wire_polys@.len() == nw,
                forall|i2: int|
                    0 <= i2 < nw ==> (#[trigger] wire_polys@[i2])@.len() == n && poly_ok(
                        wire_polys@[i2]@,
                    ),
                poly_ok(gate_poly@),
                1 <= gate_poly@.len() <= 0x40000,
            decreases nt - ti,
        {
            let term = &pk.vk.desc.gates[g].terms[ti];
            let mut tp = clone_poly(&pk.fixed_polys[term.selector]);
            let mut wi: usize = 0;
            while wi < term.wires.len()
                invariant
                    wi <= term.wires@.len(),
                    term.wires@.len() <= 8,
                    term == pk.vk.desc.gates@[g as int].terms@[ti as int],
                    g < pk.vk.desc.gates@.len(),
                    ti < pk.vk.desc.gates@[g as int].terms@.len(),
                    pk_wf(*pk),
                    n == pk.vk.domain.n,
                    nw == pk.vk.desc.num_wire_cols,
                    wire_polys@.len() == nw,
                    forall|i2: int|
                        0 <= i2 < nw ==> (#[trigger] wire_polys@[i2])@.len() == n && poly_ok(
                            wire_polys@[i2]@,
                        ),
                    poly_ok(tp@),
                    1 <= tp@.len() <= 4096 * (1 + wi as int),
                decreases term.wires@.len() - wi,
            {
                tp = poly_mul(&tp, &wire_polys[term.wires[wi]]);
                wi = wi + 1;
            }
            gate_poly = poly_add(&gate_poly, &tp);
            ti = ti + 1;
        }
        numerator = poly_add(&numerator, &poly_scale(yp, &gate_poly));
        yp = fr_mul(yp, y);
        g = g + 1;
    }
    // Permutation identity.
    let mut zshift: Vec<Fr> = Vec::new();
    let mut zi: usize = 0;
    while zi < n
        invariant
            zi <= n,
            n == pk.vk.domain.n,
            z_poly@.len() == n,
            poly_ok(z_poly@),
            pows@.len() == n,
            poly_ok(pows@),
            zshift@.len() == zi,
            poly_ok(zshift@),
        decreases n - zi,
    {
        zshift.push(fr_mul(z_poly[zi], pows[zi]));
        zi = zi + 1;
    }
    let mut id_polys: Vec<Vec<Fr>> = Vec::new();
    let mut kc2 = Fr::one();
    let mut c4: usize = 0;
    while c4 < nw
        invariant
            c4 <= nw,
            n == pk.vk.domain.n,
            pk_wf(*pk),
            fr_ok(kc2),
            fr_ok(seven),
            id_polys@.len() == c4,
            forall|i2: int|
                0 <= i2 < c4 ==> (#[trigger] id_polys@[i2])@.len() == n && poly_ok(id_polys@[i2]@),
        decreases nw - c4,
    {
        let mut ip: Vec<Fr> = Vec::new();
        ip.push(Fr::zero());
        ip.push(kc2);
        while ip.len() < n
            invariant
                2 <= ip@.len() <= n,
                poly_ok(ip@),
            decreases n - ip@.len(),
        {
            ip.push(Fr::zero());
        }
        id_polys.push(ip);
        kc2 = fr_mul(kc2, seven);
        c4 = c4 + 1;
    }
    let with_sigma = perm_product(zshift, wire_polys, &pk.sigma_polys, beta, gamma, n);
    let with_id = perm_product(clone_poly(z_poly), wire_polys, &id_polys, beta, gamma, n);
    let perm_poly = poly_add(&with_sigma, &poly_scale(fr_neg(Fr::one()), &with_id));
    numerator = poly_add(&numerator, &poly_scale(yp, &perm_poly));
    yp = fr_mul(yp, y);
    // Boundary identity.
    let mut e0: Vec<Fr> = Vec::new();
    e0.push(Fr::one());
    while e0.len() < n
        invariant
            1 <= e0@.len() <= n,
            n == pk.vk.domain.n,
            poly_ok(e0@),
        decreases n - e0@.len(),
    {
        e0.push(Fr::zero());
    }
    let l0_poly = to_coefficients(&pk.vk.domain, &e0);
    let mut zm1: Vec<Fr> = Vec::new();
    zm1.push(fr_neg(Fr::one()));
    let boundary = poly_mul(&l0_poly, &poly_add(z_poly, &zm1));
    numerator = poly_add(&numerator, &poly_scale(yp, &boundary));
    match divide_by_vanishing(&numerator, n) {
        Ok(q) => Ok(q),
        Err(_) => Err(Error::ConstraintViolation),
    }
}

/// Generates a proof for one assignment: commits the wire columns, builds
/// and commits the copy-constraint accumulator, commits a blinding
/// polynomial, commits the quotient chunks, evaluates everything at the
/// transcript's evaluation point, and emits one aggregated opening proof
/// per opening point.
#[verifier::rlimit(100)]
#[verifier::spinoff_prover]
pub fn prove(srs: &Srs, pk: &ProvingKey, asg: &Assignment, rng_seed: &Vec<u8>) -> (r: Result<
    Vec<u8>,
    Error,
>)
    requires
        srs_wf(*srs),
        pk_wf(*pk),
        assign_wf(pk.vk.desc, *asg),
        copies_in_range(pk.vk.desc, *asg),
        asg.rows == pk.vk.domain.n,
        rng_seed@.len() == 32,
    ensures
        r is Ok ==> r->Ok_0@.len() == proof_len(
            pk.vk.desc.num_wire_cols as int,
            pk.vk.desc.num_fixed_cols as int,
        ),
        r is Ok ==> (forall|c: int|
            0 <= c < pk.vk.desc.num_wire_cols ==> r->Ok_0@.subrange(48 * c, 48 * c + 48)
                == msm_of(
                views(srs.g1_powers@),
                interp_vals(vals(asg.wires@[c]@), pk.vk.domain),
                pk.vk.domain.n as int,
            )),
{
    let n = pk.vk.domain.n;
    let nw = pk.vk.desc.num_wire_cols;
    let nf = pk.vk.desc.num_fixed_cols;
    let pows = omega_powers(&pk.vk.domain);
    let mut proof: Vec<u8> = Vec::new();
    let mut t = Transcript::new();
    t.append_bytes(&pk.vk.digest);
    // Witness commitment.
    let mut wire_polys: Vec<Vec<Fr>> = Vec::new();
    let mut c: usize = 0;
    while c < nw
        invariant
            c <= nw,
            nw == pk.vk.desc.num_wire_cols,
            srs_wf(*srs),
            pk_wf(*pk),
            assign_wf(pk.vk.desc, *asg),
            asg.rows == pk.vk.domain.n,
            n == pk.vk.domain.n,
            wire_polys@.len() == c,
            proof@.len() == 48 * c,
            forall|i: int|
                0 <= i < c ==> (#[trigger] wire_polys@[i])@.len() == n && poly_ok(wire_polys@[i]@),
            forall|i: int|
                0 <= i < c ==> #[trigger] proof@.subrange(48 * i, 48 * i + 48) == msm_of(
                    views(srs.g1_powers@),
                    interp_vals(vals(asg.wires@[i]@), pk.vk.domain),
                    pk.vk.domain.n as int,
                ),
        decreases nw - c,
    {
        let poly = to_coefficients(&pk.vk.domain, &asg.wires[c]);
        let cm = match commit(srs, &poly) {
            Ok(cm) => cm,
            Err(e) => { return Err(e) },
        };
        t.append_bytes(&cm);
        let ghost prior = proof@;
        append_vec(&mut proof, &cm);
        proof {
            assert forall|i: int| 0 <= i < c + 1 implies #[trigger] proof@.subrange(
                48 * i,
                48 * i + 48,
            ) == msm_of(
                views(srs.g1_powers@),
                interp_vals(vals(asg.wires@[i]@), pk.vk.domain),
                pk.vk.domain.n as int,
            ) by {
                if i < c {
                    assert(proof@.subrange(48 * i, 48 * i + 48) =~= prior.subrange(
                        48 * i,
                        48 * i + 48,
                    ));
                } else {
                    assert(proof@.subrange(48 * i, 48 * i + 48) =~= cm@);
                }
            }
        }
        wire_polys.push(poly);
        c = c + 1;
    }
    // The first segments of the proof are now fixed; record them.
    let ghost wseg = proof@;
    // Permutation challenges and the accumulator.
    let beta = t.squeeze_challenge();
    let gamma = t.squeeze_challenge();
    let zcol = match accumulator_column(pk, asg, &pows, beta, gamma) {
        Ok(z) => z,
        Err(e) => { return Err(e) },
    };
    let z_poly = to_coefficients(&pk.vk.domain, &zcol);
    let z_cm = match commit(srs, &z_poly) {
        Ok(cm) => cm,
        Err(e) => { return Err(e) },
    };
    t.append_bytes(&z_cm);
    append_vec(&mut proof, &z_cm);
    proof {
        assert(proof@.subrange(0, 48 * (nw as int)) =~= wseg);
    }
    // Blinding polynomial.
    let rb = rng_bytes(rng_seed, 64);
    let rseed = crate::transcript::fr_from_wide(&rb);
    let mut rand_poly: Vec<Fr> = Vec::new();
    let mut rp = rseed;
    let mut ri: usize = 0;
    while ri < n
        invariant
            ri <= n,
            rand_poly@.len() == ri,
            poly_ok(rand_poly@),
            fr_ok(rp),
            fr_ok(rseed),
        decreases n - ri,
    {
        rand_poly.push(rp);
        rp = fr_mul(fr_mul(rp, rp), rseed);
        ri = ri + 1;
    }
    let rand_cm = match commit(srs, &rand_poly) {
        Ok(cm) => cm,
        Err(e) => { return Err(e) },
    };
    let ghost before_rand = proof@;
    t.append_bytes(&rand_cm);
    append_vec(&mut proof, &rand_cm);
    proof {
        assert(proof@.subrange(0, 48 * (nw as int)) =~= before_rand.subrange(0, 48 * (nw as int)));
    }
    // Quotient composition.
    let y = t.squeeze_challenge();
    let t_poly = match quotient_poly(pk, &wire_polys, &z_poly, &pows, beta, gamma, y) {
        Ok(q) => q,
        Err(e) => { return Err(e) },
    };
    proof {
        vstd::arithmetic::mul::lemma_mul_upper_bound(nw as int, 16, n as int, 4096);
    }
    let bound = nw * n;
    if t_poly.len() > bound {
        return Err(Error::DegreeOverflow);
    }
    // Commit the quotient in chunks of the domain size.
    let mut chunk_polys: Vec<Vec<Fr>> = Vec::new();
    let mut ci: usize = 0;
    let mut base: usize = 0;
    while ci < nw
        invariant
            ci <= nw,
            nw <= 16,
            2 <= n <= 4096,
            base == ci * n,
            base <= 16 * 4096,
            t_poly@.len() <= nw * n,
            poly_ok(t_poly@),
            srs_wf(*srs),
            chunk_polys@.len() == ci,
            proof@.len() == 48 * (nw + 2) + 48 * ci,
            proof@.subrange(0, 48 * (nw as int)) == wseg,
            forall|i2: int|
                0 <= i2 < ci ==> (#[trigger] chunk_polys@[i2])@.len() == n && poly_ok(
                    chunk_polys@[i2]@,
                ),
        decreases nw - ci,
    {
        let mut chunk: Vec<Fr> = Vec::new();
        let mut j: usize = 0;
        while j < n
            invariant
                j <= n,
                ci < nw,
                nw <= 16,
                2 <= n <= 4096,
                base == ci * n,
                base <= 16 * 4096,
                t_poly@.len() <= nw * n,
                poly_ok(t_poly@),
                chunk@.len() == j,
                poly_ok(chunk@),
            decreases n - j,
        {
            let idx = base + j;
            if idx < t_poly.len() {
                chunk.push(t_poly[idx]);
            } else {
                chunk.push(Fr::zero());
            }
            j = j + 1;
        }
        let cm = match commit(srs, &chunk) {
            Ok(cm) => cm,
            Err(e) => { return Err(e) },
        };
        t.append_bytes(&cm);
        let ghost before_chunk = proof@;
        append_vec(&mut proof, &cm);
        proof {
            assert(proof@.subrange(0, 48 * (nw as int)) =~= before_chunk.subrange(
                0,
                48 * (nw as int),
            ));
        }
        chunk_polys.push(chunk);
        proof {
            vstd::arithmetic::mul::lemma_mul_is_distributive_add(n as int, ci as int, 1);
            vstd::arithmetic::mul::lemma_mul_is_commutative(n as int, ci as int + 1);
            vstd::arithmetic::mul::lemma_mul_is_commutative(n as int, ci as int);
            vstd::arithmetic::mul::lemma_mul_upper_bound(ci as int + 1, 16, n as int, 4096);
        }
        base = base + n;
        ci = ci + 1;
    }
    // Evaluation.
    let x = t.squeeze_challenge();
    let xw = fr_mul(x, pk.vk.domain.omega);
    let mut opened_polys: Vec<Vec<Fr>> = Vec::new();
    let mut oc: usize = 0;
    while oc < nw
        invariant
            oc <= nw,
            wire_polys@.len() == nw,
            forall|i2: int|
                0 <= i2 < nw ==> (#[trigger] wire_polys@[i2])@.len() == n && poly_ok(
                    wire_polys@[i2]@,
                ),
            opened_polys@.len() == oc,
            forall|i2: int|
                0 <= i2 < oc ==> (#[trigger] opened_polys@[i2])@.len() >= 1 && poly_ok(
                    opened_polys@[i2]@,
                ) && opened_polys@[i2]@.len() <= 4096,
            2 <= n <= 4096,
        decreases nw - oc,
    {
        opened_polys.push(clone_poly(&wire_polys[oc]));
        oc = oc + 1;
    }
    let mut oc2: usize = 0;
    while oc2 < nf
        invariant
            oc2 <= nf,
            nf == pk.vk.desc.num_fixed_cols,
            pk_wf(*pk),
            n == pk.vk.domain.n,
            2 <= n <= 4096,
            opened_polys@.len() == nw + oc2,
            forall|i2: int|
                0 <= i2 < opened_polys@.len() ==> (#[trigger] opened_polys@[i2])@.len() >= 1
                    && poly_ok(opened_polys@[i2]@) && opened_polys@[i2]@.len() <= 4096,
        decreases nf - oc2,
    {
        opened_polys.push(clone_poly(&pk.fixed_polys[oc2]));
        oc2 = oc2 + 1;
    }
    let mut oc3: usize = 0;
    while oc3 < nw
        invariant
            oc3 <= nw,
            nw == pk.vk.desc.num_wire_cols,
            pk_wf(*pk),
            n == pk.vk.domain.n,
            2 <= n <= 4096,
            opened_polys@.len() == nw + nf + oc3,
            forall|i2: int|
                0 <= i2 < opened_polys@.len() ==> (#[trigger] opened_polys@[i2])@.len() >= 1
                    && poly_ok(opened_polys@[i2]@) && opened_polys@[i2]@.len() <= 4096,
        decreases nw - oc3,
    {
        opened_polys.push(clone_poly(&pk.sigma_polys[oc3]));
        oc3 = oc3 + 1;
    }
    opened_polys.push(rand_poly);
    opened_polys.push(clone_poly(&z_poly));
    let mut oc4: usize = 0;
    while oc4 < nw
        invariant
            oc4 <= nw,
            chunk_polys@.len() == nw,
            2 <= n <= 4096,
            forall|i2: int|
                0 <= i2 < nw ==> (#[trigger] chunk_polys@[i2])@.len() == n && poly_ok(
                    chunk_polys@[i2]@,
                ),
            opened_polys@.len() == 2 * nw + nf + 2 + oc4,
            forall|i2: int|
                0 <= i2 < opened_polys@.len() ==> (#[trigger] opened_polys@[i2])@.len() >= 1
                    && poly_ok(opened_polys@[i2]@) && opened_polys@[i2]@.len() <= 4096,
        decreases nw - oc4,
    {
        opened_polys.push(clone_poly(&chunk_polys[oc4]));
        oc4 = oc4 + 1;
    }
    // Append every evaluation at x, then the accumulator at omega x.
    let mut ei: usize = 0;
    let total = opened_polys.len();
    while ei < total
        invariant
            ei <= total,
            total == opened_polys@.len(),
            total == 3 * nw + nf + 2,
            fr_ok(x),
            fr_ok(xw),
            forall|i2: int|
                0 <= i2 < opened_polys@.len() ==> (#[trigger] opened_polys@[i2])@.len() >= 1
                    && poly_ok(opened_polys@[i2]@) && opened_polys@[i2]@.len() <= 4096,
            proof@.len() == 48 * (2 * nw + 2) + 32 * ei + (if ei > 2 * nw + nf + 1 { 32int } else { 0int }),
            proof@.subrange(0, 48 * (nw as int)) == wseg,
        decreases total - ei,
    {
        let e = poly_eval(&opened_polys[ei], x);
        t.append_scalar(e);
        let eb = fr_to_bytes(e);
        let ghost before_eval = proof@;
        append_vec(&mut proof, &eb);
        proof {
            assert(proof@.subrange(0, 48 * (nw as int)) =~= before_eval.subrange(
                0,
                48 * (nw as int),
            ));
        }
        if ei == 2 * nw + nf + 1 {
            // Right after the accumulator's evaluation at x comes its
            // evaluation at omega x.
            let ew = poly_eval(&opened_polys[ei], xw);
            t.append_scalar(ew);
            let ewb = fr_to_bytes(ew);
            let ghost before_shift = proof@;
            append_vec(&mut proof, &ewb);
            proof {
                assert(proof@.subrange(0, 48 * (nw as int)) =~= before_shift.subrange(
                    0,
                    48 * (nw as int),
                ));
            }
        }
        ei = ei + 1;
    }
    // Aggregated openings.
    let v = t.squeeze_challenge();
    let mut agg: Vec<Fr> = Vec::new();
    agg.push(Fr::zero());
    let mut vp = Fr::one();
    let mut ai: usize = 0;
    while ai < total
        invariant
            ai <= total,
            total == opened_polys@.len(),
            fr_ok(vp),
            fr_ok(v),
            poly_ok(agg@),
            1 <= agg@.len() <= 4096,
            forall|i2: int|
                0 <= i2 < opened_polys@.len() ==> (#[trigger] opened_polys@[i2])@.len() >= 1
                    && poly_ok(opened_polys@[i2]@) && opened_polys@[i2]@.len() <= 4096,
        decreases total - ai,
    {
        agg = poly_add(&agg, &poly_scale(vp, &opened_polys[ai]));
        vp = fr_mul(vp, v);
        ai = ai + 1;
    }
    let (_, w1) = match open_single(srs, &agg, x) {
        Ok(o) => o,
        Err(e) => { return Err(e) },
    };
    let (_, w2) = match open_single(srs, &z_poly, xw) {
        Ok(o) => o,
        Err(e) => { return Err(e) },
    };
    t.append_bytes(&w1);
    let ghost before_w1 = proof@;
    append_vec(&mut proof, &w1);
    proof {
        assert(proof@.subrange(0, 48 * (nw as int)) =~= before_w1.subrange(0, 48 * (nw as int)));
    }
    t.append_bytes(&w2);
    let ghost before_w2 = proof@;
    append_vec(&mut proof, &w2);
    proof {
        assert(proof@.subrange(0, 48 * (nw as int)) =~= before_w2.subrange(0, 48 * (nw as int)));
    }
    let _u = t.squeeze_challenge();
    proof {
        assert forall|c2: int| 0 <= c2 < nw implies #[trigger] proof@.subrange(
            48 * c2,
            48 * c2 + 48,
        ) == msm_of(
            views(srs.g1_powers@),
            interp_vals(vals(asg.wires@[c2]@), pk.vk.domain),
            pk.vk.domain.n as int,
        ) by {
            assert(proof@.subrange(48 * c2, 48 * c2 + 48) =~= wseg.subrange(48 * c2, 48 * c2 + 48));
        }
    }
    Ok(proof)
}



/// The value of evaluation slot i in a proof's evaluation section.
pub open spec fn eval_v(p: Seq<u8>, nw: int, nf: int, i: int) -> nat {
    crate::transcript::le_val(p.subrange(96 * nw + 96 + 32 * i, 96 * nw + 128 + 32 * i), 32) as nat
}

/// Subtraction of values in the field.
pub open spec fn sub_v(a: nat, b: nat) -> nat {
    (((a - b) % (fp() as int))) as nat
}

/// One linear factor of the permutation product: w + beta * m + gamma.
pub open spec fn factor_v(w: nat, m: nat, beta: nat, gamma: nat) -> nat {
    (((w + (beta * m) % fp()) % fp()) + gamma) % fp()
}

/// The running permutation product over the first c wire columns,
/// starting from the accumulator value z0.
pub open spec fn perm_fold(w: Seq<nat>, m: Seq<nat>, beta: nat, gamma: nat, z0: nat, c: int) -> nat
    decreases c,
{
    if c <= 0 {
        z0
    } else {
        (perm_fold(w, m, beta, gamma, z0, c - 1) * factor_v(w[c - 1], m[c - 1], beta, gamma)) % fp()
    }
}

/// Gate identities at row zero of a one-row assignment, combined with
/// powers of y.
pub open spec fn gates_fold(a: Assignment, gs: Seq<Gate>, y: nat, m: int) -> nat
    decreases m,
{
    if m <= 0 {
        0nat
    } else {
        (gates_fold(a, gs, y, m - 1) + (pow_mod(y, (m - 1) as nat) * gate_eval(a, gs[m - 1], 0))
            % fp()) % fp()
    }
}

/// The quotient value rebuilt from the chunk evaluations: the sum of
/// chunk_c * (x^n)^c.
pub open spec fn tfold(tv: Seq<nat>, xn: nat, c: int) -> nat
    decreases c,
{
    if c <= 0 {
        0nat
    } else {
        (tfold(tv, xn, c - 1) + (pow_mod(xn, (c - 1) as nat) * tv[c - 1]) % fp()) % fp()
    }
}

/// Commitment segment i of the opened set, in schedule order: wire
/// commitments from the proof, then the key's fixed and permutation
/// commitments, the blinding and accumulator commitments, and the
/// quotient chunks.
pub open spec fn comm_seg(vk: VerifyingKey, p: Seq<u8>, i: int) -> Seq<u8> {
    let nw = vk.desc.num_wire_cols as int;
    let nf = vk.desc.num_fixed_cols as int;
    if i < nw {
        p.subrange(48 * i, 48 * i + 48)
    } else if i < nw + nf {
        vk.fixed_commits@[i - nw]@
    } else if i < 2 * nw + nf {
        vk.sigma_commits@[i - nw - nf]@
    } else if i == 2 * nw + nf {
        p.subrange(48 * nw + 48, 48 * nw + 96)
    } else if i == 2 * nw + nf + 1 {
        p.subrange(48 * nw, 48 * nw + 48)
    } else {
        p.subrange(
            48 * nw + 96 + 48 * (i - (2 * nw + nf + 2)),
            48 * nw + 144 + 48 * (i - (2 * nw + nf + 2)),
        )
    }
}

/// The evaluation matching opened-set index i (the shifted accumulator
/// evaluation sits between the plain ones and is skipped here).
pub open spec fn opened_eval(p: Seq<u8>, nw: int, nf: int, i: int) -> nat {
    if i <= 2 * nw + nf + 1 {
        eval_v(p, nw, nf, i)
    } else {
        eval_v(p, nw, nf, i + 1)
    }
}

/// The v-power fold of the opened commitments.
pub open spec fn cm_fold(vk: VerifyingKey, p: Seq<u8>, v: nat, m: int) -> Seq<u8>
    decreases m,
{
    if m <= 0 {
        g1_gen_mul_of(0)
    } else {
        g1_add_of(
            cm_fold(vk, p, v, m - 1),
            g1_mul_of(comm_seg(vk, p, m - 1), pow_mod(v, (m - 1) as nat)),
        )
    }
}

/// The v-power fold of the opened evaluations.
pub open spec fn ev_fold(p: Seq<u8>, nw: int, nf: int, v: nat, m: int) -> nat
    decreases m,
{
    if m <= 0 {
        0nat
    } else {
        (ev_fold(p, nw, nf, v, m - 1) + (pow_mod(v, (m - 1) as nat) * opened_eval(p, nw, nf, m - 1))
            % fp()) % fp()
    }
}

/// Everything a successful verification established: the challenges come
/// from the deterministic transcript replay, the one-row assignment holds
/// exactly the parsed evaluations, the reconstructed gate, permutation and
/// boundary identity holds at the evaluation point against the quotient,
/// and the aggregated opening passed the pairing check.
pub open spec fn verification_accepted(
    srs: Srs,
    vk: VerifyingKey,
    p: Seq<u8>,
    ch: Seq<Fr>,
    a1: Assignment,
    l0: nat,
) -> bool {
    let nw = vk.desc.num_wire_cols as int;
    let nf = vk.desc.num_fixed_cols as int;
    let pp = fp();
    let beta = fval(ch[0]);
    let gamma = fval(ch[1]);
    let y = fval(ch[2]);
    let x = fval(ch[3]);
    let v = fval(ch[4]);
    let u = fval(ch[5]);
    let w = Seq::new(nw as nat, |c: int| eval_v(p, nw, nf, c));
    let s = Seq::new(nw as nat, |c: int| eval_v(p, nw, nf, nw + nf + c));
    let idm = Seq::new(nw as nat, |c: int| (pow_mod(7, c as nat) * x) % pp);
    let z = eval_v(p, nw, nf, 2 * nw + nf + 1);
    let zw = eval_v(p, nw, nf, 2 * nw + nf + 2);
    let tv = Seq::new(nw as nat, |c: int| eval_v(p, nw, nf, 2 * nw + nf + 3 + c));
    let g = vk.desc.gates@.len() as int;
    let xn = pow_mod(x, vk.domain.n as nat);
    let vanish = sub_v(xn, 1);
    let gsum = gates_fold(a1, vk.desc.gates@, y, g);
    let perm = sub_v(
        perm_fold(w, s, beta, gamma, zw, nw),
        perm_fold(w, idm, beta, gamma, z, nw),
    );
    let bound = (l0 * sub_v(z, 1)) % pp;
    let lhs = (((gsum + (pow_mod(y, g as nat) * perm) % pp) % pp) + (pow_mod(y, (g + 1) as nat)
        * bound) % pp) % pp;
    let rhs = (tfold(tv, xn, nw) * vanish) % pp;
    let total = 3 * nw + nf + 2;
    let e1 = ev_fold(p, nw, nf, v, total);
    let offw = 96 * nw + 96 + 32 * (3 * nw + nf + 3);
    let w1 = p.subrange(offw, offw + 48);
    let w2 = p.subrange(offw + 48, offw + 96);
    let zcm = p.subrange(48 * nw, 48 * nw + 48);
    let zx = (x * fval(vk.domain.omega)) % pp;
    let lhs_g1 = g1_add_of(w1, g1_mul_of(w2, u));
    let r1 = g1_add_of(
        g1_add_of(g1_mul_of(w1, x), cm_fold(vk, p, v, total)),
        g1_gen_mul_of(sub_v(0, e1)),
    );
    let r2 = g1_mul_of(
        g1_add_of(g1_add_of(g1_mul_of(w2, zx), zcm), g1_gen_mul_of(sub_v(0, zw))),
        u,
    );
    let rhs_g1 = g1_add_of(r1, r2);
    &&& challenges_ok(vk.digest@, p, nw, nf, ch)
    &&& a1.rows == 1
    &&& a1.wires@.len() == nw
    &&& a1.fixed@.len() == nf
    &&& (forall|c: int| 0 <= c < nw ==> fval((#[trigger] a1.wires@[c])@[0]) == eval_v(p, nw, nf, c))
    &&& (forall|c: int|
        0 <= c < nf ==> fval((#[trigger] a1.fixed@[c])@[0]) == eval_v(p, nw, nf, nw + c))
    &&& lagrange_rel(vk.domain, x, 0, l0)
    &&& lhs == rhs
    &&& pairing_eq_of(lhs_g1, srs.g2_tau@, rhs_g1, srs.g2_gen@)
}

/// Reads one field element out of a proof at a byte offset; rejects a
/// non-canonical encoding.
fn parse_scalar(proof: &Vec<u8>, off: usize) -> (r: Result<Fr, Error>)
    requires
        off + 32 <= proof@.len(),
    ensures
        r is Ok ==> fr_ok(r->Ok_0) && fval(r->Ok_0) == crate::transcript::le_val(
            proof@.subrange(off as int, off as int + 32),
            32,
        ),
        r is Err ==> r->Err_0 == Error::VerificationFailed,
{
    let b = take_bytes(proof, off, 32);
    match fr_from_bytes(&b) {
        Some(s) => Ok(s),
        None => Err(Error::VerificationFailed),
    }
}

/// Verifies a proof: replays the transcript, recomputes every challenge,
/// reconstructs the constraint identity at the evaluation point from the
/// received evaluations, and checks the aggregated opening through one
/// pairing equation. All-or-nothing: any mismatch is a failure.
#[verifier::rlimit(100)]
#[verifier::spinoff_prover]
pub fn verify(srs: &Srs, vk: &VerifyingKey, proof: &Vec<u8>) -> (r: Result<(), Error>)
    requires
        srs_wf(*srs),
        vk_wf(*vk),
    ensures
        r is Ok ==> proof@.len() == proof_len(
            vk.desc.num_wire_cols as int,
            vk.desc.num_fixed_cols as int,
        ) && (exists|ch: Seq<Fr>, a1: Assignment, l0: nat|
            verification_accepted(*srs, *vk, proof@, ch, a1, l0)),
        r is Err ==> r->Err_0 == Error::VerificationFailed,
{
    let n = vk.domain.n;
    let nw = vk.desc.num_wire_cols;
    let nf = vk.desc.num_fixed_cols;
    let ne: usize = 3 * nw + nf + 3;
    // Derive every challenge by replaying the schedule.
    let ch = match verifier_challenges(&vk.digest, proof, nw, nf) {
        Ok(c) => c,
        Err(_) => { return Err(Error::VerificationFailed) },
    };
    proof {
        assert(challenges_ok(
            vk.digest@,
            proof@,
            vk.desc.num_wire_cols as int,
            vk.desc.num_fixed_cols as int,
            ch@,
        ));
    }
    let beta = ch[0];
    let gamma = ch[1];
    let y = ch[2];
    let x = ch[3];
    let v = ch[4];
    let u = ch[5];
    // Parse the evaluations.
    let off_e: usize = 96 * nw + 96;
    let mut evals: Vec<Fr> = Vec::new();
    let mut ei: usize = 0;
    while ei < ne
        invariant
            ei <= ne,
            ne == 3 * nw + nf + 3,
            nw <= 16,
            nf <= 64,
            off_e == 96 * nw + 96,
            proof@.len() == proof_len(nw as int, nf as int),
            evals@.len() == ei,
            forall|i: int| 0 <= i < ei ==> fr_ok(#[trigger] evals@[i]),
            forall|i: int|
                0 <= i < ei ==> fval(#[trigger] evals@[i]) == eval_v(proof@, nw as int, nf as int, i),
        decreases ne - ei,
    {
        let e = match parse_scalar(proof, off_e + 32 * ei) {
            Ok(e) => e,
            Err(e) => { return Err(Error::VerificationFailed) },
        };
        evals.push(e);
        ei = ei + 1;
    }
    // Evaluation order: wires, fixed, sigma, random, z, z(omega x), chunks.
    let z_ev = evals[2 * nw + nf + 1];
    let zw_ev = evals[2 * nw + nf + 2];
    // Reconstruct every gate identity at x from the evaluations.
    let mut wires_ev: Vec<Vec<Fr>> = Vec::new();
    let mut wc: usize = 0;
    while wc < nw
        invariant
            wc <= nw,
            ne == 3 * nw + nf + 3,
            evals@.len() == ne,
            forall|i: int| 0 <= i < ne ==> fr_ok(#[trigger] evals@[i]),
            nw <= 16,
            nf <= 64,
            wires_ev@.len() == wc,
            forall|i: int|
                0 <= i < wc ==> col_wf((#[trigger] wires_ev@[i])@, 1),
            forall|i: int| 0 <= i < ne ==> fval(#[trigger] evals@[i]) == eval_v(proof@, nw as int, nf as int, i),
            forall|i: int|
                0 <= i < wc ==> fval((#[trigger] wires_ev@[i])@[0]) == eval_v(proof@, nw as int, nf as int, i),
        decreases nw - wc,
    {
        let mut col: Vec<Fr> = Vec::new();
        col.push(evals[wc]);
        wires_ev.push(col);
        wc = wc + 1;
    }
    let mut fixed_ev: Vec<Vec<Fr>> = Vec::new();
    let mut fc: usize = 0;
    while fc < nf
        invariant
            fc <= nf,
            ne == 3 * nw + nf + 3,
            nw <= 16,
            evals@.len() == ne,
            forall|i: int| 0 <= i < ne ==> fr_ok(#[trigger] evals@[i]),
            fixed_ev@.len() == fc,
            forall|i: int|
                0 <= i < fc ==> col_wf((#[trigger] fixed_ev@[i])@, 1),
            forall|i: int| 0 <= i < ne ==> fval(#[trigger] evals@[i]) == eval_v(proof@, nw as int, nf as int, i),
            forall|i: int|
                0 <= i < fc ==> fval((#[trigger] fixed_ev@[i])@[0]) == eval_v(proof@, nw as int, nf as int, nw + i),
        decreases nf - fc,
    {
        let mut col: Vec<Fr> = Vec::new();
        col.push(evals[nw + fc]);
        fixed_ev.push(col);
        fc = fc + 1;
    }
    let a1 = Assignment { rows: 1, wires: wires_ev, fixed: fixed_ev };
    let mut gsum = Fr::zero();
    let mut yp = Fr::one();
    let mut g: usize = 0;
    proof {
        vstd::arithmetic::power::lemma_pow0(fval(y) as int);
        vstd::arithmetic::div_mod::lemma_small_mod(1nat, fp());
    }
    while g < vk.desc.gates.len()
        invariant
            g <= vk.desc.gates@.len(),
            vk_wf(*vk),
            nw == vk.desc.num_wire_cols,
            nf == vk.desc.num_fixed_cols,
            a1.rows == 1,
            a1.wires@.len() == nw,
            a1.fixed@.len() == nf,
            forall|i: int| 0 <= i < a1.wires@.len() ==> col_wf((#[trigger] a1.wires@[i])@, 1),
            forall|i: int| 0 <= i < a1.fixed@.len() ==> col_wf((#[trigger] a1.fixed@[i])@, 1),
            fr_ok(gsum),
            fr_ok(yp),
            fr_ok(y),
            fval(yp) == pow_mod(fval(y), g as nat),
            fval(gsum) == gates_fold(a1, vk.desc.gates@, fval(y), g as int),
        decreases vk.desc.gates@.len() - g,
    {
        let gv = eval_gate(&a1, &vk.desc.gates[g], 0);
        gsum = fr_add(gsum, fr_mul(yp, gv));
        proof {
            lemma_pow_mod_step(fval(y), g as nat);
        }
        yp = fr_mul(yp, y);
        g = g + 1;
    }
    // The permutation identity at x.
    let seven = Fr::from_u64(7);
    let mut with_sigma = zw_ev;
    let mut with_id = z_ev;
    let mut kc = Fr::one();
    let mut pc: usize = 0;
    proof {
        vstd::arithmetic::power::lemma_pow0(7int);
        vstd::arithmetic::div_mod::lemma_small_mod(1nat, fp());
    }
    while pc < nw
        invariant
            pc <= nw,
            ne == 3 * nw + nf + 3,
            nw <= 16,
            nf <= 64,
            evals@.len() == ne,
            forall|i: int| 0 <= i < ne ==> fr_ok(#[trigger] evals@[i]),
            forall|i: int|
                0 <= i < ne ==> fval(#[trigger] evals@[i]) == eval_v(proof@, nw as int, nf as int, i),
            fr_ok(with_sigma),
            fr_ok(with_id),
            fr_ok(kc),
            fr_ok(seven),
            fr_ok(beta),
            fr_ok(gamma),
            fr_ok(x),
            fval(seven) == 7,
            fval(kc) == pow_mod(7, pc as nat),
            fval(with_sigma) == perm_fold(
                Seq::new(nw as nat, |c: int| eval_v(proof@, nw as int, nf as int, c)),
                Seq::new(nw as nat, |c: int| eval_v(proof@, nw as int, nf as int, nw + nf + c)),
                fval(beta),
                fval(gamma),
                eval_v(proof@, nw as int, nf as int, 2 * nw + nf + 2),
                pc as int,
            ),
            fval(with_id) == perm_fold(
                Seq::new(nw as nat, |c: int| eval_v(proof@, nw as int, nf as int, c)),
                Seq::new(nw as nat, |c: int| (pow_mod(7, c as nat) * fval(x)) % fp()),
                fval(beta),
                fval(gamma),
                eval_v(proof@, nw as int, nf as int, 2 * nw + nf + 1),
                pc as int,
            ),
        decreases nw - pc,
    {
        let wv = evals[pc];
        let sv = evals[nw + nf + pc];
        with_sigma = fr_mul(with_sigma, fr_add(fr_add(wv, fr_mul(beta, sv)), gamma));
        with_id = fr_mul(with_id, fr_add(fr_add(wv, fr_mul(beta, fr_mul(kc, x))), gamma));
        proof {
            lemma_pow_mod_step(7, pc as nat);
        }
        kc = fr_mul(kc, seven);
        pc = pc + 1;
    }
    let perm_v = fr_sub(with_sigma, with_id);
    // The boundary identity at x needs the first Lagrange basis value.
    let xn = fr_pow(x, n as u64);
    let vanish = fr_sub(xn, Fr::one());
    let one = Fr::one();
    proof {
        vstd::arithmetic::power::lemma_pow0(fval(vk.domain.omega) as int);
        vstd::arithmetic::div_mod::lemma_small_mod(1nat, fp());
        vstd::arithmetic::div_mod::lemma_sub_mod_noop(
            vstd::arithmetic::power::pow(fval(x) as int, n as nat),
            1int,
            fp() as int,
        );
        vstd::arithmetic::div_mod::lemma_mod_bound(
            vstd::arithmetic::power::pow(fval(x) as int, n as nat) - 1,
            fp() as int,
        );
        vstd::arithmetic::div_mod::lemma_small_mod(vanishing_v(fval(x), n as nat), fp());
    }
    let l0 = if fr_eq(x, one) {
        one
    } else {
        let denom = fr_mul(Fr::from_u64(n as u64), fr_sub(x, one));
        match fr_invert(denom) {
            Some(dinv) => {
                let lv = fr_mul(vanish, dinv);
                proof {
                    crate::domain::lemma_cancel_inverse(fval(vanish), fval(dinv), fval(denom));
                    assert(lagrange_rel(vk.domain, fval(x), 0, fval(lv)));
                }
                lv
            },
            None => { return Err(Error::VerificationFailed) },
        }
    };
    proof {
        assert(lagrange_rel(vk.domain, fval(x), 0, fval(l0)));
    }
    let bound_v = fr_mul(l0, fr_sub(z_ev, one));
    let mut lhs = fr_add(gsum, fr_mul(yp, perm_v));
    proof {
        lemma_pow_mod_step(fval(y), vk.desc.gates@.len() as nat);
    }
    yp = fr_mul(yp, y);
    lhs = fr_add(lhs, fr_mul(yp, bound_v));
    // The quotient side, rebuilt from the chunk evaluations.
    let mut t_ev = Fr::zero();
    let mut xnp = Fr::one();
    let mut tc: usize = 0;
    proof {
        vstd::arithmetic::power::lemma_pow0(fval(xn) as int);
        vstd::arithmetic::div_mod::lemma_small_mod(1nat, fp());
        vstd::arithmetic::div_mod::lemma_small_mod(0nat, fp());
    }
    while tc < nw
        invariant
            tc <= nw,
            ne == 3 * nw + nf + 3,
            nw <= 16,
            nf <= 64,
            evals@.len() == ne,
            forall|i: int| 0 <= i < ne ==> fr_ok(#[trigger] evals@[i]),
            forall|i: int|
                0 <= i < ne ==> fval(#[trigger] evals@[i]) == eval_v(proof@, nw as int, nf as int, i),
            fr_ok(t_ev),
            fr_ok(xnp),
            fr_ok(xn),
            fval(xnp) == pow_mod(fval(xn), tc as nat),
            fval(t_ev) == tfold(
                Seq::new(nw as nat, |c: int| eval_v(proof@, nw as int, nf as int, 2 * nw + nf + 3 + c)),
                fval(xn),
                tc as int,
            ),
        decreases nw - tc,
    {
        t_ev = fr_add(t_ev, fr_mul(xnp, evals[2 * nw + nf + 3 + tc]));
        proof {
            lemma_pow_mod_step(fval(xn), tc as nat);
        }
        xnp = fr_mul(xnp, xn);
        tc = tc + 1;
    }
    let rhs = fr_mul(t_ev, vanish);
    if !fr_eq(lhs, rhs) {
        return Err(Error::VerificationFailed);
    }
    // The aggregated opening: fold every commitment and evaluation opened
    // at x with powers of v.
    let mut f1 = g1_gen_mul(Fr::zero());
    let mut e1 = Fr::zero();
    let mut vp = Fr::one();
    proof {
        vstd::arithmetic::power::lemma_pow0(fval(v) as int);
        vstd::arithmetic::div_mod::lemma_small_mod(1nat, fp());
        vstd::arithmetic::div_mod::lemma_small_mod(0nat, fp());
    }
    let total: usize = 3 * nw + nf + 2;
    let mut oi: usize = 0;
    while oi < total
        invariant
            oi <= total,
            total == 3 * nw + nf + 2,
            ne == 3 * nw + nf + 3,
            nw <= 16,
            nf <= 64,
            vk_wf(*vk),
            nw == vk.desc.num_wire_cols,
            nf == vk.desc.num_fixed_cols,
            proof@.len() == proof_len(nw as int, nf as int),
            evals@.len() == ne,
            forall|i: int| 0 <= i < ne ==> fr_ok(#[trigger] evals@[i]),
            f1@.len() == 48,
            fr_ok(e1),
            fr_ok(vp),
            fr_ok(v),
            forall|i: int|
                0 <= i < ne ==> fval(#[trigger] evals@[i]) == eval_v(proof@, nw as int, nf as int, i),
            fval(vp) == pow_mod(fval(v), oi as nat),
            fval(e1) == ev_fold(proof@, nw as int, nf as int, fval(v), oi as int),
            f1@ == cm_fold(*vk, proof@, fval(v), oi as int),
        decreases total - oi,
    {
        // Commitment i of the opened set, in schedule order.
        let cm: Vec<u8> = if oi < nw {
            take_bytes(proof, 48 * oi, 48)
        } else if oi < nw + nf {
            clone_bytes(&vk.fixed_commits[oi - nw])
        } else if oi < 2 * nw + nf {
            clone_bytes(&vk.sigma_commits[oi - nw - nf])
        } else if oi == 2 * nw + nf {
            take_bytes(proof, 48 * nw + 48, 48)
        } else if oi == 2 * nw + nf + 1 {
            take_bytes(proof, 48 * nw, 48)
        } else {
            take_bytes(proof, 48 * nw + 96 + 48 * (oi - (2 * nw + nf + 2)), 48)
        };
        // Its evaluation: everything except the accumulator's shifted one.
        let ev = if oi <= 2 * nw + nf + 1 {
            evals[oi]
        } else {
            evals[oi + 1]
        };
        proof {
            assert(cm@ == comm_seg(*vk, proof@, oi as int));
            assert(fval(ev) == opened_eval(proof@, nw as int, nf as int, oi as int));
        }
        let term = match g1_mul(&cm, vp) {
            Some(t) => t,
            None => { return Err(Error::VerificationFailed) },
        };
        f1 = match g1_add(&f1, &term) {
            Some(s) => s,
            None => { return Err(Error::VerificationFailed) },
        };
        e1 = fr_add(e1, fr_mul(vp, ev));
        proof {
            lemma_pow_mod_step(fval(v), oi as nat);
        }
        vp = fr_mul(vp, v);
        oi = oi + 1;
    }
    // The two opening proofs and the cross-point aggregation.
    let off_w: usize = 96 * nw + 96 + 32 * ne;
    let w1 = take_bytes(proof, off_w, 48);
    let w2 = take_bytes(proof, off_w + 48, 48);
    let zx = fr_mul(x, vk.domain.omega);
    let z_cm = take_bytes(proof, 48 * nw, 48);
    let uw2 = match g1_mul(&w2, u) {
        Some(t) => t,
        None => { return Err(Error::VerificationFailed) },
    };
    let lhs_g1 = match g1_add(&w1, &uw2) {
        Some(t) => t,
        None => { return Err(Error::VerificationFailed) },
    };
    let r1a = match g1_mul(&w1, x) {
        Some(t) => t,
        None => { return Err(Error::VerificationFailed) },
    };
    let r1b = match g1_add(&r1a, &f1) {
        Some(t) => t,
        None => { return Err(Error::VerificationFailed) },
    };
    let r1 = match g1_add(&r1b, &g1_gen_mul(fr_neg(e1))) {
        Some(t) => t,
        None => { return Err(Error::VerificationFailed) },
    };
    let r2b = match g1_mul(&w2, zx) {
        Some(t) => t,
        None => { return Err(Error::VerificationFailed) },
    };
    let r2c = match g1_add(&r2b, &z_cm) {
        Some(t) => t,
        None => { return Err(Error::VerificationFailed) },
    };
    let r2d = match g1_add(&r2c, &g1_gen_mul(fr_neg(zw_ev))) {
        Some(t) => t,
        None => { return Err(Error::VerificationFailed) },
    };
    let r2 = match g1_mul(&r2d, u) {
        Some(t) => t,
        None => { return Err(Error::VerificationFailed) },
    };
    let rhs_g1 = match g1_add(&r1, &r2) {
        Some(t) => t,
        None => { return Err(Error::VerificationFailed) },
    };
    match pairing_eq(&lhs_g1, &srs.g2_tau, &rhs_g1, &srs.g2_gen) {
        Some(true) => {
            proof {
                vstd::arithmetic::div_mod::lemma_mod_add_multiples_vanish(
                    0 - (fval(e1) as int),
                    fp() as int,
                );
                vstd::arithmetic::div_mod::lemma_mod_add_multiples_vanish(
                    0 - (fval(zw_ev) as int),
                    fp() as int,
                );
                assert(verification_accepted(*srs, *vk, proof@, ch@, a1, fval(l0)));
            }
            Ok(())
        },
        _ => Err(Error::VerificationFailed),
    }
}

/// A plain copy of a byte vector.
fn clone_bytes(v: &Vec<u8>) -> (r: Vec<u8>)
    ensures
        r@ == v@,
{
    let mut r: Vec<u8> = Vec::new();
    let mut i: usize = 0;
    while i < v.len()
        invariant
            i <= v@.len(),
            r@ == v@.subrange(0, i as int),
        decreases v@.len() - i,
    {
        r.push(v[i]);
        proof {
            assert(v@.subrange(0, (i + 1) as int) =~= v@.subrange(0, i as int).push(v@[i as int]));
        }
        i = i + 1;
    }
    proof {
        assert(v@.subrange(0, v@.len() as int) =~= v@);
    }
    r
}

} // verus!
