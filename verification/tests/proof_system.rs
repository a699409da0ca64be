use miniplonk::domain::evaluation_domain;
use miniplonk::example::{configure, synthesize};
use miniplonk::field::{fr_add, Fr};
use miniplonk::kzg::{commit, open_batch, open_single, setup, verify_batch, verify_single};
use miniplonk::protocol::{keygen, prove, proof_len_bytes, verifier_challenges, verify};
use miniplonk::Error;

fn seed() -> Vec<u8> {
    vec![7u8; 32]
}

fn make_proof(a: u64, b: u64) -> (miniplonk::kzg::Srs, miniplonk::protocol::ProvingKey, Vec<u8>) {
    let dom = evaluation_domain(3).expect("domain");
    let srs = setup(dom.n, &seed());
    let d = configure();
    let asg = synthesize(&d, Fr::from_u64(a), Fr::from_u64(b), dom.n).expect("valid witness");
    let pk = keygen(&srs, &dom, d, &asg).expect("keygen");
    let proof = prove(&srs, &pk, &asg, &seed()).expect("prove");
    (srs, pk, proof)
}

#[test]
fn completeness_for_zero_witness() {
    let (srs, pk, proof) = make_proof(0, 0);
    assert_eq!(verify(&srs, &pk.vk, &proof), Ok(()));
}

#[test]
fn completeness_for_two_witness() {
    let (srs, pk, proof) = make_proof(2, 2);
    assert_eq!(verify(&srs, &pk.vk, &proof), Ok(()));
}

#[test]
fn proof_has_documented_length() {
    let (_, _, proof) = make_proof(0, 0);
    assert_eq!(proof.len(), proof_len_bytes(3, 4));
    assert_eq!(proof.len(), 992);
}

#[test]
fn tampered_evaluation_fails_verification() {
    let (srs, pk, proof) = make_proof(2, 2);
    // Flip one byte inside the first evaluation scalar.
    let mut bad = proof.clone();
    bad[96 * 3 + 96] ^= 1;
    assert_eq!(verify(&srs, &pk.vk, &bad), Err(Error::VerificationFailed));
}

#[test]
fn tampered_commitment_fails_verification() {
    let (srs, pk, proof) = make_proof(0, 0);
    let mut bad = proof.clone();
    bad[0] ^= 1;
    assert_eq!(verify(&srs, &pk.vk, &bad), Err(Error::VerificationFailed));
}

#[test]
fn truncated_proof_fails_verification() {
    let (srs, pk, mut proof) = make_proof(0, 0);
    proof.pop();
    assert_eq!(verify(&srs, &pk.vk, &proof), Err(Error::VerificationFailed));
}

#[test]
fn challenge_sequence_is_deterministic() {
    let (srs, pk, proof) = make_proof(2, 2);
    let c1 = verifier_challenges(&pk.vk.digest, &proof, 3, 4).expect("replay");
    let c2 = verifier_challenges(&pk.vk.digest, &proof, 3, 4).expect("replay");
    assert_eq!(c1, c2);
    // Two full verification runs agree as well.
    assert_eq!(verify(&srs, &pk.vk, &proof), verify(&srs, &pk.vk, &proof));
}

#[test]
fn single_openings_verify() {
    let srs = setup(8, &seed());
    let poly: Vec<Fr> = (3u64..=10).map(Fr::from_u64).collect();
    let c = commit(&srs, &poly).expect("commit");
    let z = Fr::from_u64(5);
    let (value, w) = open_single(&srs, &poly, z).expect("open");
    assert_eq!(verify_single(&srs, &c, z, value, &w), Ok(()));
    // A wrong claimed value must be rejected.
    let wrong = fr_add(value, Fr::one());
    assert_eq!(verify_single(&srs, &c, z, wrong, &w), Err(Error::InvalidOpening));
}

#[test]
fn batched_opening_agrees_with_single_openings() {
    let srs = setup(8, &seed());
    let polys: Vec<Vec<Fr>> = vec![
        (1u64..=8).map(Fr::from_u64).collect(),
        (11u64..=18).map(Fr::from_u64).collect(),
        (21u64..=28).map(Fr::from_u64).collect(),
    ];
    let z = Fr::from_u64(9);
    let v = Fr::from_u64(31);
    let comms: Vec<Vec<u8>> =
        polys.iter().map(|p| commit(&srs, p).expect("commit")).collect();
    // Each polynomial opened on its own verifies.
    let mut singles = Vec::new();
    for p in &polys {
        let (value, _w) = open_single(&srs, p, z).expect("open");
        singles.push(value);
    }
    for (i, p) in polys.iter().enumerate() {
        let (value, w) = open_single(&srs, p, z).expect("open");
        assert_eq!(verify_single(&srs, &comms[i], z, value, &w), Ok(()));
    }
    // The aggregated opening accepts exactly the same evaluations.
    let (evals, w) = open_batch(&srs, &polys, z, v).expect("batch open");
    assert_eq!(evals, singles);
    assert_eq!(verify_batch(&srs, &comms, z, &evals, v, &w), Ok(()));
    // And rejects when any single evaluation is off.
    let mut bad = evals.clone();
    bad[1] = fr_add(bad[1], Fr::one());
    assert_eq!(verify_batch(&srs, &comms, z, &bad, v, &w), Err(Error::InvalidOpening));
}

#[test]
fn commit_rejects_oversized_polynomials() {
    let srs = setup(4, &seed());
    let poly: Vec<Fr> = (0u64..9).map(Fr::from_u64).collect();
    assert_eq!(commit(&srs, &poly).unwrap_err(), Error::DegreeOverflow);
}

#[test]
fn setup_is_reproducible_for_one_seed() {
    let s1 = setup(4, &seed());
    let s2 = setup(4, &seed());
    assert_eq!(s1.g1_powers, s2.g1_powers);
    assert_eq!(s1.g2_tau, s2.g2_tau);
}
