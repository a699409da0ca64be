//! The Fiat-Shamir transcript: a running absorption state shared
//! bit-for-bit between prover and verifier. Challenges are squeezed from
//! a hash of the state, and squeezing replaces the state so later
//! challenges differ. Everything squeezed is a deterministic function of
//! everything absorbed so far.
use vstd::prelude::*;
use vstd::arithmetic::power::pow;
use crate::field::{Fr, fval, fr_ok, fp};

verus! {

/// What the outside hash returns on a byte string: 64 bytes depending on
/// the input alone.
pub uninterp spec fn blake2b_of(input: Seq<u8>) -> Seq<u8>;

/// Relies on blake2b_simd::blake2b: a 64-byte digest, a function of the
/// input bytes alone.
#[verifier::external_body]
pub fn blake2b(input: &Vec<u8>) -> (r: Vec<u8>)
    ensures
        r@ == blake2b_of(input@),
        r@.len() == 64,
{
    blake2b_simd::blake2b(input.as_slice()).as_bytes().to_vec()
}

/// The little-endian value of a byte string.
pub open spec fn le_val(b: Seq<u8>, m: int) -> int
    decreases m,
{
    if m <= 0 {
        0
    } else {
        le_val(b, m - 1) + b[m - 1] * pow(256, (m - 1) as nat)
    }
}

/// The canonical 32-byte little-endian encoding of a reduced value.
pub open spec fn is_le_bytes32(b: Seq<u8>, v: nat) -> bool {
    b.len() == 32 && le_val(b, 32) == v
}

/// Relies on bls12_381::Scalar::to_bytes: the canonical little-endian
/// 32-byte representation of a fully reduced scalar.
#[verifier::external_body]
pub fn fr_to_bytes(a: Fr) -> (r: Vec<u8>)
    requires
        fr_ok(a),
    ensures
        is_le_bytes32(r@, fval(a)),
{
    let x = bls12_381::Scalar::from_raw([a.l0, a.l1, a.l2, a.l3]);
    x.to_bytes().to_vec()
}

/// Relies on bls12_381::Scalar::from_bytes: accepts exactly the
/// canonical little-endian encodings of reduced values.
#[verifier::external_body]
pub fn fr_from_bytes(b: &Vec<u8>) -> (r: Option<Fr>)
    requires
        b@.len() == 32,
    ensures
        r is Some ==> fval(r->Some_0) == le_val(b@, 32) && fr_ok(r->Some_0),
        r is Some <==> le_val(b@, 32) < fp(),
{
    let arr: [u8; 32] = b.as_slice().try_into().unwrap();
    match Option::<bls12_381::Scalar>::from(bls12_381::Scalar::from_bytes(&arr)) {
        None => None,
        Some(s) => {
            let t = s.to_bytes();
            Some(Fr {
                l0: u64::from_le_bytes(t[0..8].try_into().unwrap()),
                l1: u64::from_le_bytes(t[8..16].try_into().unwrap()),
                l2: u64::from_le_bytes(t[16..24].try_into().unwrap()),
                l3: u64::from_le_bytes(t[24..32].try_into().unwrap()),
            })
        }
    }
}

/// Relies on bls12_381::Scalar::from_bytes_wide: reduces a 512-bit
/// little-endian integer modulo the characteristic.
#[verifier::external_body]
pub fn fr_from_wide(b: &Vec<u8>) -> (r: Fr)
    requires
        b@.len() == 64,
    ensures
        fval(r) as int == le_val(b@, 64) % (fp() as int),
        fr_ok(r),
{
    let arr: [u8; 64] = b.as_slice().try_into().unwrap();
    let t = bls12_381::Scalar::from_bytes_wide(&arr).to_bytes();
    Fr {
        l0: u64::from_le_bytes(t[0..8].try_into().unwrap()),
        l1: u64::from_le_bytes(t[8..16].try_into().unwrap()),
        l2: u64::from_le_bytes(t[16..24].try_into().unwrap()),
        l3: u64::from_le_bytes(t[24..32].try_into().unwrap()),
    }
}

/// The challenge value squeezed from a transcript state.
pub open spec fn challenge_of(state: Seq<u8>) -> nat {
    (le_val(blake2b_of(state), 64) % (fp() as int)) as nat
}

/// The state left behind by a squeeze.
pub open spec fn squeezed_state(state: Seq<u8>) -> Seq<u8> {
    blake2b_of(state)
}

/// A Fiat-Shamir transcript. Its whole behaviour is a function of the
/// byte sequence absorbed so far, held in `state`.
pub struct Transcript {
    pub state: Vec<u8>,
}

impl Transcript {
    /// A fresh transcript, seeded with nothing.
    pub fn new() -> (r: Transcript)
        ensures
            r.state@ == Seq::<u8>::empty(),
    {
        let t = Transcript { state: Vec::new() };
        proof {
            assert(t.state@ =~= Seq::<u8>::empty());
        }
        t
    }

    /// Absorbs raw bytes (a serialized curve point or digest).
    pub fn append_bytes(&mut self, b: &Vec<u8>)
        ensures
            final(self).state@ == old(self).state@ + b@,
    {
        let mut i: usize = 0;
        while i < b.len()
            invariant
                i <= b@.len(),
                self.state@ == old(self).state@ + b@.subrange(0, i as int),
            decreases b@.len() - i,
        {
            self.state.push(b[i]);
            proof {
                assert(old(self).state@ + b@.subrange(0, (i + 1) as int) =~= (old(self).state@
                    + b@.subrange(0, i as int)).push(b@[i as int]));
            }
            i = i + 1;
        }
        proof {
            assert(b@.subrange(0, b@.len() as int) =~= b@);
        }
    }

    /// Absorbs a field element through its canonical encoding.
    pub fn append_scalar(&mut self, s: Fr)
        requires
            fr_ok(s),
        ensures
            final(self).state@.len() == old(self).state@.len() + 32,
            is_le_bytes32(final(self).state@.subrange(old(self).state@.len() as int, final(self).state@.len() as int), fval(s)),
            final(self).state@.subrange(0, old(self).state@.len() as int) == old(self).state@,
    {
        let b = fr_to_bytes(s);
        self.append_bytes(&b);
        proof {
            assert(self.state@.subrange(old(self).state@.len() as int, self.state@.len() as int)
                =~= b@);
            assert(self.state@.subrange(0, old(self).state@.len() as int) =~= old(self).state@);
        }
    }

    /// Squeezes a challenge: hashes the state, reduces the digest to a
    /// field element, and replaces the state by the digest so the next
    /// squeeze differs.
    pub fn squeeze_challenge(&mut self) -> (r: Fr)
        ensures
            fval(r) == challenge_of(old(self).state@),
            fr_ok(r),
            final(self).state@ == squeezed_state(old(self).state@),
    {
        let h = blake2b(&self.state);
        let c = fr_from_wide(&h);
        self.state = h;
        c
    }
}

} // verus!
