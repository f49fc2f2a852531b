//! NTRUMLS: a lattice signature scheme over the ring Z_q[x]/(x^N - 1).
//!
//! Keys and signatures travel as byte blobs. `generate_keys` derives a key
//! pair from caller-supplied entropy, `sign` produces a signature blob that
//! `verify` accepts, and the codec and the scheme are specified in the
//! modules below.
use crate::codec::{parse_public, parse_signature, sub_bytes, TAG_SIGNATURE};
use crate::params::ParamSet;
use crate::poly::{conv, within};
use crate::scheme::{attempt_yields, generate_key_blobs, MAX_KEYGEN_ATTEMPTS, key_pair, keys_decode_alike, repacks_signature, sign_blobs, signature_of, verifies, verify_blobs};
use vstd::prelude::*;

pub mod codec;
pub mod digits;
pub mod hash;
pub mod params;
pub mod poly;
pub mod scheme;

verus! {

/// NTRUMLS private key
#[derive(Clone, Debug, PartialEq, Eq)]
pub struct PrivateKey {
    key: Vec<u8>,
}

impl View for PrivateKey {
    type V = Seq<u8>;

    closed spec fn view(&self) -> Seq<u8> {
        self.key@
    }
}

impl PrivateKey {
    /// Import the actual bytes of the key to the struct
    pub fn import(bytes: &[u8]) -> (r: PrivateKey)
        ensures
            r@ == bytes@,
    {
        PrivateKey { key: sub_bytes(bytes, 0, bytes.len()) }
    }

    /// Get the byte slice of the key
    pub fn get_bytes(&self) -> (r: &[u8])
        ensures
            r@ == self@,
    {
        self.key.as_slice()
    }
}

/// NTRUMLS public key
#[derive(Clone, Debug, PartialEq, Eq)]
pub struct PublicKey {
    key: Vec<u8>,
}

impl View for PublicKey {
    type V = Seq<u8>;

    closed spec fn view(&self) -> Seq<u8> {
        self.key@
    }
}

impl PublicKey {
    /// Import the actual bytes of the key to the struct
    pub fn import(bytes: &[u8]) -> (r: PublicKey)
        ensures
            r@ == bytes@,
    {
        PublicKey { key: sub_bytes(bytes, 0, bytes.len()) }
    }

    /// Get the byte slice of the key
    pub fn get_bytes(&self) -> (r: &[u8])
        ensures
            r@ == self@,
    {
        self.key.as_slice()
    }
}

/// Generates a private and public key pair of the parameter set from the
/// entropy in `seed`. Attempt a samples F and G from the stream of
/// (tag, seed, a); a returned pair is what one such attempt below the cap
/// yields: the private blob encodes (F, G, G^-1 mod p) and the public blob
/// (h, digest of packed h), with X = p * F invertible modulo q, G invertible
/// modulo p and h = G * X^-1. `None` for a parameter set that is not one of
/// the table, or when no attempt gives invertible secrets.
pub fn generate_keys(params: &ParamSet, seed: &[u8]) -> (r: Option<(PrivateKey, PublicKey)>)
    ensures
        r matches Some((sk, pk)) ==> key_pair(*params, sk@, pk@),
        r is Some ==> exists|a: nat|
            a < MAX_KEYGEN_ATTEMPTS && #[trigger] attempt_yields(
                *params,
                seed@,
                a,
                r.unwrap().0@,
                r.unwrap().1@,
            ),
        !crate::codec::standard(*params) ==> r is None,
{
    match generate_key_blobs(params, seed) {
        None => None,
        Some((sk, pk)) => {
            let keys = (PrivateKey { key: sk }, PublicKey { key: pk });
            let r = Some(keys);
            proof {
                let a = choose|a: nat|
                    a < MAX_KEYGEN_ATTEMPTS && #[trigger] attempt_yields(
                        *params,
                        seed@,
                        a,
                        sk@,
                        pk@,
                    );
                assert(r.unwrap().0@ == sk@ && r.unwrap().1@ == pk@);
                assert(attempt_yields(*params, seed@, a, r.unwrap().0@, r.unwrap().1@));
            }
            r
        },
    }
}

/// Signs a message: the result is `signature_of` the two key blobs and the
/// message, the packed candidate of the first accepted attempt, which is
/// determined by the inputs alone and verifies under the public key. `None`
/// exactly when a key does not decode, the keys name different parameter
/// sets, or no attempt below the cap is accepted.
pub fn sign(private_key: &PrivateKey, public_key: &PublicKey, message: &[u8]) -> (r: Option<
    Vec<u8>,
>)
    ensures
        r is Some == signature_of(private_key@, public_key@, message@) is Some,
        r matches Some(sig) ==> signature_of(private_key@, public_key@, message@) == Some(sig@),
        r matches Some(sig) ==> verifies(sig@, public_key@, message@),
        r matches Some(sig) ==> repacks_signature(sig@),
        r is Some ==> keys_decode_alike(private_key@, public_key@),
{
    sign_blobs(private_key.get_bytes(), public_key.get_bytes(), message)
}

/// Verifies a signed message: true exactly when the signature and the
/// public key decode, name the same parameter set, and the signature is
/// accepted for the message.
pub fn verify(signature: &[u8], public_key: &PublicKey, message: &[u8]) -> (r: bool)
    ensures
        r == verifies(signature@, public_key@, message@),
{
    verify_blobs(signature, public_key.get_bytes(), message)
}

/// The centered coefficients of s, and of t = h * s, of a decoded signature
/// and public key lie within the parameter set's norm bounds.
pub open spec fn within_norm_bounds(signature: Seq<u8>, public_key: Seq<u8>) -> bool {
    match (parse_signature(signature), parse_public(public_key)) {
        (Some((ps, s)), Some((_, h, _))) => {
            &&& within(s, ps.q as int, ps.norm_bound_s as int)
            &&& within(conv(h, s, ps.q as int), ps.q as int, ps.norm_bound_t as int)
        },
        _ => false,
    }
}

/// Every accepted signature lies within the norm bounds: its s within
/// norm_bound_s and its t = h * s within norm_bound_t.
pub proof fn lemma_accepted_within_bounds(signature: Seq<u8>, public_key: Seq<u8>, message: Seq<u8>)
    requires
        verifies(signature, public_key, message),
    ensures
        within_norm_bounds(signature, public_key),
{
}

/// Verification is a function of the signature, the public key and the
/// message alone: the same inputs give the same answer.
pub proof fn lemma_verification_deterministic(
    signature1: Seq<u8>,
    public_key1: Seq<u8>,
    message1: Seq<u8>,
    signature2: Seq<u8>,
    public_key2: Seq<u8>,
    message2: Seq<u8>,
)
    requires
        signature1 == signature2,
        public_key1 == public_key2,
        message1 == message2,
    ensures
        verifies(signature1, public_key1, message1) == verifies(signature2, public_key2, message2),
{
}

/// A signature of one parameter set never verifies under a public key of
/// another.
pub proof fn lemma_cross_parameter_rejection(
    signature: Seq<u8>,
    public_key: Seq<u8>,
    message: Seq<u8>,
)
    requires
        parse_signature(signature) is Some,
        parse_public(public_key) is Some,
        parse_signature(signature).unwrap().0 != parse_public(public_key).unwrap().0,
    ensures
        !verifies(signature, public_key, message),
{
}

/// A signature blob whose tag byte or identifier length byte has been
/// changed never verifies: it no longer decodes.
pub proof fn lemma_reframed_signature_rejected(
    signature: Seq<u8>,
    public_key: Seq<u8>,
    message: Seq<u8>,
)
    requires
        signature.len() >= 2,
        signature[0] != TAG_SIGNATURE || signature[1] != 3,
    ensures
        !verifies(signature, public_key, message),
{
}

} // verus!
