use vstd::prelude::*;

use crate::key::{key_in_range, SecretKey};

verus! {

/// The SHA-256 digest of a byte string.  The digest is a function of the
/// input alone; its definition lives in the outside hash implementation.
pub uninterp spec fn sha256_of(data: Seq<u8>) -> Seq<u8>;

/// The RIPEMD-160 digest of a byte string, a function of the input alone.
pub uninterp spec fn ripemd160_of(data: Seq<u8>) -> Seq<u8>;

/// The 33-byte compressed SEC1 serialization of the secp256k1 public key
/// derived from a secret scalar, a function of the scalar alone.
pub uninterp spec fn pubkey_of(sk: Seq<u8>) -> Seq<u8>;

/// The two-stage hash committing to a public key in a witness program:
/// SHA-256 followed by RIPEMD-160, 20 bytes.
pub open spec fn hash160_of(data: Seq<u8>) -> Seq<u8> {
    ripemd160_of(sha256_of(data))
}

/// Relies on `elements::hashes::sha256` (bitcoin_hashes): the 32-byte SHA-256
/// digest of the input bytes.
#[verifier::external_body]
pub(crate) fn sha256(data: &Vec<u8>) -> (r: Vec<u8>)
    ensures
        r@ == sha256_of(data@),
        r@.len() == 32,
{
    let digest = elements::hashes::sha256::Hash::hash(data.as_slice());
    digest.to_byte_array().to_vec()
}

/// Relies on `elements::hashes::ripemd160` (bitcoin_hashes): the 20-byte
/// RIPEMD-160 digest of the input bytes.
#[verifier::external_body]
pub(crate) fn ripemd160(data: &Vec<u8>) -> (r: Vec<u8>)
    ensures
        r@ == ripemd160_of(data@),
        r@.len() == 20,
{
    let digest = elements::hashes::ripemd160::Hash::hash(data.as_slice());
    digest.to_byte_array().to_vec()
}

/// Relies on `elements::secp256k1_zkp` (`SecretKey::from_slice`,
/// `PublicKey::from_secret_key`, `PublicKey::serialize`): scalar
/// multiplication of the curve generator, serialized in compressed form.
/// The result is a function of the scalar alone; it is 33 bytes and its
/// first byte is the point's parity tag, 0x02 or 0x03.  `from_slice` accepts
/// every canonical scalar, which `requires` guarantees.
#[verifier::external_body]
pub(crate) fn secp256k1_pubkey(sk: &Vec<u8>) -> (r: Vec<u8>)
    requires
        key_in_range(sk@),
    ensures
        r@ == pubkey_of(sk@),
        r@.len() == 33,
        r@[0] == 2 || r@[0] == 3,
{
    let secp = elements::secp256k1_zkp::Secp256k1::new();
    let key = elements::secp256k1_zkp::SecretKey::from_slice(sk.as_slice()).unwrap();
    let pk = elements::secp256k1_zkp::PublicKey::from_secret_key(&secp, &key);
    pk.serialize().to_vec()
}

/// The hash160 commitment (SHA-256 then RIPEMD-160) of a byte string.
pub fn hash160(data: &Vec<u8>) -> (r: Vec<u8>)
    ensures
        r@ == hash160_of(data@),
        r@.len() == 20,
{
    let first = sha256(data);
    ripemd160(&first)
}

/// A compressed secp256k1 public key: 33 bytes, parity tag then x-coordinate.
/// Always derived from a secret key, never constructed independently.
pub struct PublicKey {
    bytes: Vec<u8>,
}

impl View for PublicKey {
    type V = Seq<u8>;

    closed spec fn view(&self) -> Seq<u8> {
        self.bytes@
    }
}

impl PublicKey {
    /// The compressed SEC1 serialization.
    pub fn as_bytes(&self) -> (r: &Vec<u8>)
        ensures
            r@ == self@,
    {
        &self.bytes
    }
}

/// Derive the compressed public key of a canonical secret key.
pub fn derive_public_key(sk: &SecretKey) -> (r: PublicKey)
    requires
        key_in_range(sk@),
    ensures
        r@ == pubkey_of(sk@),
        r@.len() == 33,
{
    PublicKey { bytes: secp256k1_pubkey(sk.as_bytes()) }
}

} // verus!
