use vstd::prelude::*;

use crate::bech32::{addr_chars, b32_char, decode_witness_v0, encode_witness_v0, u5s_of_bytes};
use crate::crypto::{derive_public_key, hash160, hash160_of, pubkey_of, PublicKey};
use crate::errors::Error;
use crate::key::{key_in_range, SecretKey};
use crate::network::Network;

verus! {

/// The witness program an address commits to: the hash160 of the compressed
/// public key derived from the secret scalar.
pub open spec fn witness_program_of(sk: Seq<u8>) -> Seq<u8> {
    hash160_of(pubkey_of(sk))
}

/// The address text of a secret key on a network, as ASCII bytes.  The
/// address is a pure function of the key and the network: no randomness
/// enters at the encoding stage.
pub open spec fn spec_address(network: Network, sk: Seq<u8>) -> Seq<u8> {
    addr_chars(network.spec_hrp(), witness_program_of(sk))
}

/// An encoded witness address: self-checksumming ASCII text.
pub struct Address {
    bytes: Vec<u8>,
}

impl View for Address {
    type V = Seq<u8>;

    closed spec fn view(&self) -> Seq<u8> {
        self.bytes@
    }
}

impl Address {
    /// Wrap address text received from outside, for decoding.
    pub fn from_bytes(bytes: Vec<u8>) -> (r: Address)
        ensures
            r@ == bytes@,
    {
        Address { bytes }
    }

    /// The ASCII text of the address.
    pub fn as_bytes(&self) -> (r: &Vec<u8>)
        ensures
            r@ == self@,
    {
        &self.bytes
    }
}

/// Derive the public key and the pay-to-witness-public-key-hash address of a
/// secret key on a network.
///
/// For every canonical key the result is the address text determined by
/// `spec_address` together with the compressed public key; a key that is
/// zero, too large, or not 32 bytes is rejected with `InvalidKey` and no
/// address is produced.  The supported networks form a closed set, so
/// `UnsupportedNetwork` is never returned here.
pub fn encode(sk: &SecretKey, network: Network) -> (r: Result<(Address, PublicKey), Error>)
    ensures
        key_in_range(sk@) ==> (r matches Ok(ap) && ap.0@ == spec_address(network, sk@)
            && ap.1@ == pubkey_of(sk@) && witness_program_of(sk@).len() == 20),
        !key_in_range(sk@) ==> r == Err::<(Address, PublicKey), Error>(Error::InvalidKey),
{
    if !sk.is_valid() {
        return Err(Error::InvalidKey);
    }
    let pk = derive_public_key(sk);
    let prog = hash160(pk.as_bytes());
    let hrp = network.hrp();
    let text = encode_witness_v0(&hrp, &prog);
    Ok((Address { bytes: text }, pk))
}

/// Decode an address back to its 20-byte witness program.
///
/// Returns the program exactly when the text is the address encoding of some
/// 20-byte witness program on the given network; in particular the address of
/// a canonical key decodes back to the hash160 of its compressed public key.
pub fn decode_address(addr: &Address, network: Network) -> (r: Option<Vec<u8>>)
    ensures
        r matches Some(p) ==> p@.len() == 20 && addr@ == addr_chars(network.spec_hrp(), p@),
        forall|p: Seq<u8>|
            p.len() == 20 && addr@ == addr_chars(network.spec_hrp(), p) ==> (r matches Some(q)
                && q@ == p),
{
    let hrp = network.hrp();
    decode_witness_v0(&hrp, &addr.bytes)
}

/// Draw a fresh secret key and produce its Wallet-Import-Format text, its
/// witness address and its public key for a network, the full generation
/// pipeline.  Every success carries a canonical secret key whose three
/// outputs are the pure functions `wif_chars`, `spec_address` and `pubkey_of`
/// of that one key; the only failure is an unavailable entropy source.
pub fn generate_address(network: Network) -> (r: Result<(Vec<u8>, Address, PublicKey), Error>)
    ensures
        r matches Ok(t) ==> exists|sk: Seq<u8>|
            #[trigger] key_in_range(sk) && t.0@ == crate::wif::wif_chars(network, sk)
                && t.1@ == spec_address(network, sk) && t.2@ == pubkey_of(sk),
        r matches Err(e) ==> e == Error::EntropyUnavailable,
{
    let sk = match crate::key::generate() {
        Ok(k) => k,
        Err(e) => {
            return Err(e);
        },
    };
    let wif = match crate::wif::wif_encode(&sk, network) {
        Ok(w) => w,
        Err(_) => {
            proof {
                assert(false);
            }
            return Err(Error::EntropyUnavailable);
        },
    };
    match encode(&sk, network) {
        Ok(ap) => {
            proof {
                assert(key_in_range(sk@) && wif@ == crate::wif::wif_chars(network, sk@)
                    && ap.0@ == spec_address(network, sk@) && ap.1@ == pubkey_of(sk@));
            }
            Ok((wif, ap.0, ap.1))
        },
        Err(_) => {
            proof {
                assert(false);
            }
            Err(Error::EntropyUnavailable)
        },
    }
}

/// Encoding is deterministic: address and public key are functions of the
/// secret key and the network alone, so two encodings of the same inputs are
/// byte-identical.
pub proof fn lemma_encode_deterministic(
    network: Network,
    sk: Seq<u8>,
    a1: Seq<u8>,
    p1: Seq<u8>,
    a2: Seq<u8>,
    p2: Seq<u8>,
)
    requires
        a1 == spec_address(network, sk),
        p1 == pubkey_of(sk),
        a2 == spec_address(network, sk),
        p2 == pubkey_of(sk),
    ensures
        a1 == a2,
        p1 == p2,
{
}

/// The shape of a Liquid address over a 20-byte witness program: 42
/// characters in all, beginning with the prefix "ex", the separator '1' and
/// the version 0 character 'q'.
pub proof fn lemma_liquid_address_shape(prog: Seq<u8>)
    requires
        prog.len() == 20,
    ensures
        addr_chars(Network::Liquid.spec_hrp(), prog).len() == 42,
        addr_chars(Network::Liquid.spec_hrp(), prog)[0] == 101,
        addr_chars(Network::Liquid.spec_hrp(), prog)[1] == 120,
        addr_chars(Network::Liquid.spec_hrp(), prog)[2] == 49,
        addr_chars(Network::Liquid.spec_hrp(), prog)[3] == 113,
{
    let hrp = Network::Liquid.spec_hrp();
    let a = addr_chars(hrp, prog);
    assert(u5s_of_bytes(prog).len() == 32);
    assert(a.len() == 42);
    assert(a[3] == b32_char(0));
}

} // verus!
