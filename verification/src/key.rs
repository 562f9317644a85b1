use vstd::prelude::*;

use crate::bytes::{be_lt, be_nat, bytes_all_zero};
use crate::errors::Error;

verus! {

/// The order of the secp256k1 group, as big-endian bytes:
/// FFFFFFFF FFFFFFFF FFFFFFFF FFFFFFFE BAAEDCE6 AF48A03B BFD25E8C D0364141.
pub open spec fn curve_order_bytes() -> Seq<u8> {
    seq![
        0xFFu8, 0xFFu8, 0xFFu8, 0xFFu8, 0xFFu8, 0xFFu8, 0xFFu8, 0xFFu8,
        0xFFu8, 0xFFu8, 0xFFu8, 0xFFu8, 0xFFu8, 0xFFu8, 0xFFu8, 0xFEu8,
        0xBAu8, 0xAEu8, 0xDCu8, 0xE6u8, 0xAFu8, 0x48u8, 0xA0u8, 0x3Bu8,
        0xBFu8, 0xD2u8, 0x5Eu8, 0x8Cu8, 0xD0u8, 0x36u8, 0x41u8, 0x41u8,
    ]
}

/// The order of the secp256k1 group as a number.
pub open spec fn curve_order() -> nat {
    be_nat(curve_order_bytes())
}

/// A canonical secret key: 32 bytes whose big-endian value is nonzero and
/// below the group order.
pub open spec fn key_in_range(s: Seq<u8>) -> bool {
    s.len() == 32 && 0 < be_nat(s) && be_nat(s) < curve_order()
}

/// The group order, as a byte vector usable by executable code.
pub fn curve_order_vec() -> (r: Vec<u8>)
    ensures
        r@ == curve_order_bytes(),
{
    let mut v: Vec<u8> = Vec::new();
    v.push(0xFF); v.push(0xFF); v.push(0xFF); v.push(0xFF);
    v.push(0xFF); v.push(0xFF); v.push(0xFF); v.push(0xFF);
    v.push(0xFF); v.push(0xFF); v.push(0xFF); v.push(0xFF);
    v.push(0xFF); v.push(0xFF); v.push(0xFF); v.push(0xFE);
    v.push(0xBA); v.push(0xAE); v.push(0xDC); v.push(0xE6);
    v.push(0xAF); v.push(0x48); v.push(0xA0); v.push(0x3B);
    v.push(0xBF); v.push(0xD2); v.push(0x5E); v.push(0x8C);
    v.push(0xD0); v.push(0x36); v.push(0x41); v.push(0x41);
    proof {
        assert(v@ =~= curve_order_bytes());
    }
    v
}

/// A 256-bit secret scalar.  A value of this type always holds exactly 32
/// bytes; whether those bytes form a canonical scalar (`key_in_range`) is
/// checked by `is_valid`, and every key that `generate` returns satisfies it.
pub struct SecretKey {
    bytes: Vec<u8>,
}

impl View for SecretKey {
    type V = Seq<u8>;

    closed spec fn view(&self) -> Seq<u8> {
        self.bytes@
    }
}

impl SecretKey {
    /// Wrap 32 raw bytes as a secret key.  Rejects any other length; the
    /// range of the scalar is not checked here but by `is_valid`.
    pub fn from_bytes(bytes: Vec<u8>) -> (r: Result<SecretKey, Error>)
        ensures
            bytes@.len() == 32 ==> (r matches Ok(k) && k@ == bytes@),
            bytes@.len() != 32 ==> r == Err::<SecretKey, Error>(Error::InvalidKey),
    {
        if bytes.len() == 32 {
            Ok(SecretKey { bytes })
        } else {
            Err(Error::InvalidKey)
        }
    }

    /// The raw scalar bytes, big-endian.
    pub fn as_bytes(&self) -> (r: &Vec<u8>)
        ensures
            r@ == self@,
    {
        &self.bytes
    }

    /// Whether the scalar is canonical: nonzero and below the group order.
    pub fn is_valid(&self) -> (r: bool)
        ensures
            r == key_in_range(self@),
    {
        if self.bytes.len() != 32 {
            return false;
        }
        if bytes_all_zero(&self.bytes) {
            return false;
        }
        let order = curve_order_vec();
        be_lt(&self.bytes, &order)
    }
}

/// Relies on rand's `OsRng` (`try_fill_bytes`): fills the buffer with bytes
/// from the operating system's secure random source, or reports failure.
/// Nothing is assumed about the bytes themselves.
#[verifier::external_body]
fn os_random_32() -> (r: Option<Vec<u8>>)
    ensures
        r matches Some(b) ==> b@.len() == 32,
{
    let mut buf = vec![0u8; 32];
    match rand::RngCore::try_fill_bytes(&mut rand::rngs::OsRng, buf.as_mut_slice()) {
        Ok(()) => Some(buf),
        Err(_) => None,
    }
}

/// Draw a fresh secret key from operating-system entropy.
///
/// Every returned key is canonical: nonzero and below the group order.  A draw
/// whose bytes fall outside that range is discarded and redrawn (the chance of
/// even one redraw is below 2^-127); the attempts are capped so that a random
/// source that only ever yields out-of-range bytes is reported as failed
/// rather than polled forever.  The function never falls back to a weaker
/// source of randomness.
pub fn generate() -> (r: Result<SecretKey, Error>)
    ensures
        r matches Ok(k) ==> key_in_range(k@),
        r matches Err(e) ==> e == Error::EntropyUnavailable,
{
    let mut attempts: u32 = 0;
    while attempts < 128
        invariant
            attempts <= 128,
        decreases 128 - attempts,
    {
        match os_random_32() {
            None => {
                return Err(Error::EntropyUnavailable);
            },
            Some(b) => {
                let k = SecretKey { bytes: b };
                if k.is_valid() {
                    return Ok(k);
                }
            },
        }
        attempts += 1;
    }
    Err(Error::EntropyUnavailable)
}

} // verus!
