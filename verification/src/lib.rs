//! Generation and encoding of Liquid network addresses.
//!
//! The crate draws a secp256k1 secret key from operating-system entropy,
//! derives the compressed public key, and encodes a pay-to-witness-public-key-hash
//! address for the Liquid network, together with the Wallet-Import-Format text of
//! the secret key.  The encoding rules (bech32 witness addresses, base58-check WIF)
//! are implemented and verified here; the elliptic-curve and hash primitives are
//! called in the `elements` crate through trusted wrappers.

pub mod address;
pub mod base58;
pub mod bech32;
pub mod bytes;
pub mod crypto;
pub mod errors;
pub mod key;
pub mod network;
pub mod wif;
