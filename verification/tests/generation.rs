use std::collections::HashSet;

use liquid_addr::key::{generate, SecretKey};
use liquid_addr::network::Network;

#[test]
fn generated_keys_are_in_range() {
    for _ in 0..1000 {
        let k = generate().expect("entropy source available");
        assert!(k.is_valid());
        // The reference implementation accepts exactly the canonical scalars.
        assert!(elements::secp256k1_zkp::SecretKey::from_slice(k.as_bytes().as_slice()).is_ok());
    }
}

#[test]
fn independent_generations_differ() {
    let mut seen: HashSet<Vec<u8>> = HashSet::new();
    let mut ones: u64 = 0;
    let trials = 10_000u64;
    for _ in 0..trials {
        let k = generate().expect("entropy source available");
        let bytes = k.as_bytes().clone();
        for b in bytes.iter() {
            ones += b.count_ones() as u64;
        }
        assert!(seen.insert(bytes), "two generations produced the same key");
    }
    // Bit distribution is roughly uniform: about half of all bits are set.
    let total_bits = trials * 256;
    let expected = total_bits / 2;
    let slack = total_bits / 50; // two percent
    assert!(ones > expected - slack && ones < expected + slack);
}

#[test]
fn generation_pipeline_succeeds() {
    let (wif, addr, pk) = liquid_addr::address::generate_address(Network::Liquid)
        .expect("entropy source available");
    let text = addr.as_bytes();
    assert_eq!(text.len(), 42);
    assert_eq!(&text[0..4], &[b'e', b'x', b'1', b'q']);
    assert_eq!(pk.as_bytes().len(), 33);
    assert!(pk.as_bytes()[0] == 2 || pk.as_bytes()[0] == 3);
    assert!(!wif.is_empty());
}

#[test]
fn from_bytes_rejects_wrong_length() {
    assert!(SecretKey::from_bytes(vec![1u8; 31]).is_err());
    assert!(SecretKey::from_bytes(vec![1u8; 33]).is_err());
    assert!(SecretKey::from_bytes(vec![1u8; 32]).is_ok());
}
