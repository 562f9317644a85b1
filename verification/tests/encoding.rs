use liquid_addr::address::{decode_address, encode, Address};
use liquid_addr::crypto::hash160;
use liquid_addr::errors::Error;
use liquid_addr::key::{generate, SecretKey};
use liquid_addr::network::Network;
use liquid_addr::wif::{wif_decode, wif_encode};

fn key_one() -> SecretKey {
    let mut bytes = vec![0u8; 32];
    bytes[31] = 1;
    SecretKey::from_bytes(bytes).unwrap()
}

#[test]
fn encode_is_deterministic() {
    let k = generate().expect("entropy source available");
    let (a1, p1) = encode(&k, Network::Liquid).unwrap();
    let (a2, p2) = encode(&k, Network::Liquid).unwrap();
    assert_eq!(a1.as_bytes(), a2.as_bytes());
    assert_eq!(p1.as_bytes(), p2.as_bytes());
    let w1 = wif_encode(&k, Network::Liquid).unwrap();
    let w2 = wif_encode(&k, Network::Liquid).unwrap();
    assert_eq!(w1, w2);
}

#[test]
fn address_decodes_to_witness_program() {
    let k = generate().expect("entropy source available");
    let (addr, pk) = encode(&k, Network::Liquid).unwrap();
    let prog = decode_address(&addr, Network::Liquid).expect("own address decodes");
    assert_eq!(prog, hash160(pk.as_bytes()));
    // The witness program is the hash160 of the compressed public key,
    // checked against the reference hash implementation.
    let oracle = elements::hashes::hash160::Hash::hash(pk.as_bytes().as_slice());
    assert_eq!(prog.as_slice(), oracle.to_byte_array().as_slice());
}

#[test]
fn decode_rejects_corrupted_address() {
    let k = generate().expect("entropy source available");
    let (addr, _) = encode(&k, Network::Liquid).unwrap();
    let mut text = addr.as_bytes().clone();
    // Corrupt one data character (position 10), staying inside the charset.
    text[10] = if text[10] == b'q' { b'p' } else { b'q' };
    let corrupted = Address::from_bytes(text);
    assert!(decode_address(&corrupted, Network::Liquid).is_none());
}

#[test]
fn wif_round_trip() {
    for _ in 0..50 {
        let k = generate().expect("entropy source available");
        let wif = wif_encode(&k, Network::Liquid).unwrap();
        let back = wif_decode(&wif, Network::Liquid).unwrap();
        assert_eq!(back.as_bytes(), k.as_bytes());
    }
}

#[test]
fn wif_known_vector() {
    let k = key_one();
    let wif = wif_encode(&k, Network::Liquid).unwrap();
    let text = String::from_utf8(wif.clone()).unwrap();
    // The standard compressed-key serialization of the scalar 1 under the
    // 0x80 version byte.
    assert_eq!(text, "KwDiBf89QgGbjEhKnhXJuH7LrciVrZi3qYjgd9M7rFU73sVHnoWn");
    let back = wif_decode(&wif, Network::Liquid).unwrap();
    assert_eq!(back.as_bytes(), k.as_bytes());
}

#[test]
fn wif_decode_rejects_corruption() {
    let k = key_one();
    let mut wif = wif_encode(&k, Network::Liquid).unwrap();
    let original = wif[3];
    wif[3] = if original == b'2' { b'3' } else { b'2' };
    assert!(wif_decode(&wif, Network::Liquid).is_err());
    // A leading zero digit is not canonical either.
    let mut padded = vec![b'1'];
    padded.extend_from_slice(&wif_encode(&k, Network::Liquid).unwrap());
    assert!(wif_decode(&padded, Network::Liquid).is_err());
}

#[test]
fn out_of_range_scalar_rejected() {
    let zero = SecretKey::from_bytes(vec![0u8; 32]).unwrap();
    assert!(matches!(encode(&zero, Network::Liquid), Err(Error::InvalidKey)));
    assert_eq!(wif_encode(&zero, Network::Liquid).unwrap_err(), Error::InvalidKey);

    // The group order itself is one past the largest canonical scalar.
    let order: Vec<u8> = vec![
        0xFF, 0xFF, 0xFF, 0xFF, 0xFF, 0xFF, 0xFF, 0xFF, 0xFF, 0xFF, 0xFF, 0xFF, 0xFF, 0xFF,
        0xFF, 0xFE, 0xBA, 0xAE, 0xDC, 0xE6, 0xAF, 0x48, 0xA0, 0x3B, 0xBF, 0xD2, 0x5E, 0x8C,
        0xD0, 0x36, 0x41, 0x41,
    ];
    let at_order = SecretKey::from_bytes(order).unwrap();
    assert!(matches!(encode(&at_order, Network::Liquid), Err(Error::InvalidKey)));

    let too_big = SecretKey::from_bytes(vec![0xFFu8; 32]).unwrap();
    assert!(matches!(encode(&too_big, Network::Liquid), Err(Error::InvalidKey)));

    // One below the order is still canonical.
    let mut max_ok: Vec<u8> = vec![
        0xFF, 0xFF, 0xFF, 0xFF, 0xFF, 0xFF, 0xFF, 0xFF, 0xFF, 0xFF, 0xFF, 0xFF, 0xFF, 0xFF,
        0xFF, 0xFE, 0xBA, 0xAE, 0xDC, 0xE6, 0xAF, 0x48, 0xA0, 0x3B, 0xBF, 0xD2, 0x5E, 0x8C,
        0xD0, 0x36, 0x41, 0x41,
    ];
    max_ok[31] = 0x40;
    let k = SecretKey::from_bytes(max_ok).unwrap();
    assert!(encode(&k, Network::Liquid).is_ok());
}

#[test]
fn matches_reference_implementation() {
    let mut bytes = vec![0u8; 32];
    for (i, b) in bytes.iter_mut().enumerate() {
        *b = (i as u8) + 1;
    }
    let k = SecretKey::from_bytes(bytes.clone()).unwrap();
    let (addr, pk) = encode(&k, Network::Liquid).unwrap();
    let text = String::from_utf8(addr.as_bytes().clone()).unwrap();

    let secp = elements::secp256k1_zkp::Secp256k1::new();
    let sk = elements::secp256k1_zkp::SecretKey::from_slice(&bytes).unwrap();
    let zpk = elements::secp256k1_zkp::PublicKey::from_secret_key(&secp, &sk);
    assert_eq!(pk.as_bytes().as_slice(), zpk.serialize().as_slice());

    let bpk = elements::bitcoin::PublicKey::new(
        elements::bitcoin::secp256k1::PublicKey::from_slice(&zpk.serialize()).unwrap(),
    );
    let oracle = elements::Address::p2wpkh(&bpk, None, &elements::AddressParams::LIQUID);
    assert_eq!(text, oracle.to_string());

    let wif = String::from_utf8(wif_encode(&k, Network::Liquid).unwrap()).unwrap();
    let bsk = elements::bitcoin::secp256k1::SecretKey::from_slice(&bytes).unwrap();
    let bpriv = elements::bitcoin::PrivateKey::new(bsk, elements::bitcoin::NetworkKind::Main);
    assert_eq!(wif, bpriv.to_wif());
}

#[test]
fn hash160_matches_reference() {
    let data = b"witness program commitment".to_vec();
    let ours = hash160(&data);
    let oracle = elements::hashes::hash160::Hash::hash(&data);
    assert_eq!(ours.as_slice(), oracle.to_byte_array().as_slice());
}
