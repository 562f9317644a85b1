use vstd::prelude::*;

use crate::base58::{
    append_bytes, b58_char, b58_chars, b58_digits, b58_encode, b58_rev, b58_rev_at, b58_value,
    lemma_b58_char_rev, lemma_b58_digits_canonical, lemma_b58_digits_of_value,
    lemma_b58_rev_char, lemma_b58_value_of_digits, lemma_b58_value_prefix_le, mul58_add,
};
use crate::bytes::{be_nat, lemma_be_nat_bound, lemma_be_nat_injective, lemma_be_nat_zero, pow256};
use crate::crypto::{sha256, sha256_of};
use crate::errors::Error;
use crate::key::{key_in_range, SecretKey};
use crate::network::Network;

verus! {

/// The serialized body of a Wallet-Import-Format key: the network's version
/// byte, the 32 scalar bytes, and the compressed-key flag 0x01.
pub open spec fn wif_body(network: Network, sk: Seq<u8>) -> Seq<u8> {
    seq![network.spec_wif_prefix()] + sk + seq![1u8]
}

/// The first four bytes of a byte string, the length of a base58-check
/// checksum.
pub open spec fn first4(s: Seq<u8>) -> Seq<u8> {
    seq![s[0], s[1], s[2], s[3]]
}

/// The full 38-byte WIF payload: the body followed by the first four bytes of
/// its double SHA-256 checksum.
pub open spec fn wif_payload(network: Network, sk: Seq<u8>) -> Seq<u8> {
    wif_body(network, sk) + first4(sha256_of(sha256_of(wif_body(network, sk))))
}

/// The WIF text of a secret key, as ASCII bytes.
pub open spec fn wif_chars(network: Network, sk: Seq<u8>) -> Seq<u8> {
    b58_chars(wif_payload(network, sk))
}

/// Facts about the WIF payload and digit string of a canonical key, used on
/// both sides of the round trip.
proof fn lemma_wif_encoding_facts(network: Network, sk: Seq<u8>)
    requires
        key_in_range(sk),
    ensures
        wif_payload(network, sk).len() == 38,
        wif_payload(network, sk)[0] == network.spec_wif_prefix(),
        network.spec_wif_prefix() != 0,
        wif_payload(network, sk)[33] == 1,
        forall|i: int| 0 <= i < 32 ==> wif_payload(network, sk)[1 + i] == sk[i],
        be_nat(wif_payload(network, sk)) > 0,
        be_nat(wif_payload(network, sk)) < pow256(38),
        b58_digits(be_nat(wif_payload(network, sk))).len() > 0,
        b58_digits(be_nat(wif_payload(network, sk)))[0] != 0,
        forall|i: int| 0 <= i < b58_digits(be_nat(wif_payload(network, sk))).len()
            ==> b58_digits(be_nat(wif_payload(network, sk)))[i] < 58,
        wif_chars(network, sk) == b58_digits(be_nat(wif_payload(network, sk))).map_values(
            |d: u8| b58_char(d)),
        b58_value(b58_digits(be_nat(wif_payload(network, sk))))
            == be_nat(wif_payload(network, sk)),
{
    let pl = wif_payload(network, sk);
    let v = be_nat(pl);
    assert(pl.len() == 38);
    assert(network.spec_wif_prefix() == 0x80);
    assert(pl[0] == network.spec_wif_prefix());
    lemma_be_nat_zero(pl);
    assert(v > 0);
    lemma_be_nat_bound(pl);
    lemma_b58_digits_canonical(v);
    lemma_b58_value_of_digits(v);
}

/// Serialize a secret key in Wallet-Import-Format (compressed).
///
/// For every canonical key the result is the base58-check text of the
/// version-prefixed, flag-suffixed scalar; any other key is rejected with
/// `InvalidKey`.
pub fn wif_encode(sk: &SecretKey, network: Network) -> (r: Result<Vec<u8>, Error>)
    ensures
        key_in_range(sk@) ==> (r matches Ok(w) && w@ == wif_chars(network, sk@)),
        !key_in_range(sk@) ==> r == Err::<Vec<u8>, Error>(Error::InvalidKey),
{
    if !sk.is_valid() {
        return Err(Error::InvalidKey);
    }
    let mut body: Vec<u8> = Vec::new();
    body.push(network.wif_prefix());
    append_bytes(&mut body, sk.as_bytes());
    body.push(1);
    proof {
        assert(body@ =~= wif_body(network, sk@));
    }
    let h1 = sha256(&body);
    let h2 = sha256(&h1);
    let mut payload = body;
    payload.push(h2[0]);
    payload.push(h2[1]);
    payload.push(h2[2]);
    payload.push(h2[3]);
    proof {
        assert(payload@ =~= wif_payload(network, sk@));
        lemma_wif_encoding_facts(network, sk@);
    }
    Ok(b58_encode(&payload))
}

/// Parse Wallet-Import-Format text back to the secret key it serializes.
///
/// Succeeds exactly on the canonical WIF text of a canonical key for the
/// given network, and then recovers that key's 32 scalar bytes exactly; every
/// other input is rejected with `InvalidKey`.
#[verifier::rlimit(80)]
pub fn wif_decode(chars: &Vec<u8>, network: Network) -> (r: Result<SecretKey, Error>)
    ensures
        r matches Ok(k) ==> key_in_range(k@) && chars@ == wif_chars(network, k@),
        forall|sk: Seq<u8>|
            key_in_range(sk) && chars@ == #[trigger] wif_chars(network, sk) ==> (r matches Ok(k)
                && k@ == sk),
        r matches Err(e) ==> e == Error::InvalidKey,
{
    let n = chars.len();
    if n == 0 {
        proof {
            assert forall|sk: Seq<u8>| key_in_range(sk) && chars@ == wif_chars(network, sk)
                implies false by {
                lemma_wif_encoding_facts(network, sk);
                let ds = b58_digits(be_nat(wif_payload(network, sk)));
                assert(chars@.len() == ds.len());
            };
        }
        return Err(Error::InvalidKey);
    }
    // A leading '1' is a leading zero digit: not canonical for a payload whose
    // first byte is the nonzero version byte.
    if chars[0] == 49 {
        proof {
            assert forall|sk: Seq<u8>| key_in_range(sk) && chars@ == wif_chars(network, sk)
                implies false by {
                lemma_wif_encoding_facts(network, sk);
                let ds = b58_digits(be_nat(wif_payload(network, sk)));
                assert(chars@[0] == b58_char(ds[0]));
                lemma_b58_char_rev(ds[0]);
                lemma_b58_char_rev(0);
            };
        }
        return Err(Error::InvalidKey);
    }
    // Parse the digits.
    let mut ds: Vec<u8> = Vec::new();
    let mut t: usize = 0;
    while t < n
        invariant
            n == chars@.len(),
            0 <= t <= n,
            ds@.len() == t,
            forall|u: int| 0 <= u < t ==> (#[trigger] ds@[u]) < 58
                && b58_rev(chars@[u]) == Some(ds@[u]) && b58_char(ds@[u]) == chars@[u],
        decreases n - t,
    {
        match b58_rev_at(chars[t]) {
            None => {
                proof {
                    assert forall|sk: Seq<u8>| key_in_range(sk) && chars@ == wif_chars(
                        network, sk) implies false by {
                        lemma_wif_encoding_facts(network, sk);
                        let dsv = b58_digits(be_nat(wif_payload(network, sk)));
                        assert(chars@[t as int] == b58_char(dsv[t as int]));
                        lemma_b58_char_rev(dsv[t as int]);
                    };
                }
                return Err(Error::InvalidKey);
            },
            Some(d) => {
                proof {
                    lemma_b58_rev_char(chars@[t as int], d);
                }
                ds.push(d);
            },
        }
        t += 1;
    }
    proof {
        assert(ds@[0] != 0) by {
            if ds@[0] == 0 {
                assert(b58_char(0) == 49);
            }
        };
    }
    // Accumulate the digits into a 38-byte big-endian value.
    let mut buf: Vec<u8> = Vec::new();
    let mut z: usize = 0;
    while z < 38
        invariant
            0 <= z <= 38,
            buf@.len() == z,
            forall|u: int| 0 <= u < z ==> buf@[u] == 0,
        decreases 38 - z,
    {
        buf.push(0);
        z += 1;
    }
    proof {
        lemma_be_nat_zero(buf@);
        assert(ds@.subrange(0, 0).len() == 0);
    }
    let mut w: usize = 0;
    while w < n
        invariant
            n == chars@.len(),
            ds@.len() == n,
            buf@.len() == 38,
            0 <= w <= n,
            forall|u: int| 0 <= u < n ==> (#[trigger] ds@[u]) < 58
                && b58_rev(chars@[u]) == Some(ds@[u]) && b58_char(ds@[u]) == chars@[u],
            ds@[0] != 0,
            be_nat(buf@) == b58_value(ds@.subrange(0, w as int)),
        decreases n - w,
    {
        let ok = mul58_add(&mut buf, ds[w]);
        proof {
            assert(ds@.subrange(0, w + 1).drop_last() =~= ds@.subrange(0, w as int));
            assert(ds@.subrange(0, w + 1).last() == ds@[w as int]);
        }
        if !ok {
            proof {
                assert forall|sk: Seq<u8>| key_in_range(sk) && chars@ == wif_chars(network, sk)
                    implies false by {
                    lemma_wif_encoding_facts(network, sk);
                    let pl = wif_payload(network, sk);
                    let dsv = b58_digits(be_nat(pl));
                    assert(dsv.len() == n);
                    assert forall|u: int| 0 <= u < n implies ds@[u] == dsv[u] by {
                        assert(chars@[u] == b58_char(dsv[u]));
                        lemma_b58_char_rev(dsv[u]);
                    };
                    assert(ds@ =~= dsv);
                    lemma_b58_value_prefix_le(dsv, w + 1);
                    assert(b58_value(ds@.subrange(0, w + 1)) <= be_nat(pl));
                };
            }
            return Err(Error::InvalidKey);
        }
        w += 1;
    }
    proof {
        assert(ds@.subrange(0, n as int) =~= ds@);
    }
    // The value must parse back as version byte, scalar, flag, checksum.
    let pr = network.wif_prefix();
    if buf[0] != pr || buf[33] != 1 {
        proof {
            lemma_decode_mismatch(network, chars@, ds@, buf@);
        }
        return Err(Error::InvalidKey);
    }
    let mut body: Vec<u8> = Vec::new();
    let mut b1: usize = 0;
    while b1 < 34
        invariant
            buf@.len() == 38,
            0 <= b1 <= 34,
            body@ == buf@.subrange(0, b1 as int),
        decreases 34 - b1,
    {
        body.push(buf[b1]);
        proof {
            assert(buf@.subrange(0, b1 + 1) =~= buf@.subrange(0, b1 as int).push(
                buf@[b1 as int]));
        }
        b1 += 1;
    }
    let h1 = sha256(&body);
    let h2 = sha256(&h1);
    if buf[34] != h2[0] || buf[35] != h2[1] || buf[36] != h2[2] || buf[37] != h2[3] {
        proof {
            lemma_decode_mismatch(network, chars@, ds@, buf@);
            assert forall|sk: Seq<u8>| key_in_range(sk) && chars@ == wif_chars(network, sk)
                implies false by {
                lemma_wif_encoding_facts(network, sk);
                assert(buf@ == wif_payload(network, sk));
                let s = sha256_of(sha256_of(wif_body(network, sk)));
                assert(body@ =~= wif_body(network, sk)) by {
                    assert(body@ == buf@.subrange(0, 34));
                    assert(wif_body(network, sk).len() == 34);
                };
                assert(h2@ == s);
                assert(wif_payload(network, sk)[34] == first4(s)[0] && first4(s)[0] == s[0]);
                assert(wif_payload(network, sk)[35] == first4(s)[1] && first4(s)[1] == s[1]);
                assert(wif_payload(network, sk)[36] == first4(s)[2] && first4(s)[2] == s[2]);
                assert(wif_payload(network, sk)[37] == first4(s)[3] && first4(s)[3] == s[3]);
            };
        }
        return Err(Error::InvalidKey);
    }
    let mut keybytes: Vec<u8> = Vec::new();
    let mut b2: usize = 1;
    while b2 < 33
        invariant
            buf@.len() == 38,
            1 <= b2 <= 33,
            keybytes@ == buf@.subrange(1, b2 as int),
        decreases 33 - b2,
    {
        keybytes.push(buf[b2]);
        proof {
            assert(buf@.subrange(1, b2 + 1) =~= buf@.subrange(1, b2 as int).push(
                buf@[b2 as int]));
        }
        b2 += 1;
    }
    let k = match SecretKey::from_bytes(keybytes) {
        Ok(k) => k,
        Err(_) => {
            proof {
                assert(false);
            }
            return Err(Error::InvalidKey);
        },
    };
    if !k.is_valid() {
        proof {
            lemma_decode_mismatch(network, chars@, ds@, buf@);
            assert forall|sk: Seq<u8>| key_in_range(sk) && chars@ == wif_chars(network, sk)
                implies false by {
                lemma_wif_encoding_facts(network, sk);
                assert(buf@ == wif_payload(network, sk));
                assert(k@ =~= sk) by {
                    assert(k@ == buf@.subrange(1, 33));
                    assert(sk.len() == 32);
                    assert forall|i: int| 0 <= i < 32 implies k@[i] == sk[i] by {
                        assert(k@[i] == buf@[1 + i]);
                        assert(wif_payload(network, sk)[1 + i] == sk[i]);
                    };
                };
                assert(key_in_range(k@));
            };
        }
        return Err(Error::InvalidKey);
    }
    proof {
        // Soundness: the accepted text is the canonical WIF of the key found.
        let sk = k@;
        assert(sk =~= buf@.subrange(1, 33));
        assert(wif_body(network, sk) =~= buf@.subrange(0, 34));
        assert(body@ == wif_body(network, sk));
        assert(first4(sha256_of(sha256_of(wif_body(network, sk))))
            =~= seq![buf@[34], buf@[35], buf@[36], buf@[37]]);
        assert(wif_payload(network, sk) =~= buf@);
        lemma_wif_encoding_facts(network, sk);
        lemma_b58_digits_of_value(ds@);
        assert(b58_digits(be_nat(buf@)) == ds@);
        assert(chars@ =~= wif_chars(network, sk)) by {
            assert(wif_chars(network, sk) == ds@.map_values(|d: u8| b58_char(d)));
            assert(chars@.len() == ds@.len());
        };
        // Completeness: any canonical key with this text is this key.
        assert forall|sk2: Seq<u8>| key_in_range(sk2) && chars@ == wif_chars(network, sk2)
            implies k@ == sk2 by {
            lemma_wif_encoding_facts(network, sk2);
            let pl2 = wif_payload(network, sk2);
            let dsv2 = b58_digits(be_nat(pl2));
            assert(dsv2.len() == chars@.len());
            assert forall|u: int| 0 <= u < chars@.len() implies ds@[u] == dsv2[u] by {
                assert(chars@[u] == b58_char(dsv2[u]));
                lemma_b58_char_rev(dsv2[u]);
            };
            assert(ds@ =~= dsv2);
            lemma_b58_value_of_digits(be_nat(pl2));
            assert(be_nat(buf@) == be_nat(pl2));
            lemma_be_nat_injective(buf@, pl2);
            assert forall|i: int| 0 <= i < 32 implies k@[i] == sk2[i] by {
                assert(pl2[1 + i] == sk2[i]);
            };
            assert(k@ =~= sk2);
        };
    }
    Ok(k)
}

/// When the accumulated payload fails a structural check, no canonical key
/// can have produced the text.
proof fn lemma_decode_mismatch(network: Network, chars: Seq<u8>, ds: Seq<u8>, buf: Seq<u8>)
    requires
        chars.len() == ds.len(),
        chars.len() > 0,
        buf.len() == 38,
        forall|u: int| 0 <= u < ds.len() ==> (#[trigger] ds[u]) < 58
            && b58_char(ds[u]) == chars[u],
        ds[0] != 0,
        be_nat(buf) == b58_value(ds),
    ensures
        forall|sk: Seq<u8>|
            key_in_range(sk) && chars == #[trigger] wif_chars(network, sk) ==> buf
                == wif_payload(network, sk),
{
    assert forall|sk: Seq<u8>| key_in_range(sk) && chars == wif_chars(network, sk)
        implies buf == wif_payload(network, sk) by {
        lemma_wif_encoding_facts(network, sk);
        let pl = wif_payload(network, sk);
        let dsv = b58_digits(be_nat(pl));
        assert(dsv.len() == chars.len());
        assert forall|u: int| 0 <= u < chars.len() implies ds[u] == dsv[u] by {
            assert(chars[u] == b58_char(dsv[u]));
            lemma_b58_char_rev(dsv[u]);
            lemma_b58_char_rev(ds[u]);
        };
        assert(ds =~= dsv);
        lemma_b58_value_of_digits(be_nat(pl));
        assert(be_nat(buf) == be_nat(pl));
        lemma_be_nat_injective(buf, pl);
    };
}

} // verus!
