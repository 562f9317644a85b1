use vstd::prelude::*;

verus! {

/// The closed set of supported networks.  Address and key encodings are a pure
/// function of the network and the key material; the network only selects the
/// human-readable prefix of witness addresses and the version byte of WIF.
#[derive(Clone, Copy, Debug, PartialEq, Eq, Structural)]
pub enum Network {
    /// The Liquid production network.
    Liquid,
}

impl Network {
    /// The human-readable part of this network's bech32 witness addresses,
    /// as ASCII bytes ("ex" for Liquid).
    pub open spec fn spec_hrp(self) -> Seq<u8> {
        match self {
            Network::Liquid => seq![101u8, 120u8],
        }
    }

    /// The version byte that prefixes the WIF serialization of a secret key
    /// on this network.
    pub open spec fn spec_wif_prefix(self) -> u8 {
        match self {
            Network::Liquid => 0x80u8,
        }
    }

    pub fn hrp(&self) -> (r: Vec<u8>)
        ensures
            r@ == self.spec_hrp(),
    {
        match self {
            Network::Liquid => {
                let mut v: Vec<u8> = Vec::new();
                v.push(101u8);
                v.push(120u8);
                proof {
                    assert(v@ =~= self.spec_hrp());
                }
                v
            }
        }
    }

    pub fn wif_prefix(&self) -> (r: u8)
        ensures
            r == self.spec_wif_prefix(),
    {
        match self {
            Network::Liquid => 0x80u8,
        }
    }
}

} // verus!
