use vstd::prelude::*;

verus! {

/// The failures the library can report.
///
/// `EntropyUnavailable`: the operating-system random source could not supply bytes.
/// `UnsupportedNetwork`: the requested network is outside the supported set.
/// `InvalidKey`: a secret key was not a canonical nonzero scalar below the curve order.
#[derive(Clone, Copy, Debug, PartialEq, Eq, Structural)]
pub enum Error {
    EntropyUnavailable,
    UnsupportedNetwork,
    InvalidKey,
}

} // verus!
