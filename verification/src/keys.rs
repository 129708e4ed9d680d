//! Key material produced by the one-time setup protocol.

use vstd::prelude::*;

verus! {

/// The canonical serialized proving and verifying keys for one circuit
/// shape. The proving key is needed only to generate proofs, the
/// verifying key only to check them; both are immutable and safe to
/// distribute.
pub struct SetupKeys {
    pub proving_key: Vec<u8>,
    pub verifying_key: Vec<u8>,
}

impl SetupKeys {
    pub fn new(proving_key: Vec<u8>, verifying_key: Vec<u8>) -> (r: SetupKeys)
        ensures
            r.proving_key@ == proving_key@,
            r.verifying_key@ == verifying_key@,
    {
        SetupKeys { proving_key, verifying_key }
    }
}

} // verus!
