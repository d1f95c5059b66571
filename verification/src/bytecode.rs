//! Contract bytecode and its Keccak-256 code hash.

use vstd::prelude::*;
use crate::primitives::B256;

verus! {

/// The Keccak-256 digest of a byte string, as computed by `alloy_primitives::keccak256`.
pub uninterp spec fn keccak256_spec(data: Seq<u8>) -> B256;

/// Hashes `data` with `alloy_primitives::keccak256`.
///
/// Claims only that the digest is a function of the bytes (named `keccak256_spec`); the digest of
/// the empty string is the well-known `KECCAK256_EMPTY` constant.
#[verifier::external_body]
pub(crate) fn keccak256(data: &Vec<u8>) -> (r: B256)
    ensures
        r == keccak256_spec(data@),
        data@.len() == 0 ==> r == B256::spec_keccak_empty(),
{
    let b = alloy_primitives::keccak256(data.as_slice()).0;
    B256 {
        w0: u64::from_be_bytes(b[0..8].try_into().unwrap()),
        w1: u64::from_be_bytes(b[8..16].try_into().unwrap()),
        w2: u64::from_be_bytes(b[16..24].try_into().unwrap()),
        w3: u64::from_be_bytes(b[24..32].try_into().unwrap()),
    }
}

/// Raw contract bytecode.
#[derive(Clone, Debug, PartialEq, Eq)]
pub struct Bytecode {
    pub bytes: Vec<u8>,
}

impl Bytecode {
    /// Empty bytecode.
    pub fn new() -> (r: Bytecode)
        ensures
            r.bytes@.len() == 0,
    {
        Bytecode { bytes: Vec::new() }
    }

    /// Bytecode holding `bytes`.
    pub fn new_legacy(bytes: Vec<u8>) -> (r: Bytecode)
        ensures
            r.bytes@ == bytes@,
    {
        Bytecode { bytes }
    }

    /// Returns whether there is no code.
    pub fn is_empty(&self) -> (r: bool)
        ensures
            r == (self.bytes@.len() == 0),
    {
        self.bytes.len() == 0
    }

    /// The Keccak-256 code hash.
    pub fn hash_slow(&self) -> (r: B256)
        ensures
            r == keccak256_spec(self.bytes@),
            self.bytes@.len() == 0 ==> r == B256::spec_keccak_empty(),
    {
        keccak256(&self.bytes)
    }

    /// A copy with the same bytes.
    pub fn duplicate(&self) -> (r: Bytecode)
        ensures
            r.bytes@ == self.bytes@,
    {
        let bytes = self.bytes.clone();
        assert(bytes@ =~= self.bytes@);
        Bytecode { bytes }
    }
}

} // verus!
