//! The hashing capability: every entity that enters the ledger's rules is
//! hashed by serializing its fields canonically and taking a 32-byte
//! cryptographic digest of those bytes.

use vstd::prelude::*;
use sha2::Digest;

verus! {

/// The digest that SHA-256 assigns to a byte sequence. The digest is a pure
/// function of the bytes alone; its value is named here, not stated.
pub uninterp spec fn sha256_of(data: Seq<u8>) -> Seq<u8>;

/// Relies on sha2's `Sha256::digest`: the SHA-256 digest of the input bytes,
/// always exactly 32 bytes long, depending on the input bytes alone.
#[verifier::external_body]
pub(crate) fn sha256(data: &Vec<u8>) -> (r: Vec<u8>)
    ensures
        r@ == sha256_of(data@),
        r@.len() == 32,
{
    sha2::Sha256::digest(data.as_slice()).to_vec()
}

/// A capability: an entity with a canonical byte serialization, and with it a
/// 32-byte digest over that serialization.
pub trait Hashable {
    /// The canonical serialization of the entity's fields.
    spec fn bytes_spec(&self) -> Seq<u8>;

    /// Produces the canonical serialization.
    fn bytes(&self) -> (r: Vec<u8>)
        ensures
            r@ == self.bytes_spec(),
    ;

    /// The digest over the canonical serialization, recomputed on each call.
    fn hash(&self) -> (r: Vec<u8>)
        ensures
            r@ == sha256_of(self.bytes_spec()),
            r@.len() == 32,
    ;
}

} // verus!
