//! The content digest under every root in the system.
//!
//! Hashing is delegated to an outside SHA-256 implementation; the digest is
//! named, not written out, and everything proved about roots holds for any
//! function of the input bytes alone.

use vstd::prelude::*;
use sha2::Digest;
use crate::hash256::Hash256;

verus! {

/// The SHA-256 digest of `data`: a function of the bytes alone.
pub uninterp spec fn sha256_of(data: Seq<u8>) -> Seq<u8>;

/// Relies on sha2's `Sha256::digest`: a 32-byte digest that depends on the
/// input bytes alone.
#[verifier::external_body]
fn sha256(data: &Vec<u8>) -> (r: Vec<u8>)
    ensures
        r@ == sha256_of(data@),
        r@.len() == 32,
{
    sha2::Sha256::digest(data.as_slice()).to_vec()
}

/// The digest of `data`, packed into a root.
pub open spec fn spec_hash_of_bytes(data: Seq<u8>) -> Hash256
    recommends
        sha256_of(data).len() == 32,
{
    Hash256::spec_from_bytes(sha256_of(data))
}

pub fn hash_of_bytes(data: &Vec<u8>) -> (r: Hash256)
    ensures
        r == spec_hash_of_bytes(data@),
{
    let d = sha256(data);
    let r = Hash256::read_bytes(&d, 0);
    proof {
        assert(d@.subrange(0, 32) =~= d@);
    }
    r
}

} // verus!
