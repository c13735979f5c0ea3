//! The content digest of a submitted proof.
//!
//! The digest itself is computed by an outside cryptographic crate; this
//! module only gives its result a name, so that contracts elsewhere can say
//! exactly which bytes a stored record holds.

use vstd::prelude::*;

use sha2::Digest;

verus! {

/// The SHA-256 digest of a byte string.  What the 32 bytes are is the
/// outside crate's business; contracts use the name alone.
pub uninterp spec fn sha256_of(data: Seq<u8>) -> Seq<u8>;

/// Relies on sha2::Sha256 (sha2 crate): the digest depends on the input
/// bytes alone and is always 32 bytes long.
#[verifier::external_body]
pub(crate) fn sha256(data: &Vec<u8>) -> (r: Vec<u8>)
    ensures
        r@ == sha256_of(data@),
        r@.len() == 32,
{
    sha2::Sha256::digest(data.as_slice()).to_vec()
}

} // verus!
