//! Message digests.
use sha1::Digest;
use vstd::prelude::*;

verus! {

/// The SHA-1 digest of the bytes.
pub uninterp spec fn sha1(data: Seq<u8>) -> Seq<u8>;

/// The SHA-1 digest, twenty bytes: `sha1::Sha1::digest`.
#[verifier::external_body]
pub(crate) fn sha1_digest(data: &[u8]) -> (r: Vec<u8>)
    ensures
        r@ == sha1(data@),
        r@.len() == 20,
{
    sha1::Sha1::digest(data).to_vec()
}

/// The SHA-256 digest of the bytes.
pub uninterp spec fn sha256(data: Seq<u8>) -> Seq<u8>;

/// The SHA-256 digest, thirty-two bytes: `sha2::Sha256::digest`.
#[verifier::external_body]
pub(crate) fn sha256_digest(data: &[u8]) -> (r: Vec<u8>)
    ensures
        r@ == sha256(data@),
        r@.len() == 32,
{
    sha2::Sha256::digest(data).to_vec()
}

/// The SHA-384 digest of the bytes.
pub uninterp spec fn sha384(data: Seq<u8>) -> Seq<u8>;

/// The SHA-384 digest, forty-eight bytes: `sha2::Sha384::digest`.
#[verifier::external_body]
pub(crate) fn sha384_digest(data: &[u8]) -> (r: Vec<u8>)
    ensures
        r@ == sha384(data@),
        r@.len() == 48,
{
    sha2::Sha384::digest(data).to_vec()
}

/// The SHA-512 digest of the bytes.
pub uninterp spec fn sha512(data: Seq<u8>) -> Seq<u8>;

/// The SHA-512 digest, sixty-four bytes: `sha2::Sha512::digest`.
#[verifier::external_body]
pub(crate) fn sha512_digest(data: &[u8]) -> (r: Vec<u8>)
    ensures
        r@ == sha512(data@),
        r@.len() == 64,
{
    sha2::Sha512::digest(data).to_vec()
}

} // verus!
