//! Content digests (SHA-1, SHA-512) and their lower-case hex comparison.
use crate::text::{hex_chars, hex_of, spec_to_lowercase, to_lowercase};
use vstd::prelude::*;

verus! {

/// The SHA-1 digest of `data`.
pub uninterp spec fn spec_sha1(data: Seq<u8>) -> Seq<u8>;

/// The SHA-512 digest of `data`.
pub uninterp spec fn spec_sha512(data: Seq<u8>) -> Seq<u8>;

/// `sha1::Sha1::digest`: the 20-byte SHA-1 digest of `data`. Claimed here:
/// the result is the named digest of the bytes and has 20 bytes.
#[verifier::external_body]
pub(crate) fn sha1_digest(data: &[u8]) -> (r: Vec<u8>)
    ensures
        r@ == spec_sha1(data@),
        r@.len() == 20,
{
    <sha1::Sha1 as sha1::Digest>::digest(data).to_vec()
}

/// `sha2::Sha512::digest`: the 64-byte SHA-512 digest of `data`. Claimed
/// here: the result is the named digest of the bytes and has 64 bytes.
#[verifier::external_body]
pub(crate) fn sha512_digest(data: &[u8]) -> (r: Vec<u8>)
    ensures
        r@ == spec_sha512(data@),
        r@.len() == 64,
{
    <sha2::Sha512 as sha2::Digest>::digest(data).to_vec()
}

/// `true` when the lower-case hex SHA-1 of `data` equals `expect` lowercased.
pub fn sha1_matches(data: &[u8], expect: &str) -> (r: bool)
    ensures
        r == (hex_chars(spec_sha1(data@)) == spec_to_lowercase(expect@)),
{
    let d = sha1_digest(data);
    let got = hex_of(d.as_slice());
    let want = to_lowercase(expect);
    got == want
}

/// `true` when the lower-case hex SHA-512 of `data` equals `expect` lowercased.
pub fn sha512_matches(data: &[u8], expect: &str) -> (r: bool)
    ensures
        r == (hex_chars(spec_sha512(data@)) == spec_to_lowercase(expect@)),
{
    let d = sha512_digest(data);
    let got = hex_of(d.as_slice());
    let want = to_lowercase(expect);
    got == want
}

} // verus!
