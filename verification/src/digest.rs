//! Cryptographic digests of byte strings, by the outside hash crates.
use vstd::prelude::*;

verus! {

/// The BLAKE3 hash of a byte string (`blake3::hash`), as its 32 bytes.
pub uninterp spec fn blake3_digest(data: Seq<u8>) -> Seq<u8>;

/// Hashes with `blake3::hash` and hands out the 32 bytes of the hash
/// (`Hash::as_bytes`): the result is named `blake3_digest(data)`, a function
/// of the input alone, and is 32 bytes long (`OUT_LEN`).
#[verifier::external_body]
pub(crate) fn blake3_hash(data: &[u8]) -> (h: Vec<u8>)
    ensures
        h@ == blake3_digest(data@),
        h@.len() == 32,
{
    blake3::hash(data).as_bytes().to_vec()
}

/// The SHA-256 hash of a byte string (`sha2::Sha256`), as its 32 bytes.
pub uninterp spec fn sha256_digest(data: Seq<u8>) -> Seq<u8>;

/// Hashes with `Sha256::digest` and hands out the 32 bytes of the hash: the
/// result is named `sha256_digest(data)`, a function of the input alone,
/// and is 32 bytes long.
#[verifier::external_body]
pub(crate) fn sha256_hash(data: &[u8]) -> (h: Vec<u8>)
    ensures
        h@ == sha256_digest(data@),
        h@.len() == 32,
{
    <sha2::Sha256 as sha2::Digest>::digest(data).to_vec()
}

} // verus!
