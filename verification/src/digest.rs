//! Content fingerprinting: fixed-width, hex-encoded digests of byte
//! sequences, computed by outside hash implementations.

use vstd::prelude::*;

verus! {

/// The hex-encoded digest that the content hash assigns to a byte
/// sequence. The digest depends on the bytes alone, so two calls on equal
/// content always agree.
pub uninterp spec fn blake3_hex_of(bytes: Seq<u8>) -> Seq<char>;

/// The hex-encoded digest of the auxiliary (non-cryptographic) file hash.
pub uninterp spec fn md5_hex_of(bytes: Seq<u8>) -> Seq<char>;

/// Relies on blake3::hash and blake3::Hash::to_hex: a 256-bit digest of
/// the input bytes alone, rendered as 64 lowercase hex characters.
#[verifier::external_body]
pub(crate) fn blake3_hex(content: &[u8]) -> (r: String)
    ensures
        r@ == blake3_hex_of(content@),
        r@.len() == 64,
{
    blake3::hash(content).to_hex().as_str().to_string()
}

/// Relies on md5::compute: a 128-bit digest of the input bytes alone,
/// rendered as 32 lowercase hex characters.
#[verifier::external_body]
pub(crate) fn md5_hex(content: &[u8]) -> (r: String)
    ensures
        r@ == md5_hex_of(content@),
        r@.len() == 32,
{
    format!("{:x}", md5::compute(content))
}

/// Hash stability: the content digest is a function of the bytes, so equal
/// byte sequences always fingerprint identically, across calls and runs.
/// (That distinct contents collide only with negligible probability is a
/// property of the hash construction and is exercised by tests, not proved.)
pub proof fn lemma_hash_stable(a: Seq<u8>, b: Seq<u8>)
    requires
        a == b,
    ensures
        blake3_hex_of(a) == blake3_hex_of(b),
        md5_hex_of(a) == md5_hex_of(b),
{
}

} // verus!
