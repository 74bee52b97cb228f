//! SHA-256 and HKDF-SHA256, from the `sha2` and `hkdf` crates.
use vstd::prelude::*;

use hkdf::Hkdf;
use sha2::{Digest, Sha256};

verus! {

/// The SHA-256 digest of `data`.
pub uninterp spec fn sha256_digest(data: Seq<u8>) -> Seq<u8>;

/// The first `len` bytes of HKDF-SHA256 output (RFC 5869) for the given salt,
/// input key material and info.
pub uninterp spec fn hkdf_sha256_okm(salt: Seq<u8>, ikm: Seq<u8>, info: Seq<u8>, len: nat) -> Seq<u8>;

/// `sha2::Sha256::digest`.
/// Trusted: the 32 returned bytes are the SHA-256 digest of `data`.
#[verifier::external_body]
pub(crate) fn sha256(data: &[u8]) -> (r: [u8; 32])
    ensures
        r@ == sha256_digest(data@),
{
    Sha256::digest(data).into()
}

/// `hkdf::Hkdf::<Sha256>::new(Some(salt), ikm)` followed by `expand(info, okm)`
/// into `len` bytes.
/// Trusted: succeeds exactly when `len <= 255 * 32` (the RFC 5869 limit the
/// crate checks), and then yields `hkdf_sha256_okm(salt, ikm, info, len)`.
#[verifier::external_body]
pub(crate) fn hkdf_sha256(salt: &[u8], ikm: &[u8], info: &[u8], len: usize) -> (r: Option<Vec<u8>>)
    ensures
        r is Some <==> len <= 255 * 32,
        r is Some ==> r->0@ == hkdf_sha256_okm(salt@, ikm@, info@, len as nat) && r->0@.len() == len,
{
    let hk = Hkdf::<Sha256>::new(Some(salt), ikm);
    let mut okm = vec![0u8; len];
    match hk.expand(info, &mut okm) {
        Ok(()) => Some(okm),
        Err(_) => None,
    }
}

} // verus!
