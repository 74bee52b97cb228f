//! Standard, padded base64 (RFC 4648) from the `base64` crate.
use vstd::prelude::*;

use base64::engine::general_purpose::STANDARD;
use base64::Engine;

verus! {

/// The standard padded base64 text of `bytes`.
pub uninterp spec fn base64_standard(bytes: Seq<u8>) -> Seq<char>;

/// The bytes that standard padded base64 text `s` stands for, if it is valid.
pub uninterp spec fn base64_standard_decoded(s: Seq<char>) -> Option<Seq<u8>>;

/// A character of the standard base64 alphabet or the `=` padding.
pub open spec fn is_base64_char(c: char) -> bool {
    ('A' <= c && c <= 'Z') || ('a' <= c && c <= 'z') || ('0' <= c && c <= '9') || c == '+' || c == '/'
        || c == '='
}

/// `STANDARD.encode(bytes)`.
/// Trusted: the result is the base64 text of `bytes`, made of alphabet and
/// padding characters only (RFC 4648 section 4), and it decodes back to `bytes`.
#[verifier::external_body]
pub(crate) fn base64_encode(bytes: &[u8]) -> (r: String)
    ensures
        r@ == base64_standard(bytes@),
        base64_standard_decoded(r@) == Some(bytes@),
        forall|i: int| 0 <= i < r@.len() ==> is_base64_char(#[trigger] r@[i]),
{
    STANDARD.encode(bytes)
}

/// `STANDARD.decode(s)`; the error is the crate's message for the failure.
/// Trusted: `Ok` exactly when `s` is valid base64, with the bytes it stands for.
#[verifier::external_body]
pub(crate) fn base64_decode(s: &str) -> (r: core::result::Result<Vec<u8>, String>)
    ensures
        r is Ok <==> base64_standard_decoded(s@) is Some,
        r is Ok ==> base64_standard_decoded(s@) == Some(r->Ok_0@),
{
    match STANDARD.decode(s) {
        Ok(v) => Ok(v),
        Err(e) => Err(format!("{e}")),
    }
}

} // verus!
