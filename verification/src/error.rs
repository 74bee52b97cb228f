//! The error type of the library.
use vstd::prelude::*;

use crate::text::push_str;

verus! {

/// Errors produced by the Nostr protocol / crypto layer.
#[derive(Debug)]
pub enum Error {
    /// A key, nonce, IV, or other byte input had the wrong length.
    InvalidLength(&'static str),
    /// secp256k1 / schnorr operation failed (bad key, bad point, bad signature).
    Secp(&'static str),
    /// AEAD (ChaCha20-Poly1305 / AES-GCM) or AES-CBC decryption failed.
    Decrypt(&'static str),
    /// NIP-44 padding was malformed.
    Padding(&'static str),
    /// Base64 / hex / JSON decode failure.
    Decode(String),
    /// Wire format did not match what was expected.
    Malformed(&'static str),
    /// GZIP (NIP-04 large-message extension) failure.
    Gzip(String),
    /// UTF-8 decode failure on a decrypted plaintext.
    Utf8,
}

/// The error `e` is the error `expected`, where decode and gzip errors are
/// compared by kind only (their text comes from the decoding crate).
pub open spec fn error_matches(e: Error, expected: Error) -> bool {
    match (e, expected) {
        (Error::Decode(_), Error::Decode(_)) => true,
        (Error::Gzip(_), Error::Gzip(_)) => true,
        _ => e == expected,
    }
}

/// A decode error (its text unspecified).
pub open spec fn some_decode_error() -> Error {
    Error::Decode(arbitrary())
}

/// A gzip error (its text unspecified).
pub open spec fn some_gzip_error() -> Error {
    Error::Gzip(arbitrary())
}

/// Crate result alias.
pub type Result<T> = core::result::Result<T, Error>;


/// The human-readable text of an error.
pub open spec fn error_message_spec(e: Error) -> Seq<char> {
    match e {
        Error::InvalidLength(m) => "invalid length: "@ + m@,
        Error::Secp(m) => "secp256k1 error: "@ + m@,
        Error::Decrypt(m) => "decryption failed: "@ + m@,
        Error::Padding(m) => "invalid nip44 padding: "@ + m@,
        Error::Decode(m) => "decode error: "@ + m@,
        Error::Malformed(m) => "malformed payload: "@ + m@,
        Error::Gzip(m) => "gzip error: "@ + m@,
        Error::Utf8 => "invalid utf-8 in plaintext"@,
    }
}

impl Error {
    /// The human-readable text of the error.
    pub fn message(&self) -> (r: String)
        ensures
            r@ == error_message_spec(*self),
    {
        let (head, tail): (&str, &str) = match self {
            Error::InvalidLength(m) => ("invalid length: ", *m),
            Error::Secp(m) => ("secp256k1 error: ", *m),
            Error::Decrypt(m) => ("decryption failed: ", *m),
            Error::Padding(m) => ("invalid nip44 padding: ", *m),
            Error::Decode(m) => ("decode error: ", m.as_str()),
            Error::Malformed(m) => ("malformed payload: ", *m),
            Error::Gzip(m) => ("gzip error: ", m.as_str()),
            Error::Utf8 => ("invalid utf-8 in plaintext", ""),
        };
        let mut r = String::from_str(head);
        push_str(&mut r, tail);
        proof {
            reveal_strlit("");
        }
        r
    }
}

} // verus!
