//! BIP-340 Schnorr signatures from the `k256` crate. Signing takes an explicit
//! `aux_rand`; with all-zero aux the signature is deterministic.
use vstd::prelude::*;

use k256::schnorr::{Signature, SigningKey, VerifyingKey};

use crate::crypto::secp::{secp256k1_xonly, xonly_public_key};
use crate::error::{Error, Result};

verus! {

/// The BIP-340 signature of the 32-byte `msg` under `secret` with auxiliary
/// randomness `aux`; `None` when signing fails.
pub uninterp spec fn bip340_signature(msg: Seq<u8>, secret: Seq<u8>, aux: Seq<u8>) -> Option<Seq<u8>>;

/// Whether `sig` is a valid BIP-340 signature of `msg` under x-only key `pk`.
pub uninterp spec fn bip340_valid(sig: Seq<u8>, msg: Seq<u8>, pk: Seq<u8>) -> bool;

/// Why signing failed.
pub enum SignFailure {
    /// The secret key is not a valid scalar.
    InvalidSecret,
    /// The signing computation itself failed.
    SigningFailed,
}

/// `SigningKey::from_bytes(secret)` and `sign_raw(msg, aux)`.
/// Trusted: fails on an invalid secret, otherwise returns the BIP-340
/// signature when signing succeeds; a returned signature verifies under the
/// secret's x-only key (the crate re-verifies it in debug builds).
#[verifier::external_body]
fn sign_raw(msg: &[u8; 32], secret: &[u8; 32], aux: &[u8; 32]) -> (r: core::result::Result<[u8; 64], SignFailure>)
    ensures
        r is Ok ==> secp256k1_xonly(secret@) is Some && bip340_signature(msg@, secret@, aux@) == Some(
            r->Ok_0@,
        ) && bip340_valid(r->Ok_0@, msg@, secp256k1_xonly(secret@)->0),
        (r is Err && r->Err_0 is InvalidSecret) <==> secp256k1_xonly(secret@) is None,
        (r is Err && r->Err_0 is SigningFailed) <==> (secp256k1_xonly(secret@) is Some
            && bip340_signature(msg@, secret@, aux@) is None),
{
    let sk = match SigningKey::from_bytes(secret) {
        Ok(sk) => sk,
        Err(_) => return Err(SignFailure::InvalidSecret),
    };
    match sk.sign_raw(msg, aux) {
        Ok(sig) => Ok(sig.to_bytes()),
        Err(_) => Err(SignFailure::SigningFailed),
    }
}

/// `VerifyingKey::from_bytes(pk)`, `Signature::try_from(sig)` and
/// `verify_raw(msg, sig)`; a key or signature that does not parse is invalid.
/// Trusted: the result is `bip340_valid(sig, msg, pk)`.
#[verifier::external_body]
fn verify_raw(signature: &[u8; 64], message: &[u8; 32], public_key: &[u8; 32]) -> (r: bool)
    ensures
        r == bip340_valid(signature@, message@, public_key@),
{
    let vk = match VerifyingKey::from_bytes(public_key) {
        Ok(vk) => vk,
        Err(_) => return false,
    };
    let sig = match Signature::try_from(&signature[..]) {
        Ok(s) => s,
        Err(_) => return false,
    };
    vk.verify_raw(message, &sig).is_ok()
}

/// x-only public key from a 32-byte secret (BIP-340).
pub fn public_key(secret: &[u8; 32]) -> (r: Result<[u8; 32]>)
    ensures
        match r {
            Ok(x) => secp256k1_xonly(secret@) == Some(x@),
            Err(e) => secp256k1_xonly(secret@) is None && e == Error::Secp("invalid secret key"),
        },
        r is Ok <==> crate::crypto::secp::scalar_in_range(secret@),
{
    xonly_public_key(secret)
}

/// The result of signing: the signature, or the error for an invalid secret
/// key or a failed signing computation.
pub open spec fn sign_spec(msg: Seq<u8>, secret: Seq<u8>, aux: Seq<u8>) -> core::result::Result<Seq<u8>, Error> {
    if secp256k1_xonly(secret) is None {
        Err(Error::Secp("invalid secret key"))
    } else {
        match bip340_signature(msg, secret, aux) {
            Some(sig) => Ok(sig),
            None => Err(Error::Secp("schnorr sign failed")),
        }
    }
}

/// Sign a 32-byte message (the event id) with an explicit 32-byte `aux_rand`.
pub fn sign_with_aux(message: &[u8; 32], secret: &[u8; 32], aux_rand: &[u8; 32]) -> (r: Result<[u8; 64]>)
    ensures
        match r {
            Ok(sig) => sign_spec(message@, secret@, aux_rand@) == Ok::<Seq<u8>, Error>(sig@)
                && bip340_valid(sig@, message@, secp256k1_xonly(secret@)->0),
            Err(e) => sign_spec(message@, secret@, aux_rand@) == Err::<Seq<u8>, Error>(e),
        },
{
    match sign_raw(message, secret, aux_rand) {
        Ok(sig) => Ok(sig),
        Err(SignFailure::InvalidSecret) => Err(Error::Secp("invalid secret key")),
        Err(SignFailure::SigningFailed) => Err(Error::Secp("schnorr sign failed")),
    }
}

/// Deterministic signing: `sign_with_aux` with all-zero `aux_rand`.
pub fn sign(message: &[u8; 32], secret: &[u8; 32]) -> (r: Result<[u8; 64]>)
    ensures
        match r {
            Ok(sig) => sign_spec(message@, secret@, Seq::new(32, |i: int| 0u8)) == Ok::<Seq<u8>, Error>(sig@)
                && bip340_valid(sig@, message@, secp256k1_xonly(secret@)->0),
            Err(e) => sign_spec(message@, secret@, Seq::new(32, |i: int| 0u8)) == Err::<Seq<u8>, Error>(e),
        },
{
    let aux = [0u8; 32];
    assert(aux@ == Seq::new(32, |i: int| 0u8));
    sign_with_aux(message, secret, &aux)
}

/// Verify a 64-byte BIP-340 signature over a 32-byte message against an x-only key.
pub fn verify(signature: &[u8; 64], message: &[u8; 32], public_key: &[u8; 32]) -> (r: bool)
    ensures
        r == bip340_valid(signature@, message@, public_key@),
{
    verify_raw(signature, message, public_key)
}

} // verus!
