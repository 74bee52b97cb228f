//! secp256k1 primitives shared by NIP-04 and NIP-44: x-only public keys and the
//! ECDH x-coordinate, from the `k256` crate. The peer's x-only key is lifted to
//! the point with even y (`0x02 || x`) before the key agreement.
use vstd::prelude::*;

use k256::ecdh::diffie_hellman;
use k256::elliptic_curve::sec1::ToEncodedPoint;
use k256::{PublicKey, SecretKey};

use crate::error::{Error, Result};

verus! {

/// The x-only (BIP-340) public key of a 32-byte secret, or `None` when the
/// secret is not a valid scalar (zero, or not below the group order).
pub uninterp spec fn secp256k1_xonly(secret: Seq<u8>) -> Option<Seq<u8>>;

/// Whether a 32-byte x coordinate is that of a curve point (so that `0x02 || x`
/// parses as a compressed public key).
pub uninterp spec fn secp256k1_x_on_curve(x: Seq<u8>) -> bool;

/// The x coordinate of `secret * P`, where `P` is the even-y point with x
/// coordinate `peer_x`; `None` when either input is invalid.
pub uninterp spec fn ecdh_shared_x(secret: Seq<u8>, peer_x: Seq<u8>) -> Option<Seq<u8>>;

/// The number whose big-endian bytes are `b`.
pub open spec fn be_value(b: Seq<u8>) -> nat
    decreases b.len(),
{
    if b.len() == 0 {
        0
    } else {
        be_value(b.drop_last()) * 256 + b.last() as nat
    }
}

/// The order `n` of the secp256k1 group.
pub open spec fn secp256k1_order() -> nat {
    0xFFFFFFFFFFFFFFFFFFFFFFFFFFFFFFFEBAAEDCE6AF48A03BBFD25E8CD0364141nat
}

/// A 32-byte secret key is a scalar in `[1, n)`, read big-endian.
pub open spec fn scalar_in_range(secret: Seq<u8>) -> bool {
    0 < be_value(secret) && be_value(secret) < secp256k1_order()
}

/// The secret is a valid secp256k1 scalar.
pub open spec fn valid_secret(secret: Seq<u8>) -> bool {
    secp256k1_xonly(secret) is Some
}

/// Why an ECDH computation failed.
pub enum EcdhFailure {
    /// The own secret key is not a valid scalar.
    InvalidSecret,
    /// The peer's x coordinate is not on the curve.
    InvalidPeer,
}

/// `SecretKey::from_slice(secret)`, then the x coordinate of the compressed
/// public key.
/// Trusted: `Some` exactly for valid secrets, that is, big-endian scalars in
/// `[1, n)` (`SecretKey::from_bytes` refuses zero and, through
/// `ScalarPrimitive::new`, values not below the order), holding the x-only key,
/// which is itself the x coordinate of a curve point.
#[verifier::external_body]
fn xonly_of(secret: &[u8; 32]) -> (r: Option<[u8; 32]>)
    ensures
        r is Some <==> secp256k1_xonly(secret@) is Some,
        r is Some <==> scalar_in_range(secret@),
        r is Some ==> secp256k1_xonly(secret@) == Some(r->0@) && secp256k1_x_on_curve(r->0@),
{
    match SecretKey::from_slice(secret) {
        Ok(sk) => {
            let point = sk.public_key().to_encoded_point(true);
            match point.x() {
                Some(x) => {
                    let mut out = [0u8; 32];
                    out.copy_from_slice(x.as_slice());
                    Some(out)
                },
                None => None,
            }
        },
        Err(_) => None,
    }
}

/// `SecretKey::from_slice`, `PublicKey::from_sec1_bytes(0x02 || peer)` and
/// `k256::ecdh::diffie_hellman`, keeping the raw x coordinate.
/// Trusted: fails on an invalid secret first, then on a peer x that is not on
/// the curve; otherwise returns `ecdh_shared_x` (and the own x-only key, being
/// the x coordinate of a curve point, is on the curve). Because the x coordinate of
/// `a * (b * G)` does not depend on the sign of y, the two parties' results
/// agree: the secret whose x-only key is `peer` gets the same value against
/// this secret's x-only key.
#[verifier::external_body]
fn ecdh_raw(my_secret: &[u8; 32], peer_xonly: &[u8; 32]) -> (r: core::result::Result<[u8; 32], EcdhFailure>)
    ensures
        r is Ok ==> ecdh_shared_x(my_secret@, peer_xonly@) == Some(r->Ok_0@)
            && secp256k1_xonly(my_secret@) is Some && secp256k1_x_on_curve(peer_xonly@)
            && secp256k1_x_on_curve(secp256k1_xonly(my_secret@)->0),
        r is Ok ==> forall|other: Seq<u8>| #[trigger] secp256k1_xonly(other) == Some(peer_xonly@)
            ==> ecdh_shared_x(other, secp256k1_xonly(my_secret@)->0) == Some(r->Ok_0@),
        (r is Err && r->Err_0 is InvalidSecret) <==> secp256k1_xonly(my_secret@) is None,
        (r is Err && r->Err_0 is InvalidPeer) <==> (secp256k1_xonly(my_secret@) is Some
            && !secp256k1_x_on_curve(peer_xonly@)),
{
    let sk = match SecretKey::from_slice(my_secret) {
        Ok(sk) => sk,
        Err(_) => return Err(EcdhFailure::InvalidSecret),
    };
    let mut compressed = [0u8; 33];
    compressed[0] = 0x02;
    compressed[1..].copy_from_slice(peer_xonly);
    let peer = match PublicKey::from_sec1_bytes(&compressed) {
        Ok(p) => p,
        Err(_) => return Err(EcdhFailure::InvalidPeer),
    };
    let shared = diffie_hellman(sk.to_nonzero_scalar(), peer.as_affine());
    let mut out = [0u8; 32];
    out.copy_from_slice(shared.raw_secret_bytes().as_slice());
    Ok(out)
}

/// Derive the 32-byte x-only (BIP-340) public key from a 32-byte secret key.
pub fn xonly_public_key(secret: &[u8; 32]) -> (r: Result<[u8; 32]>)
    ensures
        match r {
            Ok(x) => secp256k1_xonly(secret@) == Some(x@) && secp256k1_x_on_curve(x@),
            Err(e) => secp256k1_xonly(secret@) is None && e == Error::Secp("invalid secret key"),
        },
        r is Ok <==> scalar_in_range(secret@),
{
    match xonly_of(secret) {
        Some(x) => Ok(x),
        None => Err(Error::Secp("invalid secret key")),
    }
}

/// The ECDH shared x coordinate `x(my_secret * P)`, with `P` the even-y lift of
/// `peer_xonly`.
pub fn ecdh_x(my_secret: &[u8; 32], peer_xonly: &[u8; 32]) -> (r: Result<[u8; 32]>)
    ensures
        match r {
            Ok(x) => ecdh_shared_x(my_secret@, peer_xonly@) == Some(x@) && valid_secret(my_secret@)
                && secp256k1_x_on_curve(peer_xonly@) && secp256k1_x_on_curve(secp256k1_xonly(my_secret@)->0),
            Err(e) => (!valid_secret(my_secret@) && e == Error::Secp("invalid secret key")) || (
            valid_secret(my_secret@) && !secp256k1_x_on_curve(peer_xonly@) && e == Error::Secp(
                "invalid peer public key",
            )),
        },
        r is Ok <==> valid_secret(my_secret@) && secp256k1_x_on_curve(peer_xonly@),
        r is Ok ==> forall|other: Seq<u8>| #[trigger] secp256k1_xonly(other) == Some(peer_xonly@)
            ==> ecdh_shared_x(other, secp256k1_xonly(my_secret@)->0) == Some(r->Ok_0@),
{
    match ecdh_raw(my_secret, peer_xonly) {
        Ok(x) => Ok(x),
        Err(EcdhFailure::InvalidSecret) => Err(Error::Secp("invalid secret key")),
        Err(EcdhFailure::InvalidPeer) => Err(Error::Secp("invalid peer public key")),
    }
}

} // verus!
