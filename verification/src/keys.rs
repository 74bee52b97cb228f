//! Nostr key material: a secret key and its x-only (BIP-340) public key.
use vstd::prelude::*;

use crate::crypto::bech32::{self, decode_key_spec, encode_spec};
use crate::crypto::schnorr;
use crate::crypto::secp::{scalar_in_range, secp256k1_xonly};
use crate::error::{Error, Result};
use crate::hex::{self as hexenc, hex_decode_spec, hex_error_text, hex_lower};

verus! {

/// A secp256k1 keypair with its x-only public key precomputed.
#[derive(Clone, Copy)]
pub struct Keypair {
    secret: [u8; 32],
    xonly: [u8; 32],
}

impl Keypair {
    #[verifier::type_invariant]
    spec fn keys_match(self) -> bool {
        secp256k1_xonly(self.secret@) == Some(self.xonly@)
    }

    /// The 32 secret-key bytes.
    pub closed spec fn secret_view(self) -> Seq<u8> {
        self.secret@
    }

    /// The 32 x-only public-key bytes.
    pub closed spec fn public_view(self) -> Seq<u8> {
        self.xonly@
    }

    /// Build from a 32-byte secret key.
    pub fn from_secret(secret: [u8; 32]) -> (r: Result<Self>)
        ensures
            match r {
                Ok(k) => k.secret_view() == secret@ && secp256k1_xonly(secret@) == Some(k.public_view()),
                Err(e) => secp256k1_xonly(secret@) is None && e == Error::Secp("invalid secret key"),
            },
            r is Ok <==> scalar_in_range(secret@),
    {
        let xonly = match schnorr::public_key(&secret) {
            Ok(x) => x,
            Err(e) => return Err(e),
        };
        Ok(Keypair { secret, xonly })
    }

    /// Build from a hex-encoded 32-byte secret key.
    pub fn from_secret_hex(hex_str: &str) -> (r: Result<Self>)
        ensures
            match hex_decode_spec(hex_str@) {
                None => r matches Err(Error::Decode(m)) && m@ == "hex"@ + ": "@ + hex_error_text(hex_str@),
                Some(b) => if b.len() != 32 {
                    r matches Err(Error::InvalidLength(m)) && m == "secret != 32"
                } else {
                    match r {
                        Ok(k) => k.secret_view() == b && secp256k1_xonly(b) == Some(k.public_view()),
                        Err(e) => secp256k1_xonly(b) is None && e == Error::Secp("invalid secret key"),
                    }
                },
            },
    {
        let bytes = match hexenc::decode(hex_str) {
            Some(b) => b,
            None => return Err(hexenc::decode_error("hex", hex_str)),
        };
        if bytes.len() != 32 {
            return Err(Error::InvalidLength("secret != 32"));
        }
        let secret = crate::text::to_array32(bytes.as_slice());
        Self::from_secret(secret)
    }

    /// What `from_nsec` gives for the string `s`: the decoding error, or the
    /// keypair of the decoded secret, or the refusal of an invalid secret.
    pub open spec fn from_nsec_outcome(s: Seq<char>, r: Result<Keypair>) -> bool {
        match decode_key_spec(s, "nsec"@, Error::Malformed("expected nsec"),
            Error::InvalidLength("nsec != 32 bytes")) {
            Err(e) => r == Err::<Keypair, Error>(e),
            Ok(b) => match r {
                Ok(k) => k.secret_view() == b && secp256k1_xonly(b) == Some(k.public_view()),
                Err(e) => secp256k1_xonly(b) is None && e == Error::Secp("invalid secret key"),
            },
        }
    }

    /// Build from an `nsec` bech32 string (NIP-19).
    pub fn from_nsec(nsec: &str) -> (r: Result<Self>)
        ensures
            Self::from_nsec_outcome(nsec@, r),
    {
        let secret = match bech32::decode_nsec(nsec) {
            Ok(s) => s,
            Err(e) => return Err(e),
        };
        Self::from_secret(secret)
    }

    /// The 32-byte secret key.
    pub fn secret_bytes(&self) -> (r: &[u8; 32])
        ensures
            r@ == self.secret_view(),
            secp256k1_xonly(r@) == Some(self.public_view()),
    {
        proof {
            use_type_invariant(self);
        }
        &self.secret
    }

    /// The 32-byte x-only public key.
    pub fn public_key(&self) -> (r: &[u8; 32])
        ensures
            r@ == self.public_view(),
            secp256k1_xonly(self.secret_view()) == Some(r@),
    {
        proof {
            use_type_invariant(self);
        }
        &self.xonly
    }

    /// Hex-encoded x-only public key (lowercase).
    pub fn public_key_hex(&self) -> (r: String)
        ensures
            r@ == hex_lower(self.public_view()),
    {
        hexenc::encode(self.xonly.as_slice())
    }

    /// Hex-encoded secret key (lowercase).
    pub fn secret_hex(&self) -> (r: String)
        ensures
            r@ == hex_lower(self.secret_view()),
    {
        hexenc::encode(self.secret.as_slice())
    }

    /// `npub` (NIP-19) encoding of the public key.
    pub fn npub(&self) -> (r: Result<String>)
        ensures
            r matches Ok(s) && s@ == encode_spec("npub"@, self.public_view()),
    {
        bech32::encode_npub(&self.xonly)
    }

    /// `nsec` (NIP-19) encoding of the secret key.
    pub fn nsec(&self) -> (r: Result<String>)
        ensures
            r matches Ok(s) && s@ == encode_spec("nsec"@, self.secret_view()),
    {
        bech32::encode_nsec(&self.secret)
    }

    /// Reading back the `nsec` of a keypair gives the same secret and public key.
    pub proof fn lemma_from_nsec_of_nsec(kp: Keypair, r: Result<Keypair>)
        requires
            secp256k1_xonly(kp.secret_view()) == Some(kp.public_view()),
            Self::from_nsec_outcome(encode_spec("nsec"@, kp.secret_view()), r),
        ensures
            r matches Ok(k) && k.secret_view() == kp.secret_view() && k.public_view() == kp.public_view(),
    {
        bech32::lemma_nsec_roundtrip(kp.secret_view());
    }

    /// The `npub` of a keypair is refused by `from_nsec` as the wrong prefix.
    pub proof fn lemma_from_nsec_of_npub(kp: Keypair, r: Result<Keypair>)
        requires
            Self::from_nsec_outcome(encode_spec("npub"@, kp.public_view()), r),
        ensures
            r == Err::<Keypair, Error>(Error::Malformed("expected nsec")),
    {
        bech32::lemma_nsec_refuses_npub(kp.public_view());
    }
}

} // verus!
