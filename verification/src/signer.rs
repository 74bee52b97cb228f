//! The custody seam: protocol code signs and derives shared keys only through
//! [`Signer`], never through a raw private key. [`LocalSigner`] holds the key
//! in memory.
use vstd::prelude::*;

use crate::crypto::nip04::{self, shared_secret_spec};
use crate::crypto::nip44::{self, conversation_key_spec};
use crate::crypto::schnorr::{self, bip340_valid, sign_spec};
use crate::crypto::secp::secp256k1_xonly;
use crate::error::{Error, Result};
use crate::keys::Keypair;

verus! {

/// A custody-agnostic signer. An implementation acts for one secret key
/// (`signer_secret`): its public key is that key's x-only key, its signatures
/// verify under it, and the NIP-44 / NIP-04 keys it derives are the ones that
/// secret derives.
pub trait Signer {
    /// The secret key this signer acts for (never exposed at run time).
    spec fn signer_secret(&self) -> Seq<u8>;

    /// The signer's 32-byte x-only public key.
    fn public_key(&self) -> (r: [u8; 32])
        ensures
            secp256k1_xonly(self.signer_secret()) == Some(r@),
    ;

    /// Whether this signer produces a signature for the 32-byte `hash`.
    spec fn signs(&self, hash: Seq<u8>) -> bool;

    /// The signature this signer gives for the 32-byte `hash`.
    spec fn signature_for(&self, hash: Seq<u8>) -> Seq<u8>;

    /// The error this signer reports when it does not sign `hash`.
    spec fn sign_error_for(&self, hash: Seq<u8>) -> Error;

    /// BIP-340 sign a 32-byte event id.
    fn schnorr_sign(&self, hash: &[u8; 32]) -> (r: Result<[u8; 64]>)
        ensures
            r is Ok <==> self.signs(hash@),
            r is Ok ==> r->Ok_0@ == self.signature_for(hash@),
            r is Err ==> r->Err_0 == self.sign_error_for(hash@),
            r is Ok ==> secp256k1_xonly(self.signer_secret()) is Some && bip340_valid(
                r->Ok_0@,
                hash@,
                secp256k1_xonly(self.signer_secret())->0,
            ),
    ;

    /// Whether this signer derives the NIP-44 conversation key for `peer`.
    spec fn derives_nip44_key(&self, peer: Seq<u8>) -> bool;

    /// Whether this signer derives the NIP-04 shared secret for `peer`.
    spec fn derives_nip04_secret(&self, peer: Seq<u8>) -> bool;

    /// Derive the 32-byte NIP-44 conversation key for `peer_xonly`.
    fn nip44_conversation_key(&self, peer_xonly: &[u8; 32]) -> (r: Result<[u8; 32]>)
        ensures
            r is Ok <==> self.derives_nip44_key(peer_xonly@),
            r is Ok ==> conversation_key_spec(self.signer_secret(), peer_xonly@) == Ok::<Seq<u8>, Error>(
                r->Ok_0@,
            ),
            r is Ok ==> forall|other: Seq<u8>| #[trigger] secp256k1_xonly(other) == Some(peer_xonly@)
                ==> conversation_key_spec(other, secp256k1_xonly(self.signer_secret())->0) == Ok::<Seq<u8>, Error>(r->Ok_0@),
    ;

    /// Derive the 32-byte NIP-04 shared secret for `peer_xonly`.
    fn nip04_shared_secret(&self, peer_xonly: &[u8; 32]) -> (r: Result<[u8; 32]>)
        ensures
            r is Ok <==> self.derives_nip04_secret(peer_xonly@),
            r is Ok ==> shared_secret_spec(self.signer_secret(), peer_xonly@) == Ok::<Seq<u8>, Error>(
                r->Ok_0@,
            ),
            r is Ok ==> forall|other: Seq<u8>| #[trigger] secp256k1_xonly(other) == Some(peer_xonly@)
                ==> shared_secret_spec(other, secp256k1_xonly(self.signer_secret())->0) == Ok::<Seq<u8>, Error>(r->Ok_0@),
    ;
}

/// A [`Signer`] that holds the key locally.
#[derive(Clone, Copy)]
pub struct LocalSigner {
    keypair: Keypair,
}

impl LocalSigner {
    /// The keypair held.
    pub closed spec fn keypair_view(self) -> Keypair {
        self.keypair
    }

    /// Wrap an existing keypair.
    pub fn new(keypair: Keypair) -> (r: Self)
        ensures
            r.keypair_view() == keypair,
    {
        LocalSigner { keypair }
    }

    /// Build directly from a 32-byte secret.
    pub fn from_secret(secret: [u8; 32]) -> (r: Result<Self>)
        ensures
            match r {
                Ok(s) => s.keypair_view().secret_view() == secret@ && secp256k1_xonly(secret@) == Some(
                    s.keypair_view().public_view(),
                ),
                Err(e) => secp256k1_xonly(secret@) is None && e == Error::Secp("invalid secret key"),
            },
            r is Ok <==> crate::crypto::secp::scalar_in_range(secret@),
    {
        match Keypair::from_secret(secret) {
            Ok(k) => Ok(Self::new(k)),
            Err(e) => Err(e),
        }
    }

    /// The underlying keypair.
    pub fn keypair(&self) -> (r: &Keypair)
        ensures
            *r == self.keypair_view(),
    {
        &self.keypair
    }
}

impl Signer for LocalSigner {
    open spec fn signer_secret(&self) -> Seq<u8> {
        self.keypair_view().secret_view()
    }

    open spec fn signs(&self, hash: Seq<u8>) -> bool {
        sign_spec(hash, self.signer_secret(), Seq::new(32, |i: int| 0u8)) is Ok
    }

    open spec fn signature_for(&self, hash: Seq<u8>) -> Seq<u8> {
        sign_spec(hash, self.signer_secret(), Seq::new(32, |i: int| 0u8))->Ok_0
    }

    open spec fn sign_error_for(&self, hash: Seq<u8>) -> Error {
        sign_spec(hash, self.signer_secret(), Seq::new(32, |i: int| 0u8))->Err_0
    }

    open spec fn derives_nip44_key(&self, peer: Seq<u8>) -> bool {
        conversation_key_spec(self.signer_secret(), peer) is Ok
    }

    open spec fn derives_nip04_secret(&self, peer: Seq<u8>) -> bool {
        shared_secret_spec(self.signer_secret(), peer) is Ok
    }

    fn public_key(&self) -> (r: [u8; 32]) {
        let pk = self.keypair.public_key();
        *pk
    }

    fn schnorr_sign(&self, hash: &[u8; 32]) -> (r: Result<[u8; 64]>)
        ensures
            match r {
                Ok(sig) => sign_spec(hash@, self.signer_secret(), Seq::new(32, |i: int| 0u8)) == Ok::<Seq<u8>, Error>(sig@),
                Err(e) => sign_spec(hash@, self.signer_secret(), Seq::new(32, |i: int| 0u8)) == Err::<Seq<u8>, Error>(e),
            },
    {
        let sk = self.keypair.secret_bytes();
        schnorr::sign(hash, sk)
    }

    fn nip44_conversation_key(&self, peer_xonly: &[u8; 32]) -> (r: Result<[u8; 32]>)
        ensures
            match r {
                Ok(k) => conversation_key_spec(self.signer_secret(), peer_xonly@) == Ok::<Seq<u8>, Error>(k@),
                Err(e) => conversation_key_spec(self.signer_secret(), peer_xonly@) == Err::<Seq<u8>, Error>(e),
            },
    {
        nip44::derive_conversation_key(self.keypair.secret_bytes(), peer_xonly)
    }

    fn nip04_shared_secret(&self, peer_xonly: &[u8; 32]) -> (r: Result<[u8; 32]>)
        ensures
            match r {
                Ok(k) => shared_secret_spec(self.signer_secret(), peer_xonly@) == Ok::<Seq<u8>, Error>(k@),
                Err(e) => shared_secret_spec(self.signer_secret(), peer_xonly@) == Err::<Seq<u8>, Error>(e),
            },
    {
        nip04::derive_shared_secret(self.keypair.secret_bytes(), peer_xonly)
    }
}

} // verus!
