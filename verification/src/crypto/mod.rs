//! Cryptographic building blocks: NIP-19 bech32, NIP-04, NIP-44, BIP-340
//! Schnorr and the secp256k1 key agreement they share.
pub mod bech32;
pub mod digest;
pub mod encoding;
pub mod secp;
pub mod schnorr;
pub mod nip44;
pub mod nip04;
