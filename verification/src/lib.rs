//! Unicity Nostr protocol library: event ids and signatures, NIP-19 bech32
//! keys, NIP-04 / NIP-44 encryption, NIP-17 gift wraps, UNIP-01 nametag
//! bindings, filters and the payment / token-transfer message kinds.
pub mod kinds;
pub mod error;
pub mod event;
pub mod filter;
pub mod hex;
pub mod json;
pub mod keys;
pub mod nametag;
pub mod signer;
pub mod text;
pub mod crypto;
pub mod binding;
pub mod nip17;
pub mod protocol;
pub mod token;
pub mod payment;
pub mod client;

pub use error::{Error, Result};
pub use event::{Event, Tag};
pub use filter::{Filter, FilterBuilder};
pub use keys::Keypair;
pub use nip17::{GiftWrapParams, PrivateMessage, Rumor};
pub use signer::{LocalSigner, Signer};
