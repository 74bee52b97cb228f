# unicity_nostr

The Unicity Nostr protocol as a verified library: NIP-01 events and filters,
BIP-340 signatures, NIP-19 bech32 keys, NIP-04 and NIP-44 encryption,
NIP-17 gift-wrapped messages, UNIP-01 nametag bindings and owner resolution,
token transfers and payment requests, and the decisions of a relay client.

Layout:

- `src/` is the library, written and proved with Verus. Every public
  function states what it returns in its `ensures`; the laws that relate
  several functions (round trips, key agreement, owner resolution, merging)
  are public proof functions beside them. Cryptographic primitives, JSON
  string quoting and reading, compression and Unicode case mapping are
  called from their crates (`k256`, `sha2`, `hkdf`, `chacha20poly1305`,
  `aes`/`cbc`, `aes-gcm`, `base64`, `flate2`, `serde_json`) through small
  trusted wrappers whose doc comments say what is assumed of them.
- `app/` holds what runs around the library: the relay connection traits,
  the single- and multi-relay clients that move frames while the library's
  publish and query steps decide, a blocking `tungstenite` transport, and
  serde / `thiserror` forms of the library's types.
- `tests/` exercises the library on concrete inputs, including published
  BIP-340 and NIP-19 vectors.
