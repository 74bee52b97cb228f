//! Interop checks against published test vectors (BIP-340, NIP-19) and against
//! independent computations with the underlying crates (serde_json, sha2, aes/cbc).

use aes::cipher::{BlockEncryptMut, KeyIvInit};
use base64::engine::general_purpose::STANDARD;
use base64::Engine;
use serde_json::Value;
use sha2::{Digest, Sha256};

use unicity_nostr::crypto::{bech32, nip04, nip44, schnorr};
use unicity_nostr::{Error, Event, Keypair, LocalSigner, Signer};

fn h32(s: &str) -> [u8; 32] {
    hex::decode(s).unwrap().try_into().unwrap()
}

fn h64(s: &str) -> [u8; 64] {
    hex::decode(s).unwrap().try_into().unwrap()
}

#[test]
fn keys_and_bech32() {
    // NIP-19 examples.
    let nsec = "nsec1vl029mgpspedva04g90vltkh6fvh240zqtv9k0t9af8935ke9laqsnlfe5";
    let sk_hex = "67dea2ed018072d675f5415ecfaed7d2597555e202d85b3d65ea4e58d2d92ffa";
    assert_eq!(bech32::encode_nsec(&h32(sk_hex)).unwrap(), nsec);
    assert_eq!(bech32::decode_nsec(nsec).unwrap(), h32(sk_hex));
    let npub = "npub10elfcs4fr0l0r8af98jlmgdh9c8tcxjvz9qkw038js35mp4dma8qzvjptg";
    let pk_hex = "7e7e9c42a91bfef19fa929e5fda1b72e0ebc1a4c1141673e2794234d86addf4e";
    assert_eq!(bech32::encode_npub(&h32(pk_hex)).unwrap(), npub);
    assert_eq!(bech32::decode_npub(npub).unwrap(), h32(pk_hex));

    let kp = Keypair::from_secret_hex(sk_hex).unwrap();
    assert_eq!(kp.secret_hex(), sk_hex);
    assert_eq!(kp.nsec().unwrap(), nsec);
    let back = Keypair::from_nsec(&kp.nsec().unwrap()).unwrap();
    assert_eq!(back.secret_bytes(), kp.secret_bytes());
    assert_eq!(back.public_key(), kp.public_key());
    assert!(matches!(Keypair::from_nsec(&kp.npub().unwrap()), Err(Error::Malformed("expected nsec"))));
    assert_eq!(bech32::decode_npub(&kp.npub().unwrap()).unwrap(), *kp.public_key());
    let (hrp, data) = bech32::decode(npub).unwrap();
    assert_eq!(hrp, "npub");
    assert_eq!(hex::encode(data), pk_hex);
}

#[test]
fn event_ids() {
    let pubkey = "7e7e9c42a91bfef19fa929e5fda1b72e0ebc1a4c1141673e2794234d86addf4e";
    let tags: Vec<Vec<String>> = vec![
        vec!["p".into(), "abc".into()],
        vec!["e".into(), "x\"y".into(), String::new(), "reply".into()],
    ];
    for content in ["", "gm", "héllo \"quoted\" \\ back\nline\ttab \u{1} / ünï ✓", "emoji 🎉"] {
        let id = Event::calculate_id(pubkey, 1700000000, 1, &tags, content);
        let arr = Value::Array(vec![
            Value::from(0),
            Value::from(pubkey),
            Value::from(1700000000i64),
            Value::from(1u32),
            Value::Array(
                tags.iter()
                    .map(|t| Value::Array(t.iter().map(|s| Value::from(s.as_str())).collect()))
                    .collect(),
            ),
            Value::from(content),
        ]);
        let expected = hex::encode(Sha256::digest(serde_json::to_string(&arr).unwrap().as_bytes()));
        assert_eq!(id, expected, "content={content:?}");
    }
    let negative = Event::calculate_id(pubkey, -5, 7, &[], "x");
    let arr = Value::Array(vec![
        Value::from(0),
        Value::from(pubkey),
        Value::from(-5i64),
        Value::from(7u32),
        Value::Array(vec![]),
        Value::from("x"),
    ]);
    assert_eq!(negative, hex::encode(Sha256::digest(serde_json::to_string(&arr).unwrap().as_bytes())));
}

#[test]
fn schnorr_vectors() {
    // BIP-340 test vector 0.
    let sk = h32("0000000000000000000000000000000000000000000000000000000000000003");
    let pk = schnorr::public_key(&sk).unwrap();
    assert_eq!(
        hex::encode(pk).to_uppercase(),
        "F9308A019258C31049344F85F89D5229B531C845836F99B08601F113BCE036F9",
        "pubkey derivation"
    );
    let msg = [0u8; 32];
    let sig = schnorr::sign(&msg, &sk).unwrap();
    assert_eq!(
        hex::encode(sig).to_uppercase(),
        "E907831F80848D1069A5371B402410364BDF1C5F8307B0084C55F1CE2DCA821525F66A4A85EA8B71E482A74F382D2CE5EBEEE8FDB2172F477DF4900D310536C0",
        "deterministic signature bytes"
    );
    assert!(schnorr::verify(&sig, &msg, &pk), "verify reference signature");
    // BIP-340 test vector 1 (explicit aux).
    let sk1 = h32("B7E151628AED2A6ABF7158809CF4F3C762E7160F38B4DA56A784D9045190CFEF");
    let mut aux = [0u8; 32];
    aux[31] = 1;
    let msg1 = h32("243F6A8885A308D313198A2E03707344A4093822299F31D0082EFA98EC4E6C89");
    let sig1 = schnorr::sign_with_aux(&msg1, &sk1, &aux).unwrap();
    let expected1 = h64("6896BD60EEAE296DB48A229FF71DFE071BDE413E6D43F917DC8DCF8C78DE33418906D11AC976ABCCB20B091292BFF4EA897EFCB639EA871CFA95F6DE339E4B0A");
    assert_eq!(sig1, expected1);
    let pk1 = schnorr::public_key(&sk1).unwrap();
    assert_eq!(
        hex::encode(pk1).to_uppercase(),
        "DFF1D77F2A671C5F36183726DB2341BE58FEAE1DA2DECED843240F7B502BA659"
    );
    let mut bad = sig1;
    bad[0] ^= 1;
    assert!(!schnorr::verify(&bad, &msg1, &pk1));
    assert!(schnorr::public_key(&[0u8; 32]).is_err());
}

#[test]
fn full_event_sign_verify() {
    let alice = LocalSigner::from_secret(h32("67dea2ed018072d675f5415ecfaed7d2597555e202d85b3d65ea4e58d2d92ffa")).unwrap();
    let ev = Event::create(
        &alice,
        1,
        vec![vec!["p".into(), "deadbeef".into()]],
        "gm from rust".into(),
        1700000042,
    )
    .unwrap();
    assert!(ev.verify(), "self-signed event must verify");
    assert_eq!(ev.pubkey, hex::encode(alice.public_key()));
    assert_eq!(ev.tag_value("p"), Some("deadbeef"));
    let mut tampered = ev.clone();
    tampered.content = "gm from rust!".into();
    assert!(!tampered.verify(), "tampered event must not verify");
    let mut resigned = ev.clone();
    resigned.id = Event::calculate_id(&ev.pubkey, ev.created_at, ev.kind, &ev.tags, "other");
    assert!(!resigned.verify());
}

#[test]
fn nip04_vectors() {
    let a = h32("67dea2ed018072d675f5415ecfaed7d2597555e202d85b3d65ea4e58d2d92ffa");
    let b = h32("0000000000000000000000000000000000000000000000000000000000000003");
    let a_pub = schnorr::public_key(&a).unwrap();
    let b_pub = schnorr::public_key(&b).unwrap();
    let s1 = nip04::derive_shared_secret(&a, &b_pub).unwrap();
    let s2 = nip04::derive_shared_secret(&b, &a_pub).unwrap();
    assert_eq!(s1, s2, "nip04 shared secret");
    let iv = [7u8; 16];
    let payload = nip04::encrypt_with_iv(&a, &b_pub, "hello nostr", &iv).unwrap();
    // Independent AES-256-CBC with the shared secret.
    let ct = cbc::Encryptor::<aes::Aes256>::new(&s1.into(), &iv.into())
        .encrypt_padded_vec_mut::<cbc::cipher::block_padding::Pkcs7>(b"hello nostr");
    assert_eq!(payload, format!("{}?iv={}", STANDARD.encode(ct), STANDARD.encode(iv)), "nip04 byte-exact encrypt");
    assert_eq!(nip04::decrypt(&b, &a_pub, &payload).unwrap(), "hello nostr", "nip04 decrypt");
    assert!(nip04::decrypt(&b, &a_pub, "no separator").is_err());
    assert!(nip04::decrypt(&b, &a_pub, "AAAA?iv=AAAA").is_err());
}

#[test]
fn nip04_roundtrip_gzip() {
    let a = h32("67dea2ed018072d675f5415ecfaed7d2597555e202d85b3d65ea4e58d2d92ffa");
    let b = h32("0000000000000000000000000000000000000000000000000000000000000003");
    let b_pub = schnorr::public_key(&b).unwrap();
    let a_pub = schnorr::public_key(&a).unwrap();
    let big = "z".repeat(5000);
    let payload = nip04::encrypt_auto_with_iv(&a, &b_pub, &big, &[7u8; 16]).unwrap();
    assert!(payload.starts_with("gz:"), "large message should compress");
    assert_eq!(nip04::decrypt(&b, &a_pub, &payload).unwrap(), big);
    let small = nip04::encrypt_auto_with_iv(&a, &b_pub, "short", &[9u8; 16]).unwrap();
    assert!(!small.starts_with("gz:"));
    assert_eq!(nip04::decrypt(&b, &a_pub, &small).unwrap(), "short");
}

#[test]
fn nip44_vectors() {
    let a = h32("67dea2ed018072d675f5415ecfaed7d2597555e202d85b3d65ea4e58d2d92ffa");
    let b = h32("0000000000000000000000000000000000000000000000000000000000000003");
    let a_pub = schnorr::public_key(&a).unwrap();
    let b_pub = schnorr::public_key(&b).unwrap();
    let k1 = nip44::derive_conversation_key(&a, &b_pub).unwrap();
    let k2 = nip44::derive_conversation_key(&b, &a_pub).unwrap();
    assert_eq!(k1, k2, "nip44 conversation key symmetry");
    for plaintext in ["x", "hello", &"z".repeat(300)] {
        let payload = nip44::encrypt_with_key_nonce(&k1, &[5u8; 24], plaintext.as_bytes()).unwrap();
        let raw = STANDARD.decode(&payload).unwrap();
        assert_eq!(raw[0], 2);
        assert_eq!(&raw[1..25], &[5u8; 24]);
        let padded = nip44::calc_padded_len(plaintext.len()).unwrap();
        assert_eq!(raw.len(), 1 + 24 + 2 + padded + 16);
        assert_eq!(nip44::decrypt(&b, &a_pub, &payload).unwrap(), plaintext.as_bytes(), "nip44 decrypt: {plaintext:?}");
    }
    assert!(nip44::encrypt_with_key_nonce(&k1, &[5u8; 24], b"").is_err());
}

#[test]
fn secret_key_range() {
    assert!(matches!(Keypair::from_secret([0u8; 32]), Err(Error::Secp("invalid secret key"))));
    assert!(matches!(Keypair::from_secret([0xffu8; 32]), Err(Error::Secp("invalid secret key"))));
    let order = h32("fffffffffffffffffffffffffffffffebaaedce6af48a03bbfd25e8cd0364141");
    assert!(matches!(Keypair::from_secret(order), Err(Error::Secp("invalid secret key"))));
    let mut below = order;
    below[31] = 0x40;
    assert!(Keypair::from_secret(below).is_ok());
    let mut one = [0u8; 32];
    one[31] = 1;
    assert!(Keypair::from_secret(one).is_ok());
}
