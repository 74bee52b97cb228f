//! Behaviour of the protocol modules on concrete inputs: bindings and owner
//! resolution, gift wraps, token transfers, payment requests, nametags,
//! filters and kinds.

use sha2::{Digest, Sha256};

use unicity_nostr::binding::{
    create_address_to_binding_filter, create_binding_event, create_nametag_to_pubkey_filter, create_pubkey_to_nametag_filter,
    is_valid_binding_event, parse_binding_info, resolve_nametag_owner, resolve_nametag_pubkey, resolve_owner, resolve_pubkey,
    IdentityBindingParams,
};
use unicity_nostr::crypto::{nip44, schnorr};
use unicity_nostr::nametag::{
    decrypt_nametag, encrypt_nametag_with_iv, has_ownership_marker, hash_address_for_tag, hash_nametag, is_valid_nametag,
    normalize_nametag,
};
use unicity_nostr::nip17::{create_gift_wrap, unwrap};
use unicity_nostr::payment::{
    create_payment_request_event, create_payment_request_response_event, format_amount, is_payment_request,
    is_payment_request_response, parse_amount, parse_payment_request, parse_payment_request_response, PaymentRequestParams,
    PaymentResponseParams, ResponseStatus,
};
use unicity_nostr::token::{
    amount, create_token_transfer_event, is_token_transfer, parse_token_transfer, recipient, reply_to_event_id, symbol,
    TokenTransferOptions,
};
use unicity_nostr::{kinds, Error, Event, Filter, GiftWrapParams, LocalSigner, Signer};

fn signer(b: u8) -> LocalSigner {
    LocalSigner::from_secret([b; 32]).unwrap()
}

fn sha_hex(s: &str) -> String {
    hex::encode(Sha256::digest(s.as_bytes()))
}

fn binding(s: &LocalSigner, nametag: &str, created_at: i64) -> Event {
    create_binding_event(s, nametag, "DIRECT://addr", 1700000000000, created_at, None, None).unwrap()
}

/// A legacy binding: kind 30078 with the `d` tag and content, no marker.
fn legacy_binding(s: &LocalSigner, nametag: &str, created_at: i64) -> Event {
    let h = hash_nametag(nametag);
    let content = format!(r#"{{"nametag_hash":"{h}","address":"DIRECT://legacy","verified":1}}"#);
    Event::create(s, kinds::APP_DATA, vec![vec!["d".into(), h.clone()], vec!["t".into(), h]], content, created_at).unwrap()
}

#[test]
fn nametag_normalize_hash_validate() {
    assert_eq!(normalize_nametag("  Alice@Unicity "), "alice");
    assert_eq!(normalize_nametag("bob"), "bob");
    assert_eq!(normalize_nametag("@unicity"), "");
    assert_eq!(hash_nametag("Alice"), sha_hex("unicity:nametag:alice"));
    assert_eq!(hash_nametag("alice@unicity"), hash_nametag(" ALICE "));
    assert_eq!(hash_address_for_tag("DIRECT://x"), sha_hex("unicity:address:DIRECT://x"));
    assert!(is_valid_nametag("alice"));
    assert!(is_valid_nametag("@alice_01"));
    assert!(is_valid_nametag("Alice-B@unicity"));
    assert!(!is_valid_nametag("al"));
    assert!(!is_valid_nametag("a".repeat(21).as_str()));
    assert!(!is_valid_nametag("ali ce"));
    assert!(!is_valid_nametag("alice!"));
}

#[test]
fn nametag_hash_is_64_lower_hex() {
    let h = hash_nametag("Alice");
    assert_eq!(h.len(), 64);
    assert!(h.chars().all(|c| c.is_ascii_digit() || ('a'..='f').contains(&c)));
    assert_eq!(h, hash_nametag(" alice@unicity "));
    assert_eq!(h, sha_hex("unicity:nametag:alice"));
}

#[test]
fn nametag_encryption_roundtrip() {
    let key = [3u8; 32];
    let enc = encrypt_nametag_with_iv("alice", &key, &[1u8; 12]).unwrap();
    assert_eq!(decrypt_nametag(&enc, &key).unwrap(), "alice");
    assert!(decrypt_nametag(&enc, &[4u8; 32]).is_err());
    assert!(matches!(decrypt_nametag("AAAA", &key), Err(Error::Malformed(_))));
    assert!(matches!(decrypt_nametag("!!", &key), Err(Error::Decode(_))));
}

#[test]
fn binding_event_shape_and_info() {
    let alice = signer(1);
    let id = IdentityBindingParams {
        public_key: Some("02abcd".into()),
        l1_address: Some("alpha1xyz".into()),
        direct_address: None,
        proxy_address: Some("PROXY://p".into()),
    };
    let ev = create_binding_event(&alice, "Alice", "DIRECT://addr", 42, 100, Some(&id), Some("ENC")).unwrap();
    assert_eq!(ev.kind, kinds::APP_DATA);
    assert!(ev.verify());
    assert!(has_ownership_marker(&ev));
    assert!(is_valid_binding_event(&ev));
    let h = hash_nametag("alice");
    assert_eq!(ev.tag_value("d"), Some(h.as_str()));
    assert_eq!(ev.tag_value("address"), Some("DIRECT://addr"));
    assert_eq!(ev.tag_value("pubkey"), Some("02abcd"));
    assert_eq!(ev.tag_value("l1"), Some("alpha1xyz"));
    let v: serde_json::Value = serde_json::from_str(&ev.content).unwrap();
    assert_eq!(v["nametag_hash"], h.as_str());
    assert_eq!(v["verified"], 42);
    assert_eq!(v["encrypted_nametag"], "ENC");
    assert_eq!(v["nametag"], "Alice");
    assert!(v.get("direct_address").is_none());
    let info = parse_binding_info(&ev);
    assert_eq!(info.transport_pubkey, ev.pubkey);
    assert_eq!(info.nametag.as_deref(), Some("Alice"));
    assert_eq!(info.public_key.as_deref(), Some("02abcd"));
    assert_eq!(info.proxy_address.as_deref(), Some("PROXY://p"));
    assert_eq!(info.direct_address, None);
    assert_eq!(info.timestamp, 100_000);
    // Without identity no plaintext nametag is published.
    let plain = binding(&alice, "alice", 5);
    assert!(parse_binding_info(&plain).nametag.is_none());
    assert!(matches!(
        create_binding_event(&alice, "x", "DIRECT://addr", 0, 0, None, None),
        Err(Error::Malformed("invalid nametag"))
    ));
    let mut huge = plain.clone();
    huge.created_at = i64::MAX / 2;
    assert_eq!(parse_binding_info(&huge).timestamp, i64::MAX);
}

#[test]
fn binding_filters_find_bindings() {
    let alice = signer(1);
    let ev = binding(&alice, "alice", 10);
    let f = create_nametag_to_pubkey_filter("ALICE");
    assert!(f.matches(&ev));
    assert_eq!(f.to_json(), format!(r##"{{"kinds":[30078],"#t":["{}"]}}"##, hash_nametag("alice")));
    assert!(create_address_to_binding_filter("DIRECT://addr").matches(&ev));
    assert!(!create_address_to_binding_filter("DIRECT://other").matches(&ev));
    let pf = create_pubkey_to_nametag_filter(&ev.pubkey);
    assert!(pf.matches(&ev));
    assert_eq!(pf.limit, Some(10));
}

#[test]
fn resolve_single_marked_owner() {
    let alice = signer(1);
    let bob = signer(2);
    let a = binding(&alice, "alice", 200);
    let b_legacy = legacy_binding(&bob, "alice", 100);
    // The marked binding wins even though bob's legacy binding is older.
    let events = vec![b_legacy.clone(), a.clone()];
    assert_eq!(resolve_owner(&events).map(|e| e.id.clone()), Some(a.id.clone()));
    assert_eq!(resolve_nametag_pubkey(&events, "alice"), Some(a.pubkey.clone()));
    assert_eq!(resolve_pubkey(&events), Some(a.pubkey.clone()));
}

#[test]
fn resolve_two_marked_authors_is_ambiguous() {
    let alice = signer(1);
    let bob = signer(2);
    let events = vec![binding(&alice, "alice", 100), binding(&bob, "alice", 200)];
    assert!(resolve_owner(&events).is_none());
    assert!(resolve_nametag_owner(&events, "alice").is_none());
}

#[test]
fn resolve_legacy_first_seen_wins() {
    let alice = signer(1);
    let bob = signer(2);
    let a_old = legacy_binding(&alice, "carol", 50);
    let a_new = legacy_binding(&alice, "carol", 300);
    let b = legacy_binding(&bob, "carol", 100);
    let events = vec![b.clone(), a_new.clone(), a_old.clone()];
    // Alice was seen first (50); her current binding is the latest one.
    let owner = resolve_nametag_owner(&events, "carol").unwrap();
    assert_eq!(owner.id, a_new.id);
    // Equal first-seen: the smaller pubkey wins.
    let a_tie = legacy_binding(&alice, "dave", 70);
    let b_tie = legacy_binding(&bob, "dave", 70);
    let smaller = if a_tie.pubkey < b_tie.pubkey { a_tie.id.clone() } else { b_tie.id.clone() };
    assert_eq!(resolve_owner(&[a_tie.clone(), b_tie.clone()]).unwrap().id, smaller);
    assert_eq!(resolve_owner(&[b_tie, a_tie]).unwrap().id, smaller);
    assert!(resolve_owner(&[]).is_none());
}

#[test]
fn resolve_ignores_forged_and_foreign_events() {
    let alice = signer(1);
    let mallory = signer(9);
    let good = binding(&alice, "alice", 100);
    let mut forged = binding(&mallory, "alice", 50);
    forged.content = forged.content.replace("DIRECT", "EVIL");
    assert!(!forged.verify());
    let other = binding(&mallory, "bob", 10);
    let note = Event::create(&mallory, 1, vec![vec!["L".into(), "unicity:nametag".into()]], "x".into(), 1).unwrap();
    let events = vec![forged, other, note, good.clone()];
    assert_eq!(resolve_nametag_owner(&events, "alice").unwrap().id, good.id);
    // Without local enforcement the foreign marked note would make it ambiguous.
    assert!(resolve_owner(&events).is_none());
}

#[test]
fn gift_wrap_roundtrip() {
    let alice = signer(1);
    let bob = signer(2);
    let carol = signer(3);
    let bob_pk = bob.public_key();
    let params = GiftWrapParams {
        content: "hello bob ✓",
        reply_to: Some("abcdef"),
        rumor_created_at: 1000,
        seal_created_at: 900,
        wrap_created_at: 800,
        ephemeral_secret: [7u8; 32],
        seal_nonce: [1u8; 24],
        wrap_nonce: [2u8; 24],
    };
    let wrap = create_gift_wrap(&alice, &bob_pk, &params).unwrap();
    assert_eq!(wrap.kind, kinds::GIFT_WRAP);
    assert!(wrap.verify());
    assert_eq!(wrap.created_at, 800);
    assert_eq!(wrap.pubkey, hex::encode(schnorr::public_key(&[7u8; 32]).unwrap()));
    assert_eq!(wrap.tag_value("p"), Some(hex::encode(bob_pk).as_str()));
    // The wrap signature is BIP-340 with all-zero aux under the ephemeral key.
    let wrap_id: [u8; 32] = hex::decode(&wrap.id).unwrap().try_into().unwrap();
    assert_eq!(wrap.sig, hex::encode(schnorr::sign(&wrap_id, &[7u8; 32]).unwrap()));
    let msg = unwrap(&bob, &wrap).unwrap();
    assert_eq!(msg.content, "hello bob ✓");
    assert_eq!(msg.sender_pubkey, hex::encode(alice.public_key()));
    assert_eq!(msg.recipient_pubkey, hex::encode(bob_pk));
    assert_eq!(msg.timestamp, 1000);
    assert_eq!(msg.kind, kinds::CHAT_MESSAGE);
    assert_eq!(msg.reply_to_event_id.as_deref(), Some("abcdef"));
    assert_eq!(msg.event_id, wrap.id);
    assert!(unwrap(&carol, &wrap).is_err(), "non-recipient cannot unwrap");
    let plain = GiftWrapParams { reply_to: None, ..params };
    let msg2 = unwrap(&bob, &create_gift_wrap(&alice, &bob_pk, &plain).unwrap()).unwrap();
    assert_eq!(msg2.reply_to_event_id, None);
    let note = Event::create(&alice, 1, vec![], "x".into(), 1).unwrap();
    assert!(matches!(unwrap(&bob, &note), Err(Error::Malformed("event is not a gift wrap"))));
    let bad = GiftWrapParams { ephemeral_secret: [0u8; 32], ..plain };
    assert!(create_gift_wrap(&alice, &bob_pk, &bad).is_err());
}

#[test]
fn token_transfer_roundtrip() {
    let alice = signer(1);
    let bob = signer(2);
    let opts = TokenTransferOptions { amount: Some("1000"), symbol: Some("UCT"), reply_to_event_id: Some("req1") };
    let ev = create_token_transfer_event(&alice, &bob.public_key(), r#"{"token":1}"#, &opts, &[4u8; 16], 55).unwrap();
    assert!(is_token_transfer(&ev));
    assert!(ev.verify());
    assert_eq!(amount(&ev), Some("1000"));
    assert_eq!(symbol(&ev), Some("UCT"));
    assert_eq!(reply_to_event_id(&ev), Some("req1"));
    assert_eq!(recipient(&ev), Some(hex::encode(bob.public_key()).as_str()));
    assert_eq!(parse_token_transfer(&bob, &ev).unwrap(), r#"{"token":1}"#);
    assert_eq!(parse_token_transfer(&alice, &ev).unwrap(), r#"{"token":1}"#, "sender reads its own transfer");
    assert!(parse_token_transfer(&signer(3), &ev).is_err());
    let bare = TokenTransferOptions { amount: None, symbol: None, reply_to_event_id: Some("") };
    let ev2 = create_token_transfer_event(&alice, &bob.public_key(), "t", &bare, &[4u8; 16], 56).unwrap();
    assert_eq!(ev2.tags.len(), 2);
    let note = Event::create(&alice, 1, vec![], "x".into(), 1).unwrap();
    assert!(matches!(parse_token_transfer(&bob, &note), Err(Error::Malformed("not a token transfer"))));
}

#[test]
fn payment_request_roundtrip() {
    let alice = signer(1);
    let bob = signer(2);
    let params = PaymentRequestParams {
        amount: "2500000",
        coin_id: "c0ffee",
        message: Some("pizza"),
        recipient_nametag: "alice",
        request_id: "req-1",
        deadline: Some(1700000999000),
    };
    let ev = create_payment_request_event(&alice, &bob.public_key(), &params, &[6u8; 16], 77).unwrap();
    assert!(is_payment_request(&ev));
    assert!(!is_payment_request_response(&ev));
    assert_eq!(ev.tag_value("amount"), Some("2500000"));
    assert_eq!(ev.tag_value("recipient"), Some("alice"));
    let parsed = parse_payment_request(&bob, &ev).unwrap();
    assert_eq!(parsed.amount, "2500000");
    assert_eq!(parsed.coin_id, "c0ffee");
    assert_eq!(parsed.message.as_deref(), Some("pizza"));
    assert_eq!(parsed.recipient_nametag, "alice");
    assert_eq!(parsed.request_id, "req-1");
    assert_eq!(parsed.deadline, Some(1700000999000));
    assert_eq!(parsed.sender_pubkey, ev.pubkey);
    assert_eq!(parsed.timestamp, 77_000);
    assert_eq!(parsed.event_id, ev.id);
    let no_deadline = PaymentRequestParams { deadline: None, message: None, recipient_nametag: "", ..params };
    let ev2 = create_payment_request_event(&alice, &bob.public_key(), &no_deadline, &[6u8; 16], 78).unwrap();
    assert_eq!(ev2.tag_value("recipient"), None);
    let parsed2 = parse_payment_request(&bob, &ev2).unwrap();
    assert_eq!(parsed2.deadline, None);
    assert_eq!(parsed2.message, None);
    assert_eq!(parsed2.recipient_nametag, "");
    assert!(matches!(parse_payment_request(&bob, &ev2.clone()), Ok(_)));
    let note = Event::create(&alice, 1, vec![], "x".into(), 1).unwrap();
    assert!(matches!(parse_payment_request(&bob, &note), Err(Error::Malformed("not a payment request"))));
}

#[test]
fn payment_response_roundtrip() {
    let alice = signer(1);
    let bob = signer(2);
    let params = PaymentResponseParams {
        request_id: "req-1",
        original_event_id: "orig",
        status: ResponseStatus::Declined,
        reason: Some("too expensive"),
    };
    let ev = create_payment_request_response_event(&bob, &alice.public_key(), &params, &[8u8; 16], 90).unwrap();
    assert!(is_payment_request_response(&ev));
    assert_eq!(ev.tag_value("status"), Some("DECLINED"));
    assert_eq!(ev.tag_value("e"), Some("orig"));
    let parsed = parse_payment_request_response(&alice, &ev).unwrap();
    assert_eq!(parsed.request_id, "req-1");
    assert_eq!(parsed.original_event_id, "orig");
    assert_eq!(parsed.status, ResponseStatus::Declined);
    assert_eq!(parsed.reason.as_deref(), Some("too expensive"));
    assert_eq!(parsed.timestamp, 90_000);
    assert_eq!(ResponseStatus::Expired.as_str(), "EXPIRED");
    assert_eq!(ResponseStatus::from_wire("EXPIRED"), Some(ResponseStatus::Expired));
    assert_eq!(ResponseStatus::from_wire("declined"), None);
    let note = Event::create(&alice, 1, vec![], "x".into(), 1).unwrap();
    assert!(matches!(
        parse_payment_request_response(&bob, &note),
        Err(Error::Malformed("not a payment request response"))
    ));
}

#[test]
fn amount_format_and_parse() {
    assert_eq!(format_amount(1_234_500, 6), "1.2345");
    assert_eq!(format_amount(1_000_000, 6), "1");
    assert_eq!(format_amount(5, 6), "0.000005");
    assert_eq!(format_amount(0, 0), "0");
    assert_eq!(format_amount(u128::MAX, 38), "3.40282366920938463463374607431768211455");
    assert_eq!(parse_amount("1.2345", 6).unwrap(), 1_234_500);
    assert_eq!(parse_amount("1", 6).unwrap(), 1_000_000);
    assert_eq!(parse_amount(".5", 2).unwrap(), 50);
    assert_eq!(parse_amount("2.999", 2).unwrap(), 299);
    assert_eq!(parse_amount("+3", 0).unwrap(), 3);
    assert!(matches!(parse_amount("x.1", 2), Err(Error::Malformed("bad amount"))));
    assert!(matches!(parse_amount("1.x", 2), Err(Error::Malformed("bad amount fraction"))));
    for (a, d) in [(0u128, 0u32), (7, 3), (123456789, 4), (10, 1), (u128::MAX, 38), (99, 38)] {
        assert_eq!(parse_amount(&format_amount(a, d), d).unwrap(), a);
    }
}

#[test]
fn filter_json_and_matching() {
    let alice = signer(1);
    let ev = Event::create(&alice, 1, vec![vec!["t".into(), "nostr".into()]], "hi".into(), 500).unwrap();
    let f = Filter::builder()
        .authors(vec![ev.pubkey.clone()])
        .kinds(vec![1])
        .t_tags(vec!["nostr".into()])
        .since(100)
        .until(1000)
        .limit(5)
        .build();
    assert!(f.matches(&ev));
    assert_eq!(
        f.to_json(),
        format!(r##"{{"authors":["{}"],"kinds":[1],"#t":["nostr"],"since":100,"until":1000,"limit":5}}"##, ev.pubkey)
    );
    assert!(!Filter::builder().kind(2).build().matches(&ev));
    assert!(!Filter::builder().since(501).build().matches(&ev));
    assert!(!Filter::builder().t_tags(vec!["other".into()]).build().matches(&ev));
    assert!(Filter::builder().build().matches(&ev));
    assert!(Filter::builder().ids(vec![]).build().matches(&ev), "empty list imposes no constraint");
    assert_eq!(Filter::builder().build().to_json(), "{}");
    assert_eq!(Filter::builder().ids(vec![]).build().to_json(), "{}");
}

#[test]
fn kinds_predicates() {
    assert!(kinds::is_replaceable(0));
    assert!(kinds::is_replaceable(3));
    assert!(kinds::is_replaceable(10002));
    assert!(!kinds::is_replaceable(1));
    assert!(kinds::is_ephemeral(22242));
    assert!(!kinds::is_ephemeral(1059));
    assert!(kinds::is_parameterized_replaceable(30078));
    assert!(!kinds::is_parameterized_replaceable(40000));
}

#[test]
fn conversation_keys_agree() {
    let alice = signer(1);
    let bob = signer(2);
    assert_eq!(
        alice.nip44_conversation_key(&bob.public_key()).unwrap(),
        bob.nip44_conversation_key(&alice.public_key()).unwrap()
    );
    assert_eq!(
        alice.nip04_shared_secret(&bob.public_key()).unwrap(),
        bob.nip04_shared_secret(&alice.public_key()).unwrap()
    );
    assert_eq!(
        alice.nip44_conversation_key(&bob.public_key()).unwrap(),
        nip44::derive_conversation_key(alice.keypair().secret_bytes(), &bob.public_key()).unwrap()
    );
    assert!(LocalSigner::from_secret([0u8; 32]).is_err());
}

#[test]
fn error_messages() {
    assert_eq!(Error::InvalidLength("id != 32").message(), "invalid length: id != 32");
    assert_eq!(Error::Decode("x".into()).message(), "decode error: x");
    assert_eq!(Error::Utf8.message(), "invalid utf-8 in plaintext");
    assert_eq!(Error::Malformed("bad").message(), "malformed payload: bad");
}

#[test]
fn resolve_owner_unchanged_by_dropping_unverified() {
    let alice = signer(1);
    let bob = signer(2);
    let mallory = signer(9);
    let a = legacy_binding(&alice, "erin", 300);
    let b = legacy_binding(&bob, "erin", 200);
    let mut forged = binding(&mallory, "erin", 10);
    forged.content.push('x');
    assert!(!forged.verify());
    let events = vec![forged.clone(), a.clone(), forged.clone(), b.clone()];
    let kept: Vec<Event> = events.iter().filter(|e| e.verify()).cloned().collect();
    assert_eq!(kept, vec![a.clone(), b.clone()]);
    assert_eq!(resolve_owner(&events).cloned(), resolve_owner(&kept).cloned());
    assert_eq!(resolve_owner(&events).unwrap().id, b.id);
    assert!(resolve_owner(&[forged.clone(), forged]).is_none());
}

#[test]
fn nametag_owner_unchanged_by_injected_events() {
    let alice = signer(1);
    let bob = signer(2);
    let mallory = signer(9);
    let a = legacy_binding(&alice, "frank", 100);
    let b = legacy_binding(&bob, "frank", 150);
    let base = vec![b.clone(), a.clone()];
    let foreign = binding(&mallory, "zed", 1);
    let note = Event::create(&mallory, 1, vec![vec!["L".into(), "unicity:nametag".into()]], "x".into(), 1).unwrap();
    let mut forged = binding(&mallory, "frank", 5);
    forged.content = forged.content.replace("DIRECT", "EVIL");
    let injected = vec![foreign.clone(), b.clone(), note, a.clone(), forged, foreign];
    let owner = resolve_nametag_owner(&base, "frank").cloned();
    assert_eq!(owner.as_ref().map(|e| e.id.clone()), Some(a.id.clone()));
    assert_eq!(resolve_nametag_owner(&injected, "frank").cloned(), owner);
}

#[test]
fn normalize_trims_exactly_unicode_white_space() {
    assert_eq!(normalize_nametag("\u{3000} Alice\u{2009}\n"), "alice");
    for u in 0u32..=0x3100 {
        if let Some(c) = char::from_u32(u) {
            let s = format!("{c}bob{c}");
            let expected = if c.is_whitespace() { "bob".to_string() } else { s.to_lowercase() };
            assert_eq!(normalize_nametag(&s), expected, "U+{u:04X}");
        }
    }
}
