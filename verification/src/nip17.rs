//! NIP-17 gift-wrapped private direct messages.
//!
//! Three layers:
//! 1. **Rumor** (kind 14 chat / 15 receipt): unsigned, real timestamp, the content.
//! 2. **Seal** (kind 13): signed by the sender, NIP-44-encrypts the rumor JSON to the recipient.
//! 3. **Gift wrap** (kind 1059): signed by a fresh ephemeral key, NIP-44-encrypts the seal JSON.
//!
//! Everything routes through the [`Signer`] seam; the only local secret is the
//! throwaway ephemeral key of the outer wrap. Gift wraps use a random
//! ephemeral key, random nonces and randomized timestamps, so
//! [`create_gift_wrap`] takes that entropy explicitly ([`GiftWrapParams`]).
use vstd::prelude::*;
use vstd::utf8::*;

use crate::crypto::encoding::base64_standard_decoded;
use crate::crypto::nip44::{self, conversation_key_spec, decrypt_bytes_spec, encrypt_spec};
use crate::crypto::schnorr::{self, bip340_valid, sign_spec};
use crate::crypto::secp::secp256k1_xonly;
use crate::error::{error_matches, some_decode_error, Error, Result};
use crate::event::{
    event_fields, event_from_json, event_id_spec, json_event_fields, event_members, event_pairs, lemma_event_pairs, event_to_json, id_digest, is_valid_event,
    push_event_members, signer_pubkey_hex, tag_value_in, tag_value_spec, Event, Tag,
};
use crate::hex::{self as hexenc, hex_decode_spec, hex_error_text, hex_lower, lemma_hex_roundtrip};
use crate::json::{
    i64_member, json_i64_member, json_object, json_quoted, json_string_member, json_tags_member, json_u64_member,
    member_key, object_of, string_member, strs_view, tags_member, tags_view, u64_member, array_i64, array_item,
    array_string, array_tags, array_u64, is_array, json_array_i64, json_array_item, json_array_string,
    json_array_tags, json_array_u64, json_is_array, has_member, written_object, decimal_int, json_tags,
};
use crate::keys::Keypair;
use crate::kinds;
use crate::signer::{LocalSigner, Signer};
use crate::text::{string_from_utf8, to_array32, to_array64};
use crate::binding::opt_view;

verus! {

/// An unsigned inner event (NIP-17 rumor).
#[derive(Clone, Debug, PartialEq, Eq)]
pub struct Rumor {
    /// Rumor id (SHA-256 of the canonical serialization).
    pub id: String,
    /// Real sender x-only public key (hex).
    pub pubkey: String,
    /// Real timestamp (seconds).
    pub created_at: i64,
    /// Kind (14 chat, 15 receipt).
    pub kind: u32,
    /// Tags.
    pub tags: Vec<Tag>,
    /// Content.
    pub content: String,
}

/// A decrypted private message.
#[derive(Clone, Debug, PartialEq, Eq)]
pub struct PrivateMessage {
    /// Gift-wrap event id (for dedup).
    pub event_id: String,
    /// Real sender x-only public key (hex), taken from the seal.
    pub sender_pubkey: String,
    /// Recipient x-only public key (hex).
    pub recipient_pubkey: String,
    /// Message content.
    pub content: String,
    /// Rumor timestamp.
    pub timestamp: i64,
    /// Rumor kind.
    pub kind: u32,
    /// Reply-to event id, if the rumor carried an `e` tag.
    pub reply_to_event_id: Option<String>,
}

/// Caller-supplied entropy and timestamps for a gift wrap. In production they
/// come from a secure RNG and the system clock; in tests they are fixed.
pub struct GiftWrapParams<'a> {
    /// Message content.
    pub content: &'a str,
    /// Optional reply-to event id (adds an `e` tag to the rumor).
    pub reply_to: Option<&'a str>,
    /// Real timestamp for the rumor.
    pub rumor_created_at: i64,
    /// Randomized timestamp for the seal.
    pub seal_created_at: i64,
    /// Randomized timestamp for the gift wrap.
    pub wrap_created_at: i64,
    /// Ephemeral secret key for the outer wrap (throwaway).
    pub ephemeral_secret: [u8; 32],
    /// NIP-44 nonce for the seal encryption.
    pub seal_nonce: [u8; 24],
    /// NIP-44 nonce for the gift-wrap encryption.
    pub wrap_nonce: [u8; 24],
}

/// The fields of a rumor, as plain values.
pub open spec fn rumor_fields(r: Rumor) -> (Seq<char>, Seq<char>, i64, u32, Seq<Seq<Seq<char>>>, Seq<char>) {
    (r.id@, r.pubkey@, r.created_at, r.kind, tags_view(r.tags@), r.content@)
}

/// The compact JSON object of a rumor: `id`, `pubkey`, `created_at`, `kind`,
/// `tags`, `content`, in that order.
pub open spec fn rumor_json(r: Rumor) -> Seq<char> {
    json_object(event_members(r.id@, r.pubkey@, r.created_at, r.kind, tags_view(r.tags@), r.content@))
}

/// The rumor fields read from a JSON object: every field present with its
/// type (`kind` within `u32`), or nothing.
pub open spec fn json_rumor_fields(text: Seq<char>) -> Option<(Seq<char>, Seq<char>, i64, u32, Seq<Seq<Seq<char>>>, Seq<char>)> {
    if json_is_array(text) {
        json_rumor_array_fields(text)
    } else {
        json_rumor_object_fields(text)
    }
}

/// The rumor fields read from a JSON array of exactly six elements, in field order.
pub open spec fn json_rumor_array_fields(text: Seq<char>) -> Option<(Seq<char>, Seq<char>, i64, u32, Seq<Seq<Seq<char>>>, Seq<char>)> {
    if json_array_item(text, 6) is Some {
        None
    } else {
        match (
            json_array_string(text, 0),
            json_array_string(text, 1),
            json_array_i64(text, 2),
            json_array_u64(text, 3),
            json_array_tags(text, 4),
            json_array_string(text, 5),
        ) {
            (Some(id), Some(pk), Some(ca), Some(k), Some(t), Some(c)) => if k <= u32::MAX {
                Some((id, pk, ca, k as u32, t, c))
            } else {
                None
            },
            _ => None,
        }
    }
}

/// The rumor fields read from the members of a JSON object.
pub open spec fn json_rumor_object_fields(text: Seq<char>) -> Option<(Seq<char>, Seq<char>, i64, u32, Seq<Seq<Seq<char>>>, Seq<char>)> {
    match (
        json_string_member(text, "id"@),
        json_string_member(text, "pubkey"@),
        json_i64_member(text, "created_at"@),
        json_u64_member(text, "kind"@),
        json_tags_member(text, "tags"@),
        json_string_member(text, "content"@),
    ) {
        (Some(id), Some(pk), Some(ca), Some(k), Some(t), Some(c)) => if k <= u32::MAX {
            Some((id, pk, ca, k as u32, t, c))
        } else {
            None
        },
        _ => None,
    }
}

/// Serialize a rumor to its compact JSON object.
pub fn rumor_to_json(r: &Rumor) -> (s: String)
    ensures
        s@ == rumor_json(*r),
{
    let mut members: Vec<String> = Vec::new();
    assert(strs_view(members@) =~= Seq::<Seq<char>>::empty());
    push_event_members(&mut members, r.id.as_str(), r.pubkey.as_str(), r.created_at, r.kind, r.tags.as_slice(), r.content.as_str());
    object_of(members.as_slice())
}

/// Read a rumor from JSON: an object with every field present with its type,
/// or an array of the six fields in order; `None` otherwise.
pub fn rumor_from_json(text: &str) -> (r: Option<Rumor>)
    ensures
        match r {
            Some(x) => json_rumor_fields(text@) == Some(rumor_fields(x)),
            None => json_rumor_fields(text@) is None,
        },
        forall|x: Rumor| #[trigger] rumor_json(x) == text@ ==> r is Some && rumor_fields(r->0) == rumor_fields(x),
{
    let arr = is_array(text);
    proof {
        assert forall|x: Rumor| #[trigger] rumor_json(x) == text@ implies !arr by {
            let ms = event_pairs(x.id@, x.pubkey@, x.created_at, x.kind, tags_view(x.tags@), x.content@);
            lemma_event_pairs(x.id@, x.pubkey@, x.created_at, x.kind, tags_view(x.tags@), x.content@, Seq::empty());
            assert(written_object(ms) == rumor_json(x));
        }
    }
    if arr {
        if array_item(text, 6).is_some() {
            return None;
        }
        let id = array_string(text, 0);
        let pubkey = array_string(text, 1);
        let created_at = array_i64(text, 2);
        let kind = array_u64(text, 3);
        let tags = array_tags(text, 4);
        let content = array_string(text, 5);
        return match (id, pubkey, created_at, kind, tags, content) {
            (Some(id), Some(pubkey), Some(created_at), Some(kind), Some(tags), Some(content)) => {
                if kind > 0xFFFF_FFFFu64 {
                    None
                } else {
                    Some(Rumor { id, pubkey, created_at, kind: kind as u32, tags, content })
                }
            },
            _ => None,
        };
    }
    let id = string_member(text, "id");
    let pubkey = string_member(text, "pubkey");
    let created_at = i64_member(text, "created_at");
    let kind = u64_member(text, "kind");
    let tags = tags_member(text, "tags");
    let content = string_member(text, "content");
    proof {
        assert forall|x: Rumor| #[trigger] rumor_json(x) == text@ implies {
            &&& id is Some && id->0@ == x.id@
            &&& pubkey is Some && pubkey->0@ == x.pubkey@
            &&& created_at == Some(x.created_at)
            &&& kind == Some(x.kind as u64)
            &&& tags is Some && tags_view(tags->0@) == tags_view(x.tags@)
            &&& content is Some && content->0@ == x.content@
        } by {
            let ms = event_pairs(x.id@, x.pubkey@, x.created_at, x.kind, tags_view(x.tags@), x.content@);
            lemma_event_pairs(x.id@, x.pubkey@, x.created_at, x.kind, tags_view(x.tags@), x.content@, Seq::empty());
            assert(written_object(ms) == rumor_json(x));
            assert(ms[0] == ("id"@, json_quoted(x.id@)));
            assert(has_member(ms, "id"@, json_quoted(x.id@)));
            assert(ms[1] == ("pubkey"@, json_quoted(x.pubkey@)));
            assert(has_member(ms, "pubkey"@, json_quoted(x.pubkey@)));
            assert(ms[2] == ("created_at"@, decimal_int(x.created_at as int)));
            assert(has_member(ms, "created_at"@, decimal_int(x.created_at as int)));
            assert(ms[3] == ("kind"@, decimal_int(x.kind as int)));
            assert(has_member(ms, "kind"@, decimal_int(x.kind as int)));
            assert(ms[4] == ("tags"@, json_tags(tags_view(x.tags@))));
            assert(has_member(ms, "tags"@, json_tags(tags_view(x.tags@))));
            assert(ms[5] == ("content"@, json_quoted(x.content@)));
            assert(has_member(ms, "content"@, json_quoted(x.content@)));
        }
    }
    match (id, pubkey, created_at, kind, tags, content) {
        (Some(id), Some(pubkey), Some(created_at), Some(kind), Some(tags), Some(content)) => {
            if kind > 0xFFFF_FFFFu64 {
                return None;
            }
            Some(Rumor { id, pubkey, created_at, kind: kind as u32, tags, content })
        },
        _ => None,
    }
}

/// Hex text of exactly 32 bytes; `what` names the length error.
pub open spec fn hex32_spec(s: Seq<char>, what: &'static str) -> core::result::Result<Seq<u8>, Error> {
    match hex_decode_spec(s) {
        None => Err(some_decode_error()),
        Some(b) => if b.len() == 32 {
            Ok(b)
        } else {
            Err(Error::InvalidLength(what))
        },
    }
}

/// `r` is an error that `e` describes.
pub open spec fn fails_with<T>(r: core::result::Result<T, Error>, e: Error) -> bool {
    r is Err && error_matches(r->Err_0, e)
}

fn hex32(s: &str, what: &'static str, ctx: &str) -> (r: Result<[u8; 32]>)
    ensures
        hex_decode_spec(s@) is None ==> (r matches Err(Error::Decode(m)) && m@ == ctx@ + ": "@ + hex_error_text(s@)),
        match hex32_spec(s@, what) {
            Ok(b) => r is Ok && r->Ok_0@ == b,
            Err(e) => fails_with(r, e),
        },
{
    match hexenc::decode(s) {
        None => Err(hexenc::decode_error(ctx, s)),
        Some(v) => {
            if v.len() != 32 {
                Err(Error::InvalidLength(what))
            } else {
                Ok(to_array32(v.as_slice()))
            }
        },
    }
}

fn hex_id(id_hex: &str) -> (r: Result<[u8; 32]>)
    ensures
        hex_decode_spec(id_hex@) is None ==> (r matches Err(Error::Decode(m)) && m@ == "hex id"@ + ": "@ + hex_error_text(id_hex@)),
        match hex32_spec(id_hex@, "id != 32") {
            Ok(b) => r is Ok && r->Ok_0@ == b,
            Err(e) => fails_with(r, e),
        },
{
    hex32(id_hex, "id != 32", "hex id")
}

fn hex_key(k: &str) -> (r: Result<[u8; 32]>)
    ensures
        hex_decode_spec(k@) is None ==> (r matches Err(Error::Decode(m)) && m@ == "hex key"@ + ": "@ + hex_error_text(k@)),
        match hex32_spec(k@, "pubkey != 32") {
            Ok(b) => r is Ok && r->Ok_0@ == b,
            Err(e) => fails_with(r, e),
        },
{
    hex32(k, "pubkey != 32", "hex key")
}

/// The rumor's tags: `["p", recipient]`, then `["e", reply, "", "reply"]` for a reply.
pub open spec fn rumor_tags_spec(recipient: Seq<u8>, reply_to: Option<&str>) -> Seq<Seq<Seq<char>>> {
    seq![seq!["p"@, hex_lower(recipient)]] + match reply_to {
        Some(r) => seq![seq!["e"@, r@, Seq::<char>::empty(), "reply"@]],
        None => seq![],
    }
}

/// The rumor JSON a gift wrap carries (kind 14, signed by nobody).
pub open spec fn gw_rumor_text(sender_hex: Seq<char>, recipient: Seq<u8>, p: GiftWrapParams) -> Seq<char> {
    let tags = rumor_tags_spec(recipient, p.reply_to);
    json_object(
        event_members(
            event_id_spec(sender_hex, p.rumor_created_at, kinds::CHAT_MESSAGE, tags, p.content@),
            sender_hex,
            p.rumor_created_at,
            kinds::CHAT_MESSAGE,
            tags,
            p.content@,
        ),
    )
}

/// The sender-to-recipient conversation key.
pub open spec fn gw_seal_key<S: Signer>(sender: S, recipient: Seq<u8>) -> Seq<u8> {
    conversation_key_spec(sender.signer_secret(), recipient)->Ok_0
}

/// The seal's content: the rumor JSON, NIP-44-encrypted to the recipient.
pub open spec fn gw_seal_content<S: Signer>(sender: S, recipient: Seq<u8>, p: GiftWrapParams) -> core::result::Result<Seq<char>, Error> {
    encrypt_spec(gw_seal_key(sender, recipient), p.seal_nonce@, encode_utf8(gw_rumor_text(signer_pubkey_hex(sender), recipient, p)))
}

/// The seal's JSON, for a given content and signature.
pub open spec fn gw_seal_text(sender_hex: Seq<char>, created_at: i64, content: Seq<char>, sig: Seq<u8>) -> Seq<char> {
    json_object(
        event_members(
            event_id_spec(sender_hex, created_at, kinds::SEAL, seq![], content),
            sender_hex,
            created_at,
            kinds::SEAL,
            seq![],
            content,
        ).push(member_key("sig"@) + json_quoted(hex_lower(sig))),
    )
}

/// The wrap's content: the seal JSON, NIP-44-encrypted under the ephemeral key.
pub open spec fn gw_wrap_content(ephemeral: Seq<u8>, recipient: Seq<u8>, nonce: Seq<u8>, seal_text: Seq<char>) -> core::result::Result<Seq<char>, Error> {
    encrypt_spec(conversation_key_spec(ephemeral, recipient)->Ok_0, nonce, encode_utf8(seal_text))
}

/// The ephemeral key encrypts the seal JSON to the recipient and signs the wrap.
pub open spec fn wraps_and_signs(ephemeral: Seq<u8>, recipient: Seq<u8>, p: GiftWrapParams, seal_text: Seq<char>) -> bool {
    let content = gw_wrap_content(ephemeral, recipient, p.wrap_nonce@, seal_text);
    &&& content is Ok
    &&& sign_spec(
        id_digest(
            hex_lower(secp256k1_xonly(ephemeral)->0),
            p.wrap_created_at,
            kinds::GIFT_WRAP,
            seq![seq!["p"@, hex_lower(recipient)]],
            content->Ok_0,
        ),
        ephemeral,
        Seq::new(32, |i: int| 0u8),
    ) is Ok
}

/// `sig` is a valid seal signature by `sender` over the seal's id.
pub open spec fn valid_seal_sig<S: Signer>(sender: S, created_at: i64, content: Seq<char>, sig: Seq<u8>) -> bool {
    &&& sig.len() == 64
    &&& bip340_valid(sig, id_digest(signer_pubkey_hex(sender), created_at, kinds::SEAL, seq![], content), secp256k1_xonly(sender.signer_secret())->0)
}

/// `w` is a gift wrap of the given message from `sender` to `recipient`:
/// signed by the ephemeral key (BIP-340 with all-zero auxiliary data), tagged for the recipient, its content the
/// encrypted seal, which holds a valid sender signature over the encrypted
/// rumor; the recipient's key opens the wrap back to the seal JSON.
pub open spec fn is_gift_wrap_of<S: Signer>(w: Event, sender: S, recipient: Seq<u8>, p: GiftWrapParams) -> bool {
    let eph = p.ephemeral_secret@;
    let seal_content = gw_seal_content(sender, recipient, p)->Ok_0;
    let sender_pk = secp256k1_xonly(sender.signer_secret())->0;
    let eph_pk = secp256k1_xonly(eph)->0;
    &&& sender_pk.len() == 32
    &&& eph_pk.len() == 32
    &&& id_digest(signer_pubkey_hex(sender), p.seal_created_at, kinds::SEAL, seq![], seal_content).len() == 32
    &&& forall|other: Seq<u8>| #[trigger] secp256k1_xonly(other) == Some(recipient) ==> {
        &&& conversation_key_spec(other, sender_pk) == Ok::<Seq<u8>, Error>(gw_seal_key(sender, recipient))
        &&& conversation_key_spec(other, eph_pk) == conversation_key_spec(eph, recipient)
        &&& conversation_key_spec(eph, recipient) is Ok
    }
    &&& base64_standard_decoded(seal_content) matches Some(b) && decrypt_bytes_spec(gw_seal_key(sender, recipient), b)
        == Ok::<Seq<u8>, Error>(encode_utf8(gw_rumor_text(signer_pubkey_hex(sender), recipient, p)))
    &&& w.pubkey@ == hex_lower(secp256k1_xonly(eph)->0)
    &&& w.created_at == p.wrap_created_at
    &&& w.kind == kinds::GIFT_WRAP
    &&& tags_view(w.tags@) == seq![seq!["p"@, hex_lower(recipient)]]
    &&& is_valid_event(w)
    &&& w.sig@ == hex_lower(
        sign_spec(
            id_digest(w.pubkey@, w.created_at, w.kind, tags_view(w.tags@), w.content@),
            eph,
            Seq::new(32, |i: int| 0u8),
        )->Ok_0,
    )
    &&& gw_seal_content(sender, recipient, p) is Ok
    &&& json_rumor_fields(gw_rumor_text(signer_pubkey_hex(sender), recipient, p)) == Some(
        gw_rumor_fields(signer_pubkey_hex(sender), recipient, p),
    )
    &&& exists|sig: Seq<u8>|
        #![trigger gw_seal_text(signer_pubkey_hex(sender), p.seal_created_at, seal_content, sig)]
        {
            let seal_text = gw_seal_text(signer_pubkey_hex(sender), p.seal_created_at, seal_content, sig);
            &&& valid_seal_sig(sender, p.seal_created_at, seal_content, sig)
            &&& json_event_fields(seal_text) == Some(gw_seal_fields(signer_pubkey_hex(sender), p.seal_created_at, seal_content, sig))
            &&& gw_wrap_content(eph, recipient, p.wrap_nonce@, seal_text) == Ok::<Seq<char>, Error>(w.content@)
            &&& base64_standard_decoded(w.content@) matches Some(b) && decrypt_bytes_spec(
                conversation_key_spec(eph, recipient)->Ok_0,
                b,
            ) == Ok::<Seq<u8>, Error>(encode_utf8(seal_text))
        }
}

fn tag_p(recipient_hex: &str) -> (t: Tag)
    ensures
        strs_view(t@) == seq!["p"@, recipient_hex@],
{
    let mut t: Tag = Vec::new();
    t.push(String::from_str("p"));
    t.push(String::from_str(recipient_hex));
    assert(strs_view(t@) =~= seq!["p"@, recipient_hex@]);
    t
}

fn rumor_tags(recipient_hex: &str, reply_to: Option<&str>) -> (tags: Vec<Tag>)
    ensures
        tags_view(tags@) == seq![seq!["p"@, recipient_hex@]] + match reply_to {
            Some(r) => seq![seq!["e"@, r@, Seq::<char>::empty(), "reply"@]],
            None => seq![],
        },
{
    let mut tags: Vec<Tag> = Vec::new();
    tags.push(tag_p(recipient_hex));
    match reply_to {
        Some(reply) => {
            let mut t: Tag = Vec::new();
            t.push(String::from_str("e"));
            t.push(String::from_str(reply));
            t.push(String::new());
            t.push(String::from_str("reply"));
            assert(strs_view(t@) =~= seq!["e"@, reply@, Seq::<char>::empty(), "reply"@]);
            tags.push(t);
        },
        None => {},
    }
    assert(tags_view(tags@) =~= seq![seq!["p"@, recipient_hex@]] + match reply_to {
        Some(r) => seq![seq!["e"@, r@, Seq::<char>::empty(), "reply"@]],
        None => seq![],
    });
    tags
}

/// Build a signed gift wrap (kind 1059) carrying a chat rumor (kind 14) from
/// `sender` to `recipient_xonly`. It fails when the sender does not derive the
/// conversation key or sign the seal, when a layer is too long (or empty) to
/// encrypt, when the ephemeral secret is not a valid key, or when the
/// ephemeral key cannot encrypt to the recipient.
#[verifier::rlimit(50)]
pub fn create_gift_wrap<S: Signer>(sender: &S, recipient_xonly: &[u8; 32], params: &GiftWrapParams) -> (r: Result<Event>)
    ensures
        r is Ok ==> is_gift_wrap_of(r->Ok_0, *sender, recipient_xonly@, *params),
        !sender.derives_nip44_key(recipient_xonly@) ==> r is Err,
        sender.derives_nip44_key(recipient_xonly@) ==> (gw_seal_content(*sender, recipient_xonly@, *params) is Err ==> r is Err),
        secp256k1_xonly(params.ephemeral_secret@) is None ==> r is Err,
        r is Err ==> {
            ||| !sender.derives_nip44_key(recipient_xonly@)
            ||| gw_seal_content(*sender, recipient_xonly@, *params) is Err
            ||| !sender.signs(
                id_digest(
                    signer_pubkey_hex(*sender),
                    params.seal_created_at,
                    kinds::SEAL,
                    seq![],
                    gw_seal_content(*sender, recipient_xonly@, *params)->Ok_0,
                ),
            )
            ||| secp256k1_xonly(params.ephemeral_secret@) is None
            ||| conversation_key_spec(params.ephemeral_secret@, recipient_xonly@) is Err
            ||| exists|sig: Seq<u8>|
                #![trigger gw_seal_text(signer_pubkey_hex(*sender), params.seal_created_at, gw_seal_content(*sender, recipient_xonly@, *params)->Ok_0, sig)]
                valid_seal_sig(*sender, params.seal_created_at, gw_seal_content(*sender, recipient_xonly@, *params)->Ok_0, sig)
                    && !wraps_and_signs(
                    params.ephemeral_secret@,
                    recipient_xonly@,
                    *params,
                    gw_seal_text(signer_pubkey_hex(*sender), params.seal_created_at, gw_seal_content(*sender, recipient_xonly@, *params)->Ok_0, sig),
                )
        },
{
    let sender_pk = sender.public_key();
    let sender_pub = hexenc::encode(sender_pk.as_slice());
    let recipient_hex = hexenc::encode(recipient_xonly.as_slice());
    let ghost s_hex = signer_pubkey_hex(*sender);
    let ghost recip = recipient_xonly@;
    assert(sender_pub@ == s_hex);

    // 1. Rumor (unsigned, real timestamp).
    let tags = rumor_tags(recipient_hex.as_str(), params.reply_to);
    let rumor_id = Event::calculate_id(sender_pub.as_str(), params.rumor_created_at, kinds::CHAT_MESSAGE, tags.as_slice(), params.content);
    let rumor = Rumor {
        id: rumor_id,
        pubkey: sender_pub.clone(),
        created_at: params.rumor_created_at,
        kind: kinds::CHAT_MESSAGE,
        tags,
        content: String::from_str(params.content),
    };

    // 2. Seal (kind 13), signed by the sender, encrypting the rumor to the recipient.
    let seal_conv = match sender.nip44_conversation_key(recipient_xonly) {
        Ok(k) => k,
        Err(e) => return Err(e),
    };
    let rumor_text = rumor_to_json(&rumor);
    assert(rumor_text@ == gw_rumor_text(s_hex, recip, *params));
    // The rumor JSON reads back to the fields it was written with.
    let _ = rumor_from_json(rumor_text.as_str());
    assert(rumor_fields(rumor) == gw_rumor_fields(s_hex, recip, *params));
    let seal_content = match nip44::encrypt_with_key_nonce(&seal_conv, &params.seal_nonce, rumor_text.as_str().as_bytes()) {
        Ok(c) => c,
        Err(e) => return Err(e),
    };
    let ghost sc = seal_content@;
    let no_tags: Vec<Tag> = Vec::new();
    assert(tags_view(no_tags@) =~= Seq::<Seq<Seq<char>>>::empty());
    let seal_id = Event::calculate_id(sender_pub.as_str(), params.seal_created_at, kinds::SEAL, no_tags.as_slice(), seal_content.as_str());
    proof {
        lemma_hex_roundtrip(id_digest(s_hex, params.seal_created_at, kinds::SEAL, seq![], sc));
    }
    let seal_id_bytes = match hex_id(seal_id.as_str()) {
        Ok(b) => b,
        Err(e) => return Err(e),
    };
    let seal_sig = match sender.schnorr_sign(&seal_id_bytes) {
        Ok(s) => s,
        Err(e) => return Err(e),
    };
    let seal = Event {
        id: seal_id,
        pubkey: sender_pub,
        created_at: params.seal_created_at,
        kind: kinds::SEAL,
        tags: no_tags,
        content: seal_content,
        sig: hexenc::encode(seal_sig.as_slice()),
    };

    // 3. Gift wrap (kind 1059), signed by the ephemeral key, encrypting the seal.
    let eph_keys = match Keypair::from_secret(params.ephemeral_secret) {
        Ok(k) => k,
        Err(e) => return Err(e),
    };
    let ephemeral = LocalSigner::new(eph_keys);
    let eph_pk = ephemeral.public_key();
    let eph_pub = hexenc::encode(eph_pk.as_slice());
    let seal_json = event_to_json(&seal);
    assert(seal_json@ == gw_seal_text(s_hex, params.seal_created_at, sc, seal_sig@));
    // The seal JSON reads back to the fields it was written with.
    let _ = event_from_json(seal_json.as_str());
    assert(event_fields(seal) == gw_seal_fields(s_hex, params.seal_created_at, sc, seal_sig@));
    assert(valid_seal_sig(*sender, params.seal_created_at, sc, seal_sig@));
    let wrap_conv = match ephemeral.nip44_conversation_key(recipient_xonly) {
        Ok(k) => k,
        Err(e) => return Err(e),
    };
    let wrap_content = match nip44::encrypt_with_key_nonce(&wrap_conv, &params.wrap_nonce, seal_json.as_str().as_bytes()) {
        Ok(c) => c,
        Err(e) => return Err(e),
    };
    let mut wrap_tags: Vec<Tag> = Vec::new();
    wrap_tags.push(tag_p(recipient_hex.as_str()));
    assert(tags_view(wrap_tags@) =~= seq![seq!["p"@, hex_lower(recip)]]);
    let wrap_id = Event::calculate_id(eph_pub.as_str(), params.wrap_created_at, kinds::GIFT_WRAP, wrap_tags.as_slice(), wrap_content.as_str());
    proof {
        lemma_hex_roundtrip(id_digest(eph_pub@, params.wrap_created_at, kinds::GIFT_WRAP, tags_view(wrap_tags@), wrap_content@));
    }
    let wrap_id_bytes = match hex_id(wrap_id.as_str()) {
        Ok(b) => b,
        Err(e) => return Err(e),
    };
    let wrap_sig = match ephemeral.schnorr_sign(&wrap_id_bytes) {
        Ok(s) => s,
        Err(e) => return Err(e),
    };
    let w = Event {
        id: wrap_id,
        pubkey: eph_pub,
        created_at: params.wrap_created_at,
        kind: kinds::GIFT_WRAP,
        tags: wrap_tags,
        content: wrap_content,
        sig: hexenc::encode(wrap_sig.as_slice()),
    };
    proof {
        lemma_hex_roundtrip(wrap_sig@);
        lemma_hex_roundtrip(eph_pk@);
        assert(gw_seal_text(s_hex, params.seal_created_at, sc, seal_sig@) == seal_json@);
    }
    Ok(w)
}


/// NIP-44 decryption of a base64 payload under a conversation key.
pub open spec fn nip44_open(key: Seq<u8>, payload: Seq<char>) -> core::result::Result<Seq<u8>, Error> {
    match base64_standard_decoded(payload) {
        None => Err(some_decode_error()),
        Some(p) => decrypt_bytes_spec(key, p),
    }
}

/// The seal read from decrypted bytes (UTF-8 JSON of an event).
pub open spec fn seal_of(bytes: Seq<u8>) -> Option<(Seq<char>, Seq<char>, i64, u32, Seq<Seq<Seq<char>>>, Seq<char>, Seq<char>)> {
    if valid_utf8(bytes) {
        json_event_fields(decode_utf8(bytes))
    } else {
        None
    }
}

/// The rumor read from decrypted bytes (UTF-8 JSON of a rumor).
pub open spec fn rumor_of(bytes: Seq<u8>) -> Option<(Seq<char>, Seq<char>, i64, u32, Seq<Seq<Seq<char>>>, Seq<char>)> {
    if valid_utf8(bytes) {
        json_rumor_fields(decode_utf8(bytes))
    } else {
        None
    }
}

/// `m` is the message a gift wrap delivers: the wrap's id, the seal's author,
/// the recipient's own key, and the rumor's content, time, kind and `e` tag.
pub open spec fn message_matches<S: Signer>(
    m: PrivateMessage,
    gw: Event,
    seal_pubkey: Seq<char>,
    recipient: S,
    rumor: (Seq<char>, Seq<char>, i64, u32, Seq<Seq<Seq<char>>>, Seq<char>),
) -> bool {
    &&& m.event_id@ == gw.id@
    &&& m.sender_pubkey@ == seal_pubkey
    &&& m.recipient_pubkey@ == signer_pubkey_hex(recipient)
    &&& m.content@ == rumor.5
    &&& m.timestamp == rumor.2
    &&& m.kind == rumor.3
    &&& opt_view(m.reply_to_event_id) == tag_value_spec(rumor.4, "e"@)
}

/// What unwrapping does once the seal has been read.
pub open spec fn unwrap_seal_outcome<S: Signer>(
    recipient: S,
    gw: Event,
    seal: (Seq<char>, Seq<char>, i64, u32, Seq<Seq<Seq<char>>>, Seq<char>, Seq<char>),
    r: core::result::Result<PrivateMessage, Error>,
) -> bool {
    let (sid, spk, sca, skind, stags, scontent, ssig) = seal;
    if skind != kinds::SEAL {
        fails_with(r, Error::Malformed("inner event is not a seal"))
    } else {
        match hex32_spec(sid, "id != 32") {
            Err(e) => fails_with(r, e),
            Ok(idb) => match hex_decode_spec(ssig) {
                None => fails_with(r, some_decode_error()),
                Some(sigb) => if sigb.len() != 64 {
                    fails_with(r, Error::InvalidLength("seal sig != 64"))
                } else {
                    match hex32_spec(spk, "pubkey != 32") {
                        Err(e) => fails_with(r, e),
                        Ok(pkb) => if !bip340_valid(sigb, idb, pkb) {
                            fails_with(r, Error::Decrypt("seal signature verification failed"))
                        } else if !recipient.derives_nip44_key(pkb) {
                            r is Err
                        } else {
                            match nip44_open(conversation_key_spec(recipient.signer_secret(), pkb)->Ok_0, scontent) {
                                Err(e) => fails_with(r, e),
                                Ok(rb) => match rumor_of(rb) {
                                    None => fails_with(r, some_decode_error()),
                                    Some(rumor) => r is Ok && message_matches(r->Ok_0, gw, spk, recipient, rumor),
                                },
                            }
                        },
                    }
                },
            },
        }
    }
}

/// What unwrapping a gift wrap gives: each failing step's error, or the
/// delivered message. Where the recipient's signer declines a key, some error.
pub open spec fn unwrap_outcome<S: Signer>(recipient: S, gw: Event, r: core::result::Result<PrivateMessage, Error>) -> bool {
    if gw.kind != kinds::GIFT_WRAP {
        fails_with(r, Error::Malformed("event is not a gift wrap"))
    } else {
        match hex32_spec(gw.pubkey@, "pubkey != 32") {
            Err(e) => fails_with(r, e),
            Ok(eph) => if !recipient.derives_nip44_key(eph) {
                r is Err
            } else {
                match nip44_open(conversation_key_spec(recipient.signer_secret(), eph)->Ok_0, gw.content@) {
                    Err(e) => fails_with(r, e),
                    Ok(seal_bytes) => match seal_of(seal_bytes) {
                        None => fails_with(r, some_decode_error()),
                        Some(seal) => unwrap_seal_outcome(recipient, gw, seal, r),
                    },
                }
            },
        }
    }
}

fn json_decode_error(what: &str) -> (e: Error)
    ensures
        e is Decode,
{
    let mut m = String::from_str(what);
    crate::text::push_str(&mut m, " json: invalid");
    Error::Decode(m)
}

/// Unwrap a gift wrap into a [`PrivateMessage`], using the recipient's signer
/// to derive the two conversation keys. The seal signature is verified (over
/// the seal's stated id).
#[verifier::rlimit(50)]
pub fn unwrap<S: Signer>(recipient: &S, gift_wrap: &Event) -> (r: Result<PrivateMessage>)
    ensures
        unwrap_outcome(*recipient, *gift_wrap, r),
{
    if gift_wrap.kind != kinds::GIFT_WRAP {
        return Err(Error::Malformed("event is not a gift wrap"));
    }

    // Decrypt the seal using the gift wrap's ephemeral pubkey.
    let ephemeral_pub = match hex_key(gift_wrap.pubkey.as_str()) {
        Ok(k) => k,
        Err(e) => return Err(e),
    };
    let wrap_conv = match recipient.nip44_conversation_key(&ephemeral_pub) {
        Ok(k) => k,
        Err(e) => return Err(e),
    };
    let seal_bytes = match nip44::decrypt_with_key(&wrap_conv, gift_wrap.content.as_str()) {
        Ok(b) => b,
        Err(e) => return Err(e),
    };
    let seal_text = match string_from_utf8(seal_bytes) {
        Some(t) => t,
        None => return Err(json_decode_error("seal")),
    };
    let seal = match event_from_json(seal_text.as_str()) {
        Some(s) => s,
        None => return Err(json_decode_error("seal")),
    };
    if seal.kind != kinds::SEAL {
        return Err(Error::Malformed("inner event is not a seal"));
    }

    // Verify the seal signature (over its stated id).
    let seal_id = match hex_id(seal.id.as_str()) {
        Ok(b) => b,
        Err(e) => return Err(e),
    };
    let sig_bytes = match hexenc::decode(seal.sig.as_str()) {
        Some(v) => v,
        None => return Err(hexenc::decode_error("seal sig", seal.sig.as_str())),
    };
    if sig_bytes.len() != 64 {
        return Err(Error::InvalidLength("seal sig != 64"));
    }
    let seal_sig = to_array64(sig_bytes.as_slice());
    let seal_pub = match hex_key(seal.pubkey.as_str()) {
        Ok(k) => k,
        Err(e) => return Err(e),
    };
    if !schnorr::verify(&seal_sig, &seal_id, &seal_pub) {
        return Err(Error::Decrypt("seal signature verification failed"));
    }

    // Decrypt the rumor using the seal author's pubkey.
    let seal_conv = match recipient.nip44_conversation_key(&seal_pub) {
        Ok(k) => k,
        Err(e) => return Err(e),
    };
    let rumor_bytes = match nip44::decrypt_with_key(&seal_conv, seal.content.as_str()) {
        Ok(b) => b,
        Err(e) => return Err(e),
    };
    let rumor_text = match string_from_utf8(rumor_bytes) {
        Some(t) => t,
        None => return Err(json_decode_error("rumor")),
    };
    let rumor = match rumor_from_json(rumor_text.as_str()) {
        Some(x) => x,
        None => return Err(json_decode_error("rumor")),
    };
    let reply_to_event_id = match tag_value_in(rumor.tags.as_slice(), "e") {
        Some(v) => Some(String::from_str(v)),
        None => None,
    };
    let recipient_pk = recipient.public_key();
    Ok(PrivateMessage {
        event_id: gift_wrap.id.clone(),
        sender_pubkey: seal.pubkey,
        recipient_pubkey: hexenc::encode(recipient_pk.as_slice()),
        content: rumor.content,
        timestamp: rumor.created_at,
        kind: rumor.kind,
        reply_to_event_id,
    })
}


/// The fields the seal JSON of a gift wrap holds, for a given signature.
pub open spec fn gw_seal_fields(sender_hex: Seq<char>, created_at: i64, content: Seq<char>, sig: Seq<u8>) -> (
    Seq<char>,
    Seq<char>,
    i64,
    u32,
    Seq<Seq<Seq<char>>>,
    Seq<char>,
    Seq<char>,
) {
    (event_id_spec(sender_hex, created_at, kinds::SEAL, seq![], content), sender_hex, created_at, kinds::SEAL, seq![], content, hex_lower(sig))
}

/// The fields the rumor JSON of a gift wrap holds.
pub open spec fn gw_rumor_fields(sender_hex: Seq<char>, recipient: Seq<u8>, p: GiftWrapParams) -> (
    Seq<char>,
    Seq<char>,
    i64,
    u32,
    Seq<Seq<Seq<char>>>,
    Seq<char>,
) {
    let tags = rumor_tags_spec(recipient, p.reply_to);
    (
        event_id_spec(sender_hex, p.rumor_created_at, kinds::CHAT_MESSAGE, tags, p.content@),
        sender_hex,
        p.rumor_created_at,
        kinds::CHAT_MESSAGE,
        tags,
        p.content@,
    )
}

/// A recipient that unwraps a gift wrap made for it gets the sender's message
/// back: the content, the sender's pubkey (from the verified seal), the real
/// timestamp, kind 14 and the reply reference. The premise is that the
/// recipient's signer derives the two conversation keys (a `LocalSigner` does).
#[verifier::rlimit(50)]
pub proof fn lemma_unwrap_gift_wrap<S: Signer, R: Signer>(
    w: Event,
    sender: S,
    recipient: R,
    recipient_pk: Seq<u8>,
    p: GiftWrapParams,
    r: core::result::Result<PrivateMessage, Error>,
)
    requires
        is_gift_wrap_of(w, sender, recipient_pk, p),
        secp256k1_xonly(recipient.signer_secret()) == Some(recipient_pk),
        recipient.derives_nip44_key(secp256k1_xonly(p.ephemeral_secret@)->0),
        recipient.derives_nip44_key(secp256k1_xonly(sender.signer_secret())->0),
        unwrap_outcome(recipient, w, r),
    ensures
        r is Ok,
        r->Ok_0.content@ == p.content@,
        r->Ok_0.sender_pubkey@ == signer_pubkey_hex(sender),
        r->Ok_0.recipient_pubkey@ == hex_lower(recipient_pk),
        r->Ok_0.timestamp == p.rumor_created_at,
        r->Ok_0.kind == kinds::CHAT_MESSAGE,
        r->Ok_0.event_id@ == w.id@,
        opt_view(r->Ok_0.reply_to_event_id) == match p.reply_to {
            Some(x) => Some(x@),
            None => None::<Seq<char>>,
        },
{
    let s_hex = signer_pubkey_hex(sender);
    let eph = p.ephemeral_secret@;
    let eph_pk = secp256k1_xonly(eph)->0;
    let sender_pk = secp256k1_xonly(sender.signer_secret())->0;
    let rsecret = recipient.signer_secret();
    let seal_content = gw_seal_content(sender, recipient_pk, p)->Ok_0;
    let sig = choose|sig: Seq<u8>|
        #![trigger gw_seal_text(s_hex, p.seal_created_at, seal_content, sig)]
        {
            let seal_text = gw_seal_text(s_hex, p.seal_created_at, seal_content, sig);
            &&& valid_seal_sig(sender, p.seal_created_at, seal_content, sig)
            &&& json_event_fields(seal_text) == Some(gw_seal_fields(s_hex, p.seal_created_at, seal_content, sig))
            &&& gw_wrap_content(eph, recipient_pk, p.wrap_nonce@, seal_text) == Ok::<Seq<char>, Error>(w.content@)
            &&& base64_standard_decoded(w.content@) matches Some(b) && decrypt_bytes_spec(
                conversation_key_spec(eph, recipient_pk)->Ok_0,
                b,
            ) == Ok::<Seq<u8>, Error>(encode_utf8(seal_text))
        };
    let seal_text = gw_seal_text(s_hex, p.seal_created_at, seal_content, sig);
    // Outer layer: the ephemeral key, and the recipient's view of the wrap key.
    lemma_hex_roundtrip(eph_pk);
    assert(hex32_spec(w.pubkey@, "pubkey != 32") == Ok::<Seq<u8>, Error>(eph_pk));
    assert(secp256k1_xonly(rsecret) == Some(recipient_pk));
    assert(conversation_key_spec(rsecret, eph_pk) == conversation_key_spec(eph, recipient_pk));
    assert(nip44_open(conversation_key_spec(rsecret, eph_pk)->Ok_0, w.content@) == Ok::<Seq<u8>, Error>(encode_utf8(seal_text)));
    encode_utf8_valid_utf8(seal_text);
    encode_utf8_decode_utf8(seal_text);
    let seal = gw_seal_fields(s_hex, p.seal_created_at, seal_content, sig);
    assert(seal_of(encode_utf8(seal_text)) == Some(seal));
    // The seal: its id, signature and author.
    let digest = id_digest(s_hex, p.seal_created_at, kinds::SEAL, seq![], seal_content);
    lemma_hex_roundtrip(digest);
    assert(hex32_spec(seal.0, "id != 32") == Ok::<Seq<u8>, Error>(digest));
    lemma_hex_roundtrip(sig);
    lemma_hex_roundtrip(sender_pk);
    assert(hex32_spec(seal.1, "pubkey != 32") == Ok::<Seq<u8>, Error>(sender_pk));
    assert(conversation_key_spec(rsecret, sender_pk) == Ok::<Seq<u8>, Error>(gw_seal_key(sender, recipient_pk)));
    let rumor_text = gw_rumor_text(s_hex, recipient_pk, p);
    assert(nip44_open(conversation_key_spec(rsecret, sender_pk)->Ok_0, seal.5) == Ok::<Seq<u8>, Error>(encode_utf8(rumor_text)));
    encode_utf8_valid_utf8(rumor_text);
    encode_utf8_decode_utf8(rumor_text);
    let rumor = gw_rumor_fields(s_hex, recipient_pk, p);
    assert(rumor_of(encode_utf8(rumor_text)) == Some(rumor));
    assert(unwrap_seal_outcome(recipient, w, seal, r));
    assert(message_matches(r->Ok_0, w, s_hex, recipient, rumor));
    // The reply reference is the rumor's `e` tag.
    reveal_strlit("p");
    reveal_strlit("e");
    assert("p"@ != "e"@) by {
        assert("p"@[0] != "e"@[0]);
    }
    let tags = rumor_tags_spec(recipient_pk, p.reply_to);
    assert(tags[0][0] == "p"@);
    assert(tags.drop_first() == match p.reply_to {
        Some(x) => seq![seq!["e"@, x@, Seq::<char>::empty(), "reply"@]],
        None => Seq::<Seq<Seq<char>>>::empty(),
    });
    match p.reply_to {
        Some(x) => {
            assert(tags.drop_first()[0][0] == "e"@);
            assert(crate::event::first_tag_named(tags.drop_first(), "e"@) == Some(0int));
            assert(crate::event::first_tag_named(tags, "e"@) == Some(1int));
            assert(tags[1][1] == x@);
        },
        None => {
            assert(tags.drop_first().len() == 0);
        },
    }
}

/// For a recipient holding its key locally, unwrapping a gift wrap made for it
/// always gives the sender's message back, with no further premise.
pub proof fn lemma_unwrap_gift_wrap_local<S: Signer>(
    w: Event,
    sender: S,
    recipient: LocalSigner,
    recipient_pk: Seq<u8>,
    p: GiftWrapParams,
    r: core::result::Result<PrivateMessage, Error>,
)
    requires
        is_gift_wrap_of(w, sender, recipient_pk, p),
        secp256k1_xonly(recipient.signer_secret()) == Some(recipient_pk),
        unwrap_outcome(recipient, w, r),
    ensures
        r is Ok,
        r->Ok_0.content@ == p.content@,
        r->Ok_0.sender_pubkey@ == signer_pubkey_hex(sender),
        r->Ok_0.recipient_pubkey@ == hex_lower(recipient_pk),
        r->Ok_0.timestamp == p.rumor_created_at,
        r->Ok_0.kind == kinds::CHAT_MESSAGE,
        r->Ok_0.event_id@ == w.id@,
        opt_view(r->Ok_0.reply_to_event_id) == match p.reply_to {
            Some(x) => Some(x@),
            None => None::<Seq<char>>,
        },
{
    let rsecret = recipient.signer_secret();
    assert(secp256k1_xonly(rsecret) == Some(recipient_pk));
    assert(recipient.derives_nip44_key(secp256k1_xonly(p.ephemeral_secret@)->0));
    assert(recipient.derives_nip44_key(secp256k1_xonly(sender.signer_secret())->0));
    lemma_unwrap_gift_wrap(w, sender, recipient, recipient_pk, p, r);
}

} // verus!
