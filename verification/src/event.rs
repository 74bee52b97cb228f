//! Nostr events (NIP-01). The event id is the SHA-256 of the compact JSON array
//! `[0, pubkey, created_at, kind, tags, content]`, hex-encoded.
use vstd::prelude::*;
use vstd::utf8::*;

use crate::crypto::digest::{sha256, sha256_digest};
use crate::crypto::schnorr::{self, bip340_valid};
use crate::crypto::secp::secp256k1_xonly;
use crate::error::{Error, Result};
use crate::hex::{self as hexenc, hex_decode_spec, hex_lower, lemma_hex_roundtrip};
use crate::json::{
    decimal_int, decimal_nat, i64_member, json_i64_member, json_object, json_quoted, json_string_member, json_tags,
    json_tags_member, json_u64_member, member_key, object_of, push_decimal_i64, push_decimal_u128, push_key, push_member,
    push_quoted, push_tags, string_member, string_member_text, strs_view, tags_member, tags_view, u64_member,
    array_i64, array_item, array_string, array_tags, array_u64, is_array, json_array_i64, json_array_item,
    json_array_string, json_array_tags, json_array_u64, json_is_array, has_member, member_texts, plain_key,
    writer_members, written_object,
};
use crate::signer::Signer;
use crate::text::{push_char, str_eq, to_array32, to_array64};

verus! {

/// A tag is a list of strings whose first element is the tag name.
pub type Tag = Vec<String>;

/// A signed Nostr event.
#[derive(Clone, Debug, PartialEq, Eq)]
pub struct Event {
    /// Event id: hex SHA-256 of the canonical serialization.
    pub id: String,
    /// Author x-only public key (hex).
    pub pubkey: String,
    /// Unix timestamp (seconds).
    pub created_at: i64,
    /// Event kind.
    pub kind: u32,
    /// Event tags.
    pub tags: Vec<Tag>,
    /// Event content.
    pub content: String,
    /// BIP-340 Schnorr signature (hex).
    pub sig: String,
}

/// The canonical serialization an event id commits to.
pub open spec fn event_preimage(pubkey: Seq<char>, created_at: i64, kind: u32, tags: Seq<Seq<Seq<char>>>, content: Seq<char>) -> Seq<char> {
    seq!['[', '0', ','] + json_quoted(pubkey) + seq![','] + decimal_int(created_at as int) + seq![',']
        + decimal_nat(kind as nat) + seq![','] + json_tags(tags) + seq![','] + json_quoted(content) + seq![']']
}

/// The NIP-01 event id (lower-case hex) for the given fields.
pub open spec fn event_id_spec(pubkey: Seq<char>, created_at: i64, kind: u32, tags: Seq<Seq<Seq<char>>>, content: Seq<char>) -> Seq<char> {
    hex_lower(sha256_digest(encode_utf8(event_preimage(pubkey, created_at, kind, tags, content))))
}

/// The 32 id bytes the given fields commit to.
pub open spec fn id_digest(pubkey: Seq<char>, created_at: i64, kind: u32, tags: Seq<Seq<Seq<char>>>, content: Seq<char>) -> Seq<u8> {
    sha256_digest(encode_utf8(event_preimage(pubkey, created_at, kind, tags, content)))
}

/// The hex x-only public key of a signer.
pub open spec fn signer_pubkey_hex<S: Signer>(signer: S) -> Seq<char> {
    hex_lower(secp256k1_xonly(signer.signer_secret())->0)
}

/// The id the fields of `e` commit to.
pub open spec fn expected_id(e: Event) -> Seq<char> {
    event_id_spec(e.pubkey@, e.created_at, e.kind, tags_view(e.tags@), e.content@)
}

/// An event is valid when its id is the one its fields commit to, and its
/// hex id, signature and key decode to 32, 64 and 32 bytes with the signature
/// valid for the id under the key.
pub open spec fn is_valid_event(e: Event) -> bool {
    &&& e.id@ == expected_id(e)
    &&& match (hex_decode_spec(e.id@), hex_decode_spec(e.sig@), hex_decode_spec(e.pubkey@)) {
        (Some(i), Some(s), Some(p)) => i.len() == 32 && s.len() == 64 && p.len() == 32 && bip340_valid(s, i, p),
        _ => false,
    }
}

/// Index of the first tag named `name`.
pub open spec fn first_tag_named(tags: Seq<Seq<Seq<char>>>, name: Seq<char>) -> Option<int>
    decreases tags.len(),
{
    if tags.len() == 0 {
        None
    } else if tags[0].len() > 0 && tags[0][0] == name {
        Some(0)
    } else {
        match first_tag_named(tags.drop_first(), name) {
            Some(i) => Some(i + 1),
            None => None,
        }
    }
}

/// First value of the first tag named `name` (none when that tag has no value).
pub open spec fn tag_value_spec(tags: Seq<Seq<Seq<char>>>, name: Seq<char>) -> Option<Seq<char>> {
    match first_tag_named(tags, name) {
        None => None,
        Some(i) => if tags[i].len() > 1 {
            Some(tags[i][1])
        } else {
            None
        },
    }
}

impl Event {
    /// Compute the NIP-01 event id (hex) for the given fields.
    pub fn calculate_id(pubkey: &str, created_at: i64, kind: u32, tags: &[Tag], content: &str) -> (r: String)
        ensures
            r@ == event_id_spec(pubkey@, created_at, kind, tags_view(tags@), content@),
            id_digest(pubkey@, created_at, kind, tags_view(tags@), content@).len() == 32,
    {
        let mut s = String::new();
        push_char(&mut s, '[');
        push_char(&mut s, '0');
        push_char(&mut s, ',');
        push_quoted(&mut s, pubkey);
        push_char(&mut s, ',');
        push_decimal_i64(&mut s, created_at);
        push_char(&mut s, ',');
        push_decimal_u128(&mut s, kind as u128);
        push_char(&mut s, ',');
        push_tags(&mut s, tags);
        push_char(&mut s, ',');
        push_quoted(&mut s, content);
        push_char(&mut s, ']');
        assert(s@ == event_preimage(pubkey@, created_at, kind, tags_view(tags@), content@));
        let digest = sha256(s.as_str().as_bytes());
        hexenc::encode(digest.as_slice())
    }

    /// Build and sign an event with the given signer. A created event is valid
    /// (`verify` accepts it); it fails only when the signer fails.
    pub fn create<S: Signer>(signer: &S, kind: u32, tags: Vec<Tag>, content: String, created_at: i64) -> (r: Result<Event>)
        ensures
            r is Ok <==> signer.signs(id_digest(signer_pubkey_hex(*signer), created_at, kind, tags_view(tags@), content@)),
            r is Ok ==> r->Ok_0.sig@ == hex_lower(
                signer.signature_for(id_digest(signer_pubkey_hex(*signer), created_at, kind, tags_view(tags@), content@)),
            ),
            r is Err ==> r->Err_0 == signer.sign_error_for(
                id_digest(signer_pubkey_hex(*signer), created_at, kind, tags_view(tags@), content@),
            ),
            r is Ok ==> ({
                let ev = r->Ok_0;
                &&& secp256k1_xonly(signer.signer_secret()) matches Some(pk) && ev.pubkey@ == hex_lower(pk) && pk.len() == 32
                &&& ev.created_at == created_at
                &&& ev.kind == kind
                &&& ev.tags == tags
                &&& ev.content == content
                &&& is_valid_event(ev)
            }),
    {
        let pk = signer.public_key();
        let pubkey = hexenc::encode(pk.as_slice());
        let id = Event::calculate_id(pubkey.as_str(), created_at, kind, tags.as_slice(), content.as_str());
        let ghost digest = sha256_digest(encode_utf8(event_preimage(pubkey@, created_at, kind, tags_view(tags@), content@)));
        proof {
            lemma_hex_roundtrip(digest);
        }
        let id_vec = match hexenc::decode(id.as_str()) {
            Some(v) => v,
            None => return Err(hexenc::decode_error("hex id", id.as_str())),
        };
        if id_vec.len() != 32 {
            return Err(Error::InvalidLength("id != 32"));
        }
        let id_bytes = to_array32(id_vec.as_slice());
        let sig = match signer.schnorr_sign(&id_bytes) {
            Ok(s) => s,
            Err(e) => return Err(e),
        };
        let sig_hex = hexenc::encode(sig.as_slice());
        let ev = Event { id, pubkey, created_at, kind, tags, content, sig: sig_hex };
        proof {
            lemma_hex_roundtrip(sig@);
            lemma_hex_roundtrip(pk@);
        }
        Ok(ev)
    }

    /// Verify that the id recomputes and the Schnorr signature is valid.
    pub fn verify(&self) -> (r: bool)
        ensures
            r == is_valid_event(*self),
    {
        let recomputed = Event::calculate_id(self.pubkey.as_str(), self.created_at, self.kind, self.tags.as_slice(), self.content.as_str());
        if !str_eq(recomputed.as_str(), self.id.as_str()) {
            return false;
        }
        let id = hexenc::decode(self.id.as_str());
        let sig = hexenc::decode(self.sig.as_str());
        let pubkey = hexenc::decode(self.pubkey.as_str());
        match (id, sig, pubkey) {
            (Some(i), Some(s), Some(p)) => {
                if i.len() != 32 || s.len() != 64 || p.len() != 32 {
                    return false;
                }
                let id_arr = to_array32(i.as_slice());
                let pk_arr = to_array32(p.as_slice());
                let sig_arr = to_array64(s.as_slice());
                schnorr::verify(&sig_arr, &id_arr, &pk_arr)
            },
            _ => false,
        }
    }

    /// First value of the first tag named `name`.
    pub fn tag_value(&self, name: &str) -> (r: Option<&str>)
        ensures
            match r {
                Some(v) => tag_value_spec(tags_view(self.tags@), name@) == Some(v@),
                None => tag_value_spec(tags_view(self.tags@), name@) is None,
            },
    {
        tag_value_in(self.tags.as_slice(), name)
    }
}

/// First value of the first tag named `name` in `tags`.
pub fn tag_value_in<'a>(tags: &'a [Tag], name: &str) -> (r: Option<&'a str>)
    ensures
        match r {
            Some(v) => tag_value_spec(tags_view(tags@), name@) == Some(v@),
            None => tag_value_spec(tags_view(tags@), name@) is None,
        },
{
    let n = tags.len();
    let ghost tv = tags_view(tags@);
    let mut i: usize = 0;
    assert(tv.skip(0) == tv);
    while i < n
        invariant
            n == tags@.len(),
            i <= n,
            tv == tags_view(tags@),
            first_tag_named(tv, name@) == match first_tag_named(tv.skip(i as int), name@) {
                Some(k) => Some(k + i),
                None => None::<int>,
            },
        decreases n - i,
    {
        let t = &tags[i];
        assert(tv.skip(i as int).drop_first() == tv.skip(i + 1));
        assert(tv.skip(i as int)[0] == strs_view(t@));
        if t.len() > 0 && str_eq(t[0].as_str(), name) {
            if t.len() > 1 {
                return Some(t[1].as_str());
            } else {
                return None;
            }
        }
        i = i + 1;
    }
    None
}



/// The fields of an event, as plain values.
pub open spec fn event_fields(e: Event) -> (Seq<char>, Seq<char>, i64, u32, Seq<Seq<Seq<char>>>, Seq<char>, Seq<char>) {
    (e.id@, e.pubkey@, e.created_at, e.kind, tags_view(e.tags@), e.content@, e.sig@)
}

/// The members of an event's JSON object, in field order.
pub open spec fn event_members(
    id: Seq<char>,
    pubkey: Seq<char>,
    created_at: i64,
    kind: u32,
    tags: Seq<Seq<Seq<char>>>,
    content: Seq<char>,
) -> Seq<Seq<char>> {
    seq![
        member_key("id"@) + json_quoted(id),
        member_key("pubkey"@) + json_quoted(pubkey),
        member_key("created_at"@) + decimal_int(created_at as int),
        member_key("kind"@) + decimal_nat(kind as nat),
        member_key("tags"@) + json_tags(tags),
        member_key("content"@) + json_quoted(content),
    ]
}

/// The compact JSON object of an event: `id`, `pubkey`, `created_at`, `kind`,
/// `tags`, `content`, `sig`, in that order.
pub open spec fn event_json(e: Event) -> Seq<char> {
    json_object(
        event_members(e.id@, e.pubkey@, e.created_at, e.kind, tags_view(e.tags@), e.content@).push(
            member_key("sig"@) + json_quoted(e.sig@),
        ),
    )
}

/// The event fields read from a JSON object: every field present with its
/// type (`kind` within `u32`), or nothing.
pub open spec fn json_event_fields(text: Seq<char>) -> Option<(Seq<char>, Seq<char>, i64, u32, Seq<Seq<Seq<char>>>, Seq<char>, Seq<char>)> {
    if json_is_array(text) {
        json_event_array_fields(text)
    } else {
        json_event_object_fields(text)
    }
}

/// The event fields read from a JSON array of exactly seven elements, in field order.
pub open spec fn json_event_array_fields(text: Seq<char>) -> Option<(Seq<char>, Seq<char>, i64, u32, Seq<Seq<Seq<char>>>, Seq<char>, Seq<char>)> {
    if json_array_item(text, 7) is Some {
        None
    } else {
        match (
            json_array_string(text, 0),
            json_array_string(text, 1),
            json_array_i64(text, 2),
            json_array_u64(text, 3),
            json_array_tags(text, 4),
            json_array_string(text, 5),
            json_array_string(text, 6),
        ) {
            (Some(id), Some(pk), Some(ca), Some(k), Some(t), Some(c), Some(sig)) => if k <= u32::MAX {
                Some((id, pk, ca, k as u32, t, c, sig))
            } else {
                None
            },
            _ => None,
        }
    }
}

/// The event fields read from the members of a JSON object.
pub open spec fn json_event_object_fields(text: Seq<char>) -> Option<(Seq<char>, Seq<char>, i64, u32, Seq<Seq<Seq<char>>>, Seq<char>, Seq<char>)> {
    match (
        json_string_member(text, "id"@),
        json_string_member(text, "pubkey"@),
        json_i64_member(text, "created_at"@),
        json_u64_member(text, "kind"@),
        json_tags_member(text, "tags"@),
        json_string_member(text, "content"@),
        json_string_member(text, "sig"@),
    ) {
        (Some(id), Some(pk), Some(ca), Some(k), Some(t), Some(c), Some(sig)) => if k <= u32::MAX {
            Some((id, pk, ca, k as u32, t, c, sig))
        } else {
            None
        },
        _ => None,
    }
}

/// Append the members `id` .. `content` of an event-shaped object.
pub fn push_event_members(
    members: &mut Vec<String>,
    id: &str,
    pubkey: &str,
    created_at: i64,
    kind: u32,
    tags: &[Tag],
    content: &str,
)
    ensures
        strs_view(final(members)@) == strs_view(old(members)@) + event_members(
            id@,
            pubkey@,
            created_at,
            kind,
            tags_view(tags@),
            content@,
        ),
{
    let ghost m0 = strs_view(members@);
    push_member(members, string_member_text("id", id));
    push_member(members, string_member_text("pubkey", pubkey));
    let mut m = String::new();
    push_key(&mut m, "created_at");
    push_decimal_i64(&mut m, created_at);
    push_member(members, m);
    let mut m = String::new();
    push_key(&mut m, "kind");
    push_decimal_u128(&mut m, kind as u128);
    push_member(members, m);
    let mut m = String::new();
    push_key(&mut m, "tags");
    push_tags(&mut m, tags);
    push_member(members, m);
    push_member(members, string_member_text("content", content));
    assert(strs_view(members@) =~= m0 + event_members(id@, pubkey@, created_at, kind, tags_view(tags@), content@));
}

/// Serialize an event to its compact JSON object.
pub fn event_to_json(e: &Event) -> (s: String)
    ensures
        s@ == event_json(*e),
{
    let mut members: Vec<String> = Vec::new();
    assert(strs_view(members@) =~= Seq::<Seq<char>>::empty());
    push_event_members(&mut members, e.id.as_str(), e.pubkey.as_str(), e.created_at, e.kind, e.tags.as_slice(), e.content.as_str());
    push_member(&mut members, string_member_text("sig", e.sig.as_str()));
    object_of(members.as_slice())
}

/// An event as a JSON object with its keys in sorted order, the way a
/// `serde_json::Value` map writes it: `content`, `created_at`, `id`, `kind`,
/// `pubkey`, `sig`, `tags`.
pub open spec fn event_value_json(e: Event) -> Seq<char> {
    json_object(
        seq![
            member_key("content"@) + json_quoted(e.content@),
            member_key("created_at"@) + decimal_int(e.created_at as int),
            member_key("id"@) + json_quoted(e.id@),
            member_key("kind"@) + decimal_nat(e.kind as nat),
            member_key("pubkey"@) + json_quoted(e.pubkey@),
            member_key("sig"@) + json_quoted(e.sig@),
            member_key("tags"@) + json_tags(tags_view(e.tags@)),
        ],
    )
}

/// Serialize an event as a JSON object with sorted keys (its `serde_json::Value` form).
pub fn event_to_value_json(e: &Event) -> (s: String)
    ensures
        s@ == event_value_json(*e),
{
    let mut members: Vec<String> = Vec::new();
    assert(strs_view(members@) =~= Seq::<Seq<char>>::empty());
    push_member(&mut members, string_member_text("content", e.content.as_str()));
    let mut m = String::new();
    push_key(&mut m, "created_at");
    push_decimal_i64(&mut m, e.created_at);
    push_member(&mut members, m);
    push_member(&mut members, string_member_text("id", e.id.as_str()));
    let mut m = String::new();
    push_key(&mut m, "kind");
    push_decimal_u128(&mut m, e.kind as u128);
    push_member(&mut members, m);
    push_member(&mut members, string_member_text("pubkey", e.pubkey.as_str()));
    push_member(&mut members, string_member_text("sig", e.sig.as_str()));
    let mut m = String::new();
    push_key(&mut m, "tags");
    push_tags(&mut m, e.tags.as_slice());
    push_member(&mut members, m);
    proof {
        assert(strs_view(members@) =~= seq![
            member_key("content"@) + json_quoted(e.content@),
            member_key("created_at"@) + decimal_int(e.created_at as int),
            member_key("id"@) + json_quoted(e.id@),
            member_key("kind"@) + decimal_nat(e.kind as nat),
            member_key("pubkey"@) + json_quoted(e.pubkey@),
            member_key("sig"@) + json_quoted(e.sig@),
            member_key("tags"@) + json_tags(tags_view(e.tags@)),
        ]);
    }
    object_of(members.as_slice())
}

/// The `(key, value text)` members `id` .. `content` of an event-shaped object.
pub open spec fn event_pairs(
    id: Seq<char>,
    pubkey: Seq<char>,
    created_at: i64,
    kind: u32,
    tags: Seq<Seq<Seq<char>>>,
    content: Seq<char>,
) -> Seq<(Seq<char>, Seq<char>)> {
    seq![
        ("id"@, json_quoted(id)),
        ("pubkey"@, json_quoted(pubkey)),
        ("created_at"@, decimal_int(created_at as int)),
        ("kind"@, decimal_int(kind as int)),
        ("tags"@, json_tags(tags)),
        ("content"@, json_quoted(content)),
    ]
}

/// The members of an event's JSON object as `(key, value text)` pairs.
pub open spec fn event_object_pairs(e: Event) -> Seq<(Seq<char>, Seq<char>)> {
    event_pairs(e.id@, e.pubkey@, e.created_at, e.kind, tags_view(e.tags@), e.content@).push(("sig"@, json_quoted(e.sig@)))
}

/// The event-shaped members are written with plain, distinct keys and written
/// values, and are the member texts of `event_members` (and of an event's object).
pub proof fn lemma_event_pairs(
    id: Seq<char>,
    pubkey: Seq<char>,
    created_at: i64,
    kind: u32,
    tags: Seq<Seq<Seq<char>>>,
    content: Seq<char>,
    sig: Seq<char>,
)
    ensures
        writer_members(event_pairs(id, pubkey, created_at, kind, tags, content)),
        writer_members(event_pairs(id, pubkey, created_at, kind, tags, content).push(("sig"@, json_quoted(sig)))),
        member_texts(event_pairs(id, pubkey, created_at, kind, tags, content)) == event_members(id, pubkey, created_at, kind, tags, content),
        member_texts(event_pairs(id, pubkey, created_at, kind, tags, content).push(("sig"@, json_quoted(sig))))
            == event_members(id, pubkey, created_at, kind, tags, content).push(member_key("sig"@) + json_quoted(sig)),
{
    reveal_strlit("id");
    reveal_strlit("pubkey");
    reveal_strlit("created_at");
    reveal_strlit("kind");
    reveal_strlit("tags");
    reveal_strlit("content");
    reveal_strlit("sig");
    let ps = event_pairs(id, pubkey, created_at, kind, tags, content);
    let qs = ps.push(("sig"@, json_quoted(sig)));
    assert(decimal_int(kind as int) == decimal_nat(kind as nat));
    assert(crate::json::writer_value(json_quoted(id)));
    assert(crate::json::writer_value(json_quoted(pubkey)));
    assert(crate::json::writer_value(decimal_int(created_at as int)));
    assert(crate::json::writer_value(decimal_int(kind as int)));
    assert(crate::json::writer_value(json_tags(tags)));
    assert(crate::json::writer_value(json_quoted(content)));
    assert(crate::json::writer_value(json_quoted(sig)));
    assert forall|i: int| 0 <= i < qs.len() implies plain_key(#[trigger] qs[i].0) && crate::json::writer_value(qs[i].1) by {
        assert(plain_key(qs[i].0));
    }
    assert forall|i: int, j: int| 0 <= i < j < qs.len() implies #[trigger] qs[i].0 != #[trigger] qs[j].0 by {
        if qs[i].0.len() == qs[j].0.len() {
            assert(qs[i].0[0] != qs[j].0[0] || qs[i].0[1] != qs[j].0[1]);
        }
    }
    assert forall|i: int| 0 <= i < ps.len() implies #[trigger] ps[i] == qs[i] by {}
    assert(writer_members(ps)) by {
        assert forall|i: int| 0 <= i < ps.len() implies plain_key(#[trigger] ps[i].0) && crate::json::writer_value(ps[i].1) by {
            assert(ps[i] == qs[i]);
        }
        assert forall|i: int, j: int| 0 <= i < j < ps.len() implies #[trigger] ps[i].0 != #[trigger] ps[j].0 by {
            assert(ps[i] == qs[i] && ps[j] == qs[j]);
        }
    }
    assert(member_texts(ps) =~= event_members(id, pubkey, created_at, kind, tags, content));
    assert(member_texts(qs) =~= event_members(id, pubkey, created_at, kind, tags, content).push(member_key("sig"@) + json_quoted(sig)));
}

/// Read an event from JSON: an object with every field present with its type,
/// or an array of the seven fields in order; `None` otherwise.
pub fn event_from_json(text: &str) -> (r: Option<Event>)
    ensures
        match r {
            Some(e) => json_event_fields(text@) == Some(event_fields(e)),
            None => json_event_fields(text@) is None,
        },
        forall|e: Event| #[trigger] event_json(e) == text@ ==> r is Some && event_fields(r->0) == event_fields(e),
{
    let arr = is_array(text);
    proof {
        assert forall|e: Event| #[trigger] event_json(e) == text@ implies !arr by {
            let ms = event_object_pairs(e);
            lemma_event_pairs(e.id@, e.pubkey@, e.created_at, e.kind, tags_view(e.tags@), e.content@, e.sig@);
            assert(written_object(ms) == event_json(e));
        }
    }
    if arr {
        if array_item(text, 7).is_some() {
            return None;
        }
        let id = array_string(text, 0);
        let pubkey = array_string(text, 1);
        let created_at = array_i64(text, 2);
        let kind = array_u64(text, 3);
        let tags = array_tags(text, 4);
        let content = array_string(text, 5);
        let sig = array_string(text, 6);
        return match (id, pubkey, created_at, kind, tags, content, sig) {
            (Some(id), Some(pubkey), Some(created_at), Some(kind), Some(tags), Some(content), Some(sig)) => {
                if kind > 0xFFFF_FFFFu64 {
                    None
                } else {
                    Some(Event { id, pubkey, created_at, kind: kind as u32, tags, content, sig })
                }
            },
            _ => None,
        };
    }
    let id = string_member(text, "id");
    let pubkey = string_member(text, "pubkey");
    let created_at = i64_member(text, "created_at");
    let kind = u64_member(text, "kind");
    let tags = tags_member(text, "tags");
    let content = string_member(text, "content");
    let sig = string_member(text, "sig");
    proof {
        assert forall|e: Event| #[trigger] event_json(e) == text@ implies {
            &&& id is Some && id->0@ == e.id@
            &&& pubkey is Some && pubkey->0@ == e.pubkey@
            &&& created_at == Some(e.created_at)
            &&& kind == Some(e.kind as u64)
            &&& tags is Some && tags_view(tags->0@) == tags_view(e.tags@)
            &&& content is Some && content->0@ == e.content@
            &&& sig is Some && sig->0@ == e.sig@
        } by {
            let ms = event_object_pairs(e);
            lemma_event_pairs(e.id@, e.pubkey@, e.created_at, e.kind, tags_view(e.tags@), e.content@, e.sig@);
            assert(written_object(ms) == event_json(e));
            assert(ms[0] == ("id"@, json_quoted(e.id@)));
            assert(has_member(ms, "id"@, json_quoted(e.id@)));
            assert(ms[1] == ("pubkey"@, json_quoted(e.pubkey@)));
            assert(has_member(ms, "pubkey"@, json_quoted(e.pubkey@)));
            assert(ms[2] == ("created_at"@, decimal_int(e.created_at as int)));
            assert(has_member(ms, "created_at"@, decimal_int(e.created_at as int)));
            assert(ms[3] == ("kind"@, decimal_int(e.kind as int)));
            assert(has_member(ms, "kind"@, decimal_int(e.kind as int)));
            assert(ms[4] == ("tags"@, json_tags(tags_view(e.tags@))));
            assert(has_member(ms, "tags"@, json_tags(tags_view(e.tags@))));
            assert(ms[5] == ("content"@, json_quoted(e.content@)));
            assert(has_member(ms, "content"@, json_quoted(e.content@)));
            assert(ms[6] == ("sig"@, json_quoted(e.sig@)));
            assert(has_member(ms, "sig"@, json_quoted(e.sig@)));
        }
    }
    match (id, pubkey, created_at, kind, tags, content, sig) {
        (Some(id), Some(pubkey), Some(created_at), Some(kind), Some(tags), Some(content), Some(sig)) => {
            if kind > 0xFFFF_FFFFu64 {
                return None;
            }
            Some(Event { id, pubkey, created_at, kind: kind as u32, tags, content, sig })
        },
        _ => None,
    }
}

/// The first tag named `name` is the one at `k` when `k` is named so and no
/// earlier tag is.
pub proof fn lemma_first_tag_at(tags: Seq<Seq<Seq<char>>>, name: Seq<char>, k: int)
    requires
        0 <= k < tags.len(),
        tags[k].len() > 0,
        tags[k][0] == name,
        forall|j: int| 0 <= j < k ==> #[trigger] tags[j].len() == 0 || tags[j][0] != name,
    ensures
        first_tag_named(tags, name) == Some(k),
    decreases k,
{
    if k > 0 {
        let rest = tags.drop_first();
        assert forall|j: int| 0 <= j < k - 1 implies #[trigger] rest[j].len() == 0 || rest[j][0] != name by {
            assert(rest[j] == tags[j + 1]);
        }
        assert(tags[0].len() == 0 || tags[0][0] != name);
        lemma_first_tag_at(rest, name, k - 1);
    }
}

/// No tag is named `name`: there is no first one.
pub proof fn lemma_first_tag_none(tags: Seq<Seq<Seq<char>>>, name: Seq<char>)
    requires
        forall|j: int| 0 <= j < tags.len() ==> #[trigger] tags[j].len() == 0 || tags[j][0] != name,
    ensures
        first_tag_named(tags, name) is None,
    decreases tags.len(),
{
    if tags.len() > 0 {
        let rest = tags.drop_first();
        assert forall|j: int| 0 <= j < rest.len() implies #[trigger] rest[j].len() == 0 || rest[j][0] != name by {
            assert(rest[j] == tags[j + 1]);
        }
        assert(tags[0].len() == 0 || tags[0][0] != name);
        lemma_first_tag_none(rest, name);
    }
}

/// A valid event carries a BIP-340 signature, decoded from its hex `sig`, that
/// verifies for its decoded id under its decoded pubkey; and its id is the one
/// its fields commit to. Conversely, an event whose id recomputes and whose
/// 64-byte signature verifies for its 32-byte id under its 32-byte key is valid.
/// So swapping in any signature that does not verify for this id and key (for
/// instance another event's signature) makes the event invalid.
pub proof fn lemma_valid_event_signature(e: Event)
    ensures
        is_valid_event(e) ==> {
            &&& e.id@ == expected_id(e)
            &&& hex_decode_spec(e.id@) is Some
            &&& hex_decode_spec(e.sig@) is Some
            &&& hex_decode_spec(e.pubkey@) is Some
            &&& hex_decode_spec(e.sig@)->0.len() == 64
            &&& bip340_valid(hex_decode_spec(e.sig@)->0, hex_decode_spec(e.id@)->0, hex_decode_spec(e.pubkey@)->0)
        },
        ({
            &&& e.id@ == expected_id(e)
            &&& hex_decode_spec(e.id@) is Some && hex_decode_spec(e.id@)->0.len() == 32
            &&& hex_decode_spec(e.sig@) is Some && hex_decode_spec(e.sig@)->0.len() == 64
            &&& hex_decode_spec(e.pubkey@) is Some && hex_decode_spec(e.pubkey@)->0.len() == 32
            &&& bip340_valid(hex_decode_spec(e.sig@)->0, hex_decode_spec(e.id@)->0, hex_decode_spec(e.pubkey@)->0)
        }) ==> is_valid_event(e),
        !bip340_valid(
            hex_decode_spec(e.sig@)->0,
            hex_decode_spec(e.id@)->0,
            hex_decode_spec(e.pubkey@)->0,
        ) ==> !is_valid_event(e),
        e.id@ != expected_id(e) ==> !is_valid_event(e),
{
}

} // verus!
