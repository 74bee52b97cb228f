//! Pieces shared by the NIP-04-encrypted Unicity message kinds (token
//! transfers and payment requests): tag building, the conversation peer of an
//! event, and prefixed decryption.
use vstd::prelude::*;
use vstd::utf8::*;

use crate::crypto::nip04::{self, aes256_cbc_encrypted, auto_choice, decrypt_with_secret_spec, format_spec, shared_secret_spec};
use crate::error::{Error, Result};
use crate::event::{signer_pubkey_hex, tag_value_spec, Event, Tag};
use crate::hex::{self as hexenc, hex_decode_spec, hex_error_text};
use crate::json::{strs_view, tags_view};
use crate::nip17::{fails_with, hex32_spec};
use crate::signer::Signer;
use crate::text::{chars_of, str_eq, string_from_chars};

verus! {

/// The tag `[name, value]`.
pub fn tag_of(name: &str, value: &str) -> (t: Tag)
    ensures
        strs_view(t@) == seq![name@, value@],
{
    let mut t: Tag = Vec::new();
    t.push(String::from_str(name));
    t.push(String::from_str(value));
    assert(strs_view(t@) =~= seq![name@, value@]);
    t
}

/// The reply tag `["e", id, "", "reply"]`.
pub open spec fn reply_tag_spec(id: Seq<char>) -> Seq<Seq<char>> {
    seq!["e"@, id, Seq::<char>::empty(), "reply"@]
}

/// The reply tag `["e", id, "", "reply"]`.
pub fn reply_tag(id: &str) -> (t: Tag)
    ensures
        strs_view(t@) == reply_tag_spec(id@),
{
    let mut t: Tag = Vec::new();
    t.push(String::from_str("e"));
    t.push(String::from_str(id));
    t.push(String::new());
    t.push(String::from_str("reply"));
    assert(strs_view(t@) =~= reply_tag_spec(id@));
    t
}

/// Append a tag.
pub fn push_tag(tags: &mut Vec<Tag>, t: Tag)
    ensures
        tags_view(final(tags)@) == tags_view(old(tags)@).push(strs_view(t@)),
{
    let ghost t0 = tags@;
    tags.push(t);
    assert(tags_view(tags@) =~= tags_view(t0).push(strs_view(t@)));
}

/// NIP-04 content for `message` under `secret` and `iv`, with the compression
/// rule; `None` when the compressor fails.
pub open spec fn nip04_content(secret: Seq<u8>, iv: Seq<u8>, message: Seq<char>) -> Option<Seq<char>> {
    match auto_choice(encode_utf8(message)) {
        None => None,
        Some((data, c)) => Some(format_spec(aes256_cbc_encrypted(secret, iv, data), iv, c)),
    }
}

/// The party an event's encrypted content is shared with, from the point of
/// view of the holder of `me`: the `p`-tagged recipient when `me` wrote the
/// event, otherwise the event's author.
pub open spec fn protocol_peer_spec(me: Seq<char>, e: Event) -> core::result::Result<Seq<u8>, Error> {
    if e.pubkey@ == me {
        match tag_value_spec(tags_view(e.tags@), "p"@) {
            None => Err(Error::Malformed("missing p tag")),
            Some(p) => hex32_spec(p, "pubkey != 32"),
        }
    } else {
        hex32_spec(e.pubkey@, "pubkey != 32")
    }
}

fn hex_pubkey(k: &str) -> (r: Result<[u8; 32]>)
    ensures
        hex_decode_spec(k@) is None ==> (r matches Err(Error::Decode(m)) && m@ == "hex key"@ + ": "@ + hex_error_text(k@)),
        match hex32_spec(k@, "pubkey != 32") {
            Ok(b) => r is Ok && r->Ok_0@ == b,
            Err(e) => fails_with(r, e),
        },
{
    match hexenc::decode(k) {
        None => Err(hexenc::decode_error("hex key", k)),
        Some(v) => {
            if v.len() != 32 {
                Err(Error::InvalidLength("pubkey != 32"))
            } else {
                Ok(crate::text::to_array32(v.as_slice()))
            }
        },
    }
}

/// The x-only key of the other party of `event` for `signer`.
pub fn protocol_peer<S: Signer>(signer: &S, event: &Event) -> (r: Result<[u8; 32]>)
    ensures
        match protocol_peer_spec(signer_pubkey_hex(*signer), *event) {
            Ok(b) => r is Ok && r->Ok_0@ == b,
            Err(e) => fails_with(r, e),
        },
{
    let me = hexenc::encode(signer.public_key().as_slice());
    if str_eq(event.pubkey.as_str(), me.as_str()) {
        proof {
            reveal_strlit("p");
        }
        match event.tag_value("p") {
            None => Err(Error::Malformed("missing p tag")),
            Some(p) => hex_pubkey(p),
        }
    } else {
        hex_pubkey(event.pubkey.as_str())
    }
}

/// `s` with the leading `prefix` removed, when it starts with it.
pub open spec fn strip_prefix_spec(s: Seq<char>, prefix: Seq<char>) -> Option<Seq<char>> {
    if prefix.len() <= s.len() && s.take(prefix.len() as int) == prefix {
        Some(s.skip(prefix.len() as int))
    } else {
        None
    }
}

/// `s` with the leading `prefix` removed, when it starts with it.
pub fn strip_prefix(s: &str, prefix: &str) -> (r: Option<String>)
    ensures
        match r {
            Some(t) => strip_prefix_spec(s@, prefix@) == Some(t@),
            None => strip_prefix_spec(s@, prefix@) is None,
        },
{
    let cs = chars_of(s);
    let ps = chars_of(prefix);
    let n = cs.len();
    let m = ps.len();
    if m > n {
        return None;
    }
    for i in 0..m
        invariant
            m <= n,
            n == cs@.len(),
            m == ps@.len(),
            cs@ == s@,
            ps@ == prefix@,
            forall|k: int| 0 <= k < i ==> cs@[k] == ps@[k],
    {
        if cs[i] != ps[i] {
            assert(s@.take(m as int)[i as int] != prefix@[i as int]);
            return None;
        }
    }
    assert(s@.take(m as int) =~= prefix@);
    let t = string_from_chars(&cs.as_slice()[m..n]);
    assert(t@ =~= s@.skip(m as int));
    Some(t)
}

/// Decrypting an event's content for `signer` and removing `prefix`.
pub open spec fn decrypt_prefixed_outcome<S: Signer>(
    signer: S,
    e: Event,
    prefix: Seq<char>,
    bad_prefix: &'static str,
    r: core::result::Result<String, Error>,
) -> bool {
    match protocol_peer_spec(signer_pubkey_hex(signer), e) {
        Err(err) => fails_with(r, err),
        Ok(peer) => if !signer.derives_nip04_secret(peer) {
            r is Err
        } else {
            match decrypt_with_secret_spec(shared_secret_spec(signer.signer_secret(), peer)->Ok_0, e.content@) {
                Err(err) => fails_with(r, err),
                Ok(text) => match strip_prefix_spec(text, prefix) {
                    None => fails_with(r, Error::Malformed(bad_prefix)),
                    Some(rest) => r is Ok && r->Ok_0@ == rest,
                },
            }
        },
    }
}

/// Decrypt an event's NIP-04 content for `signer` and remove `prefix`.
pub fn decrypt_prefixed<S: Signer>(signer: &S, event: &Event, prefix: &str, bad_prefix: &'static str) -> (r: Result<String>)
    ensures
        decrypt_prefixed_outcome(*signer, *event, prefix@, bad_prefix, r),
{
    let peer = match protocol_peer(signer, event) {
        Ok(p) => p,
        Err(e) => return Err(e),
    };
    let secret = match signer.nip04_shared_secret(&peer) {
        Ok(s) => s,
        Err(e) => return Err(e),
    };
    let decrypted = match nip04::decrypt_with_secret(&secret, event.content.as_str()) {
        Ok(d) => d,
        Err(e) => return Err(e),
    };
    match strip_prefix(decrypted.as_str(), prefix) {
        Some(t) => Ok(t),
        None => Err(Error::Malformed(bad_prefix)),
    }
}

} // verus!
