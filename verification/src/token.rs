//! Unicity token-transfer events (kind 31113). The content is NIP-04-encrypted
//! and prefixed `token_transfer:`; everything routes through the [`Signer`].
//!
//! This is the Nostr messaging layer only: the token payload itself (mint,
//! settlement) belongs to the token engine.
use vstd::prelude::*;
use vstd::utf8::*;

use crate::crypto::nip04::{self, decrypt_with_secret_spec, shared_secret_spec};
use crate::crypto::secp::secp256k1_xonly;
use crate::error::{Error, Result};
use crate::event::{id_digest, is_valid_event, signer_pubkey_hex, tag_value_spec, Event, Tag};
use crate::hex::{self as hexenc, hex_lower, lemma_hex_roundtrip};
use crate::json::tags_view;
use crate::kinds;
use crate::nip17::{fails_with};
use crate::protocol::{
    decrypt_prefixed, decrypt_prefixed_outcome, nip04_content, protocol_peer_spec, push_tag, reply_tag, reply_tag_spec,
    strip_prefix_spec, tag_of,
};
use crate::signer::Signer;
use crate::text::push_str;

verus! {

/// Optional metadata tags for a token transfer.
#[derive(Clone, Debug, Default)]
pub struct TokenTransferOptions<'a> {
    /// Amount (decimal string), surfaced in an `amount` tag for relay filtering.
    pub amount: Option<&'a str>,
    /// Token symbol, surfaced in a `symbol` tag.
    pub symbol: Option<&'a str>,
    /// Correlate this transfer with a payment request (adds an `e` reply tag).
    pub reply_to_event_id: Option<&'a str>,
}

/// The plaintext of a token transfer: `token_transfer:` and the token JSON.
pub open spec fn token_message(token_json: Seq<char>) -> Seq<char> {
    "token_transfer:"@ + token_json
}

/// The tags of a token transfer: `p`, `type`, then `amount`, `symbol` and a
/// reply tag when given (the reply only when non-empty).
pub open spec fn token_tags_spec(recipient: Seq<u8>, opts: TokenTransferOptions) -> Seq<Seq<Seq<char>>> {
    seq![seq!["p"@, hex_lower(recipient)], seq!["type"@, "token_transfer"@]] + match opts.amount {
        Some(a) => seq![seq!["amount"@, a@]],
        None => seq![],
    } + match opts.symbol {
        Some(s) => seq![seq!["symbol"@, s@]],
        None => seq![],
    } + match opts.reply_to_event_id {
        Some(r) => if r@.len() > 0 {
            seq![reply_tag_spec(r@)]
        } else {
            seq![]
        },
        None => seq![],
    }
}

/// `ev` is the token transfer of `token_json` from `signer` to `recipient`.
pub open spec fn is_token_transfer_of<S: Signer>(
    ev: Event,
    signer: S,
    recipient: Seq<u8>,
    token_json: Seq<char>,
    opts: TokenTransferOptions,
    iv: Seq<u8>,
    created_at: i64,
) -> bool {
    let secret = shared_secret_spec(signer.signer_secret(), recipient)->Ok_0;
    &&& ev.pubkey@ == signer_pubkey_hex(signer)
    &&& secp256k1_xonly(signer.signer_secret())->0.len() == 32
    &&& ev.kind == kinds::TOKEN_TRANSFER
    &&& ev.created_at == created_at
    &&& tags_view(ev.tags@) == token_tags_spec(recipient, opts)
    &&& shared_secret_spec(signer.signer_secret(), recipient) is Ok
    &&& nip04_content(secret, iv, token_message(token_json)) == Some(ev.content@)
    &&& decrypt_with_secret_spec(secret, ev.content@) == Ok::<Seq<char>, Error>(token_message(token_json))
    &&& is_valid_event(ev)
    &&& forall|other: Seq<u8>| #[trigger] secp256k1_xonly(other) == Some(recipient)
        ==> shared_secret_spec(other, secp256k1_xonly(signer.signer_secret())->0) == Ok::<Seq<u8>, Error>(secret)
}

/// Build a signed token-transfer event (kind 31113) carrying `token_json`,
/// NIP-04-encrypted to `recipient_xonly`. It fails when the signer does not
/// derive the shared secret or sign, or when compression fails.
pub fn create_token_transfer_event<S: Signer>(
    signer: &S,
    recipient_xonly: &[u8; 32],
    token_json: &str,
    opts: &TokenTransferOptions,
    iv: &[u8; 16],
    created_at: i64,
) -> (r: Result<Event>)
    ensures
        !signer.derives_nip04_secret(recipient_xonly@) ==> r is Err,
        signer.derives_nip04_secret(recipient_xonly@) ==> match nip04_content(
            shared_secret_spec(signer.signer_secret(), recipient_xonly@)->Ok_0,
            iv@,
            token_message(token_json@),
        ) {
            None => r matches Err(Error::Gzip(_)),
            Some(c) => r is Ok <==> signer.signs(
                id_digest(signer_pubkey_hex(*signer), created_at, kinds::TOKEN_TRANSFER, token_tags_spec(recipient_xonly@, *opts), c),
            ),
        },
        r is Ok ==> is_token_transfer_of(r->Ok_0, *signer, recipient_xonly@, token_json@, *opts, iv@, created_at),
{
    let secret = match signer.nip04_shared_secret(recipient_xonly) {
        Ok(s) => s,
        Err(e) => return Err(e),
    };
    let mut message = String::from_str("token_transfer:");
    push_str(&mut message, token_json);
    let content = match nip04::encrypt_auto_with_secret_iv(&secret, iv, message.as_str()) {
        Ok(c) => c,
        Err(e) => return Err(e),
    };
    let mut tags: Vec<Tag> = Vec::new();
    assert(tags_view(tags@) =~= Seq::<Seq<Seq<char>>>::empty());
    let recipient_hex = hexenc::encode(recipient_xonly.as_slice());
    push_tag(&mut tags, tag_of("p", recipient_hex.as_str()));
    push_tag(&mut tags, tag_of("type", "token_transfer"));
    let ghost t0 = tags_view(tags@);
    match opts.amount {
        Some(a) => push_tag(&mut tags, tag_of("amount", a)),
        None => {},
    }
    let ghost t1 = tags_view(tags@);
    match opts.symbol {
        Some(s) => push_tag(&mut tags, tag_of("symbol", s)),
        None => {},
    }
    let ghost t2 = tags_view(tags@);
    match opts.reply_to_event_id {
        Some(rid) => {
            if !rid.is_empty() {
                push_tag(&mut tags, reply_tag(rid));
            }
        },
        None => {},
    }
    assert(tags_view(tags@) =~= token_tags_spec(recipient_xonly@, *opts));
    Event::create(signer, kinds::TOKEN_TRANSFER, tags, content, created_at)
}

/// True if `event` is a token transfer (kind 31113 and a `type` tag of `token_transfer`).
pub open spec fn is_token_transfer_spec(e: Event) -> bool {
    e.kind == kinds::TOKEN_TRANSFER && tag_value_spec(tags_view(e.tags@), "type"@) == Some("token_transfer"@)
}

/// True if `event` is a token transfer (kind 31113 + `type` tag).
pub fn is_token_transfer(event: &Event) -> (r: bool)
    ensures
        r == is_token_transfer_spec(*event),
{
    if event.kind != kinds::TOKEN_TRANSFER {
        return false;
    }
    match event.tag_value("type") {
        Some(t) => crate::text::str_eq(t, "token_transfer"),
        None => false,
    }
}

/// Decrypt and return the token JSON from a token-transfer event.
pub fn parse_token_transfer<S: Signer>(signer: &S, event: &Event) -> (r: Result<String>)
    ensures
        !is_token_transfer_spec(*event) ==> fails_with(r, Error::Malformed("not a token transfer")),
        is_token_transfer_spec(*event) ==> decrypt_prefixed_outcome(*signer, *event, "token_transfer:"@, "bad token_transfer prefix", r),
{
    if !is_token_transfer(event) {
        return Err(Error::Malformed("not a token transfer"));
    }
    decrypt_prefixed(signer, event, "token_transfer:", "bad token_transfer prefix")
}

/// `amount` tag value, if present.
pub fn amount(event: &Event) -> (r: Option<&str>)
    ensures
        match r {
            Some(v) => tag_value_spec(tags_view(event.tags@), "amount"@) == Some(v@),
            None => tag_value_spec(tags_view(event.tags@), "amount"@) is None,
        },
{
    event.tag_value("amount")
}

/// `symbol` tag value, if present.
pub fn symbol(event: &Event) -> (r: Option<&str>)
    ensures
        match r {
            Some(v) => tag_value_spec(tags_view(event.tags@), "symbol"@) == Some(v@),
            None => tag_value_spec(tags_view(event.tags@), "symbol"@) is None,
        },
{
    event.tag_value("symbol")
}

/// Correlated payment-request event id (`e` tag), if present.
pub fn reply_to_event_id(event: &Event) -> (r: Option<&str>)
    ensures
        match r {
            Some(v) => tag_value_spec(tags_view(event.tags@), "e"@) == Some(v@),
            None => tag_value_spec(tags_view(event.tags@), "e"@) is None,
        },
{
    event.tag_value("e")
}

/// Recipient pubkey (`p` tag), if present.
pub fn recipient(event: &Event) -> (r: Option<&str>)
    ensures
        match r {
            Some(v) => tag_value_spec(tags_view(event.tags@), "p"@) == Some(v@),
            None => tag_value_spec(tags_view(event.tags@), "p"@) is None,
        },
{
    event.tag_value("p")
}


/// Removing a prefix that was put in front gives back the rest.
pub proof fn lemma_strip_prefix_concat(prefix: Seq<char>, rest: Seq<char>)
    ensures
        strip_prefix_spec(prefix + rest, prefix) == Some(rest),
{
    assert((prefix + rest).take(prefix.len() as int) =~= prefix);
    assert((prefix + rest).skip(prefix.len() as int) =~= rest);
}

proof fn lemma_token_tags(recipient: Seq<u8>, opts: TokenTransferOptions)
    ensures
        tag_value_spec(token_tags_spec(recipient, opts), "type"@) == Some("token_transfer"@),
        tag_value_spec(token_tags_spec(recipient, opts), "p"@) == Some(hex_lower(recipient)),
{
    reveal_strlit("p");
    reveal_strlit("type");
    let tags = token_tags_spec(recipient, opts);
    assert("p"@ != "type"@) by {
        assert("p"@.len() != "type"@.len());
    }
    assert(tags[0][0] == "p"@);
    assert(tags.drop_first()[0][0] == "type"@);
    assert(crate::event::first_tag_named(tags.drop_first(), "type"@) == Some(0int));
}

/// The recipient of a token transfer reads back the token JSON: parsing the
/// event with the recipient's signer yields exactly what the sender sent.
pub proof fn lemma_token_transfer_roundtrip<S: Signer, R: Signer>(
    ev: Event,
    sender: S,
    recipient: R,
    recipient_pk: Seq<u8>,
    token_json: Seq<char>,
    opts: TokenTransferOptions,
    iv: Seq<u8>,
    created_at: i64,
    r: core::result::Result<String, Error>,
)
    requires
        is_token_transfer_of(ev, sender, recipient_pk, token_json, opts, iv, created_at),
        secp256k1_xonly(recipient.signer_secret()) == Some(recipient_pk),
        signer_pubkey_hex(recipient) != signer_pubkey_hex(sender),
        recipient.derives_nip04_secret(secp256k1_xonly(sender.signer_secret())->0),
        decrypt_prefixed_outcome(recipient, ev, "token_transfer:"@, "bad token_transfer prefix", r),
    ensures
        is_token_transfer_spec(ev),
        r is Ok && r->Ok_0@ == token_json,
{
    lemma_token_tags(recipient_pk, opts);
    let sender_pk = secp256k1_xonly(sender.signer_secret())->0;
    lemma_hex_roundtrip(sender_pk);
    assert(protocol_peer_spec(signer_pubkey_hex(recipient), ev) == Ok::<Seq<u8>, Error>(sender_pk));
    assert(shared_secret_spec(recipient.signer_secret(), sender_pk) == Ok::<Seq<u8>, Error>(
        shared_secret_spec(sender.signer_secret(), recipient_pk)->Ok_0,
    ));
    lemma_strip_prefix_concat("token_transfer:"@, token_json);
}

/// The sender of a token transfer can read it back too (the conversation peer
/// of its own event is the `p`-tagged recipient).
pub proof fn lemma_token_transfer_sender_reads<S: Signer>(
    ev: Event,
    sender: S,
    recipient_pk: Seq<u8>,
    token_json: Seq<char>,
    opts: TokenTransferOptions,
    iv: Seq<u8>,
    created_at: i64,
    r: core::result::Result<String, Error>,
)
    requires
        is_token_transfer_of(ev, sender, recipient_pk, token_json, opts, iv, created_at),
        recipient_pk.len() == 32,
        sender.derives_nip04_secret(recipient_pk),
        decrypt_prefixed_outcome(sender, ev, "token_transfer:"@, "bad token_transfer prefix", r),
    ensures
        r is Ok && r->Ok_0@ == token_json,
{
    lemma_token_tags(recipient_pk, opts);
    lemma_hex_roundtrip(recipient_pk);
    assert(protocol_peer_spec(signer_pubkey_hex(sender), ev) == Ok::<Seq<u8>, Error>(recipient_pk));
    lemma_strip_prefix_concat("token_transfer:"@, token_json);
}

/// A token transfer carries an `amount` tag exactly when an amount is given,
/// with that value, and a `symbol` tag exactly when a symbol is given, with
/// that value; each independently of the other option.
pub proof fn lemma_token_transfer_amount_symbol<S: Signer>(
    ev: Event,
    signer: S,
    recipient: Seq<u8>,
    token_json: Seq<char>,
    opts: TokenTransferOptions,
    iv: Seq<u8>,
    created_at: i64,
)
    requires
        is_token_transfer_of(ev, signer, recipient, token_json, opts, iv, created_at),
    ensures
        tag_value_spec(tags_view(ev.tags@), "amount"@) == match opts.amount {
            Some(a) => Some(a@),
            None => None::<Seq<char>>,
        },
        tag_value_spec(tags_view(ev.tags@), "symbol"@) == match opts.symbol {
            Some(x) => Some(x@),
            None => None::<Seq<char>>,
        },
{
    reveal_strlit("p");
    reveal_strlit("type");
    reveal_strlit("amount");
    reveal_strlit("symbol");
    reveal_strlit("e");
    let tags = tags_view(ev.tags@);
    assert(tags == token_tags_spec(recipient, opts));
    let na = "amount"@;
    let ns = "symbol"@;
    assert("p"@ != na && "type"@ != na && ns != na && "e"@ != na) by {
        assert("p"@.len() != na.len() && "type"@.len() != na.len() && "e"@.len() != na.len());
        assert(ns[0] != na[0]);
    }
    assert("p"@ != ns && "type"@ != ns && na != ns && "e"@ != ns) by {
        assert("p"@.len() != ns.len() && "type"@.len() != ns.len() && "e"@.len() != ns.len());
        assert(ns[0] != na[0]);
    }
    let na_idx: int = 2;
    let ns_idx: int = if opts.amount is Some { 3 } else { 2 };
    assert(tags[0][0] == "p"@);
    assert(tags[1][0] == "type"@);
    assert forall|j: int| 0 <= j < tags.len() && j != na_idx && j != ns_idx implies #[trigger] tags[j].len() > 0
        && tags[j][0] != na && tags[j][0] != ns by {
        if j >= 2 {
            assert(tags[j] == reply_tag_spec(match opts.reply_to_event_id { Some(r) => r@, None => Seq::empty() }));
        }
    }
    match opts.amount {
        Some(a) => {
            assert(tags[2] == seq![na, a@]);
            crate::event::lemma_first_tag_at(tags, na, 2);
        },
        None => {
            assert forall|j: int| 0 <= j < tags.len() implies #[trigger] tags[j].len() == 0 || tags[j][0] != na by {
                if j == ns_idx && opts.symbol is Some {
                    assert(tags[j][0] == ns);
                }
            }
            crate::event::lemma_first_tag_none(tags, na);
        },
    }
    match opts.symbol {
        Some(x) => {
            assert(tags[ns_idx] == seq![ns, x@]);
            assert forall|j: int| 0 <= j < ns_idx implies #[trigger] tags[j].len() == 0 || tags[j][0] != ns by {
                if j == 2 && opts.amount is Some {
                    assert(tags[j][0] == na);
                }
            }
            crate::event::lemma_first_tag_at(tags, ns, ns_idx);
        },
        None => {
            assert forall|j: int| 0 <= j < tags.len() implies #[trigger] tags[j].len() == 0 || tags[j][0] != ns by {
                if j == 2 && opts.amount is Some {
                    assert(tags[j][0] == na);
                }
            }
            crate::event::lemma_first_tag_none(tags, ns);
        },
    }
}

} // verus!
