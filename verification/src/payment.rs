//! Unicity payment-request messaging over Nostr (kinds 31115 / 31116).
//! NIP-04-encrypted content prefixed `payment_request:` /
//! `payment_request_response:`, routed through the [`Signer`].
//!
//! Request ids, deadlines and IVs are supplied by the caller (a secure RNG and
//! the system clock in production), keeping the crate RNG- and clock-free.
use vstd::prelude::*;
use vstd::utf8::*;

use crate::binding::{millis_saturating, opt_view};
use crate::crypto::nip04::{self, decrypt_with_secret_spec, shared_secret_spec};
use crate::crypto::secp::secp256k1_xonly;
use crate::error::{some_decode_error, Error, Result};
use crate::event::{id_digest, is_valid_event, signer_pubkey_hex, tag_value_spec, Event, Tag};
use crate::hex::{self as hexenc, hex_lower};
use crate::json::{
    decimal_int, decimal_nat, i64_member, json_i64_member, json_object, json_parses, json_quoted, json_string_member, member_key,
    object_of, parses_as_json, push_decimal_i64, push_key, push_member, string_member, string_member_text, strs_view,
    tags_view,
};
use crate::kinds;
use crate::nip17::fails_with;
use crate::protocol::{
    decrypt_prefixed, decrypt_prefixed_outcome, nip04_content, protocol_peer_spec, push_tag, reply_tag, reply_tag_spec, tag_of,
};
use crate::token::lemma_strip_prefix_concat;
use crate::hex::lemma_hex_roundtrip;
use crate::signer::Signer;
use crate::text::{lemma_encode_ascii, push_str, str_eq};

verus! {

/// Response status for a declined or expired payment request.
#[derive(Clone, Copy, Debug, PartialEq, Eq, Structural)]
pub enum ResponseStatus {
    /// Declined by the recipient.
    Declined,
    /// The request deadline passed.
    Expired,
}

/// The wire text of a status.
pub open spec fn status_wire(s: ResponseStatus) -> Seq<char> {
    match s {
        ResponseStatus::Declined => "DECLINED"@,
        ResponseStatus::Expired => "EXPIRED"@,
    }
}

/// The status with the given wire text.
pub open spec fn status_from_wire(s: Seq<char>) -> Option<ResponseStatus> {
    if s == "DECLINED"@ {
        Some(ResponseStatus::Declined)
    } else if s == "EXPIRED"@ {
        Some(ResponseStatus::Expired)
    } else {
        None
    }
}

impl ResponseStatus {
    /// Wire string (`DECLINED` / `EXPIRED`).
    pub fn as_str(self) -> (r: &'static str)
        ensures
            r@ == status_wire(self),
    {
        match self {
            ResponseStatus::Declined => "DECLINED",
            ResponseStatus::Expired => "EXPIRED",
        }
    }

    /// Parse from the wire string.
    pub fn from_wire(s: &str) -> (r: Option<Self>)
        ensures
            r == status_from_wire(s@),
    {
        if str_eq(s, "DECLINED") {
            Some(ResponseStatus::Declined)
        } else if str_eq(s, "EXPIRED") {
            Some(ResponseStatus::Expired)
        } else {
            None
        }
    }
}

/// A status reads back from its wire text.
pub proof fn lemma_status_wire_roundtrip(s: ResponseStatus)
    ensures
        status_from_wire(status_wire(s)) == Some(s),
{
    reveal_strlit("DECLINED");
    reveal_strlit("EXPIRED");
    assert("DECLINED"@ != "EXPIRED"@) by {
        assert("DECLINED"@.len() != "EXPIRED"@.len());
    }
}

/// Parameters for a payment-request response.
#[derive(Clone, Debug)]
pub struct PaymentResponseParams<'a> {
    /// The request id being responded to.
    pub request_id: &'a str,
    /// The original request event id (adds an `e` reply tag).
    pub original_event_id: &'a str,
    /// Response status.
    pub status: ResponseStatus,
    /// Optional reason.
    pub reason: Option<&'a str>,
}

/// Parameters for a payment request. `amount` is a decimal string (smallest
/// units); `request_id` and `deadline` (ms, `None` = no deadline) come from the caller.
#[derive(Clone, Debug)]
pub struct PaymentRequestParams<'a> {
    /// Amount in smallest units (decimal string).
    pub amount: &'a str,
    /// Coin id (hex token-type identifier).
    pub coin_id: &'a str,
    /// Optional human-readable message.
    pub message: Option<&'a str>,
    /// Nametag where tokens should be sent (the requester's).
    pub recipient_nametag: &'a str,
    /// Unique request id (caller-generated).
    pub request_id: &'a str,
    /// Deadline (ms since epoch); `None` = no deadline (serialized as `null`).
    pub deadline: Option<i64>,
}

/// A decrypted payment request.
#[derive(Clone, Debug, PartialEq, Eq)]
pub struct ParsedPaymentRequest {
    /// Amount (decimal string, smallest units).
    pub amount: String,
    /// Coin id.
    pub coin_id: String,
    /// Optional message.
    pub message: Option<String>,
    /// Requester's nametag.
    pub recipient_nametag: String,
    /// Request id.
    pub request_id: String,
    /// Sender (requester) pubkey (hex).
    pub sender_pubkey: String,
    /// Event timestamp (ms).
    pub timestamp: i64,
    /// Event id.
    pub event_id: String,
    /// Deadline (ms), or `None`.
    pub deadline: Option<i64>,
}

/// A decrypted payment-request response.
#[derive(Clone, Debug, PartialEq, Eq)]
pub struct ParsedPaymentRequestResponse {
    /// Original request id.
    pub request_id: String,
    /// Original request event id.
    pub original_event_id: String,
    /// Status.
    pub status: ResponseStatus,
    /// Optional reason.
    pub reason: Option<String>,
    /// Responder pubkey (hex).
    pub sender_pubkey: String,
    /// Response event id.
    pub event_id: String,
    /// Event timestamp (ms).
    pub timestamp: i64,
}

/// The character view of an optional string slice.
pub open spec fn opt_str_view(o: Option<&str>) -> Option<Seq<char>> {
    match o {
        Some(s) => Some(s@),
        None => None,
    }
}

/// A string member when the value is present.
pub open spec fn optional_member(key: Seq<char>, value: Option<Seq<char>>) -> Seq<Seq<char>> {
    match value {
        Some(v) => seq![member_key(key) + json_quoted(v)],
        None => seq![],
    }
}

/// The JSON of a payment request: `amount`, `coinId`, `message` (when
/// given), `recipientNametag`, `requestId`, `deadline` (a number or `null`).
pub open spec fn request_json(p: PaymentRequestParams) -> Seq<char> {
    json_object(
        seq![member_key("amount"@) + json_quoted(p.amount@), member_key("coinId"@) + json_quoted(p.coin_id@)]
            + optional_member("message"@, opt_str_view(p.message)) + seq![
            member_key("recipientNametag"@) + json_quoted(p.recipient_nametag@),
            member_key("requestId"@) + json_quoted(p.request_id@),
            member_key("deadline"@) + match p.deadline {
                Some(d) => decimal_int(d as int),
                None => "null"@,
            },
        ],
    )
}

/// The JSON of a payment-request response: `requestId`, `originalEventId`,
/// `status`, `reason` (when given).
pub open spec fn response_json(p: PaymentResponseParams) -> Seq<char> {
    json_object(
        seq![
            member_key("requestId"@) + json_quoted(p.request_id@),
            member_key("originalEventId"@) + json_quoted(p.original_event_id@),
            member_key("status"@) + json_quoted(status_wire(p.status)),
        ] + optional_member("reason"@, opt_str_view(p.reason)),
    )
}

fn push_optional_member(members: &mut Vec<String>, key: &str, value: Option<&str>)
    ensures
        strs_view(final(members)@) == strs_view(old(members)@) + optional_member(key@, opt_str_view(value)),
{
    let ghost m0 = strs_view(members@);
    match value {
        Some(v) => push_member(members, string_member_text(key, v)),
        None => {},
    }
    assert(strs_view(members@) =~= m0 + optional_member(key@, opt_str_view(value)));
}

fn request_json_text(p: &PaymentRequestParams) -> (s: String)
    ensures
        s@ == request_json(*p),
{
    let mut members: Vec<String> = Vec::new();
    assert(strs_view(members@) =~= Seq::<Seq<char>>::empty());
    push_member(&mut members, string_member_text("amount", p.amount));
    push_member(&mut members, string_member_text("coinId", p.coin_id));
    push_optional_member(&mut members, "message", p.message);
    push_member(&mut members, string_member_text("recipientNametag", p.recipient_nametag));
    push_member(&mut members, string_member_text("requestId", p.request_id));
    let mut d = String::new();
    push_key(&mut d, "deadline");
    match p.deadline {
        Some(v) => push_decimal_i64(&mut d, v),
        None => push_str(&mut d, "null"),
    }
    push_member(&mut members, d);
    assert(strs_view(members@) =~= seq![
        member_key("amount"@) + json_quoted(p.amount@),
        member_key("coinId"@) + json_quoted(p.coin_id@),
    ] + optional_member("message"@, opt_str_view(p.message)) + seq![
        member_key("recipientNametag"@) + json_quoted(p.recipient_nametag@),
        member_key("requestId"@) + json_quoted(p.request_id@),
        member_key("deadline"@) + match p.deadline {
            Some(d) => decimal_int(d as int),
            None => "null"@,
        },
    ]);
    object_of(members.as_slice())
}

fn response_json_text(p: &PaymentResponseParams) -> (s: String)
    ensures
        s@ == response_json(*p),
{
    let mut members: Vec<String> = Vec::new();
    assert(strs_view(members@) =~= Seq::<Seq<char>>::empty());
    push_member(&mut members, string_member_text("requestId", p.request_id));
    push_member(&mut members, string_member_text("originalEventId", p.original_event_id));
    push_member(&mut members, string_member_text("status", p.status.as_str()));
    push_optional_member(&mut members, "reason", p.reason);
    assert(strs_view(members@) =~= seq![
        member_key("requestId"@) + json_quoted(p.request_id@),
        member_key("originalEventId"@) + json_quoted(p.original_event_id@),
        member_key("status"@) + json_quoted(status_wire(p.status)),
    ] + optional_member("reason"@, opt_str_view(p.reason)));
    object_of(members.as_slice())
}

/// The plaintext of a payment request.
pub open spec fn request_message(p: PaymentRequestParams) -> Seq<char> {
    "payment_request:"@ + request_json(p)
}

/// The plaintext of a payment-request response.
pub open spec fn response_message(p: PaymentResponseParams) -> Seq<char> {
    "payment_request_response:"@ + response_json(p)
}

/// The tags of a payment request: `p`, `type`, `amount`, and `recipient`
/// when the nametag is non-empty.
pub open spec fn request_tags_spec(target: Seq<u8>, p: PaymentRequestParams) -> Seq<Seq<Seq<char>>> {
    seq![seq!["p"@, hex_lower(target)], seq!["type"@, "payment_request"@], seq!["amount"@, p.amount@]]
        + if p.recipient_nametag@.len() > 0 {
        seq![seq!["recipient"@, p.recipient_nametag@]]
    } else {
        seq![]
    }
}

/// The tags of a response: `p`, `type`, `status`, and a reply tag when the
/// original event id is non-empty.
pub open spec fn response_tags_spec(target: Seq<u8>, p: PaymentResponseParams) -> Seq<Seq<Seq<char>>> {
    seq![seq!["p"@, hex_lower(target)], seq!["type"@, "payment_request_response"@], seq!["status"@, status_wire(p.status)]]
        + if p.original_event_id@.len() > 0 {
        seq![reply_tag_spec(p.original_event_id@)]
    } else {
        seq![]
    }
}

/// `ev` is an event of `kind` from `signer` to `target` carrying `message`
/// NIP-04-encrypted, with the given tags.
pub open spec fn is_encrypted_event_of<S: Signer>(
    ev: Event,
    signer: S,
    target: Seq<u8>,
    kind: u32,
    tags: Seq<Seq<Seq<char>>>,
    message: Seq<char>,
    iv: Seq<u8>,
    created_at: i64,
) -> bool {
    let secret = shared_secret_spec(signer.signer_secret(), target)->Ok_0;
    &&& ev.pubkey@ == signer_pubkey_hex(signer)
    &&& secp256k1_xonly(signer.signer_secret())->0.len() == 32
    &&& ev.kind == kind
    &&& ev.created_at == created_at
    &&& tags_view(ev.tags@) == tags
    &&& shared_secret_spec(signer.signer_secret(), target) is Ok
    &&& nip04_content(secret, iv, message) == Some(ev.content@)
    &&& decrypt_with_secret_spec(secret, ev.content@) == Ok::<Seq<char>, Error>(message)
    &&& is_valid_event(ev)
    &&& forall|other: Seq<u8>| #[trigger] secp256k1_xonly(other) == Some(target)
        ==> shared_secret_spec(other, secp256k1_xonly(signer.signer_secret())->0) == Ok::<Seq<u8>, Error>(secret)
}

/// When encrypting `message` for `target` and signing succeed.
pub open spec fn encrypted_event_outcome<S: Signer>(
    signer: S,
    target: Seq<u8>,
    kind: u32,
    tags: Seq<Seq<Seq<char>>>,
    message: Seq<char>,
    iv: Seq<u8>,
    created_at: i64,
    r: core::result::Result<Event, Error>,
) -> bool {
    &&& !signer.derives_nip04_secret(target) ==> r is Err
    &&& signer.derives_nip04_secret(target) ==> match nip04_content(shared_secret_spec(signer.signer_secret(), target)->Ok_0, iv, message) {
        None => r matches Err(Error::Gzip(_)),
        Some(c) => r is Ok <==> signer.signs(id_digest(signer_pubkey_hex(signer), created_at, kind, tags, c)),
    }
    &&& r is Ok ==> is_encrypted_event_of(r->Ok_0, signer, target, kind, tags, message, iv, created_at)
}

fn create_encrypted_event<S: Signer>(
    signer: &S,
    target_xonly: &[u8; 32],
    kind: u32,
    tags: Vec<Tag>,
    message: &str,
    iv: &[u8; 16],
    created_at: i64,
) -> (r: Result<Event>)
    ensures
        encrypted_event_outcome(*signer, target_xonly@, kind, tags_view(tags@), message@, iv@, created_at, r),
{
    let secret = match signer.nip04_shared_secret(target_xonly) {
        Ok(s) => s,
        Err(e) => return Err(e),
    };
    let content = match nip04::encrypt_auto_with_secret_iv(&secret, iv, message) {
        Ok(c) => c,
        Err(e) => return Err(e),
    };
    Event::create(signer, kind, tags, content, created_at)
}

/// Build a signed payment-request event (kind 31115). It fails when the
/// signer does not derive the shared secret or sign, or when compression fails.
pub fn create_payment_request_event<S: Signer>(
    signer: &S,
    target_xonly: &[u8; 32],
    params: &PaymentRequestParams,
    iv: &[u8; 16],
    created_at: i64,
) -> (r: Result<Event>)
    ensures
        encrypted_event_outcome(
            *signer,
            target_xonly@,
            kinds::PAYMENT_REQUEST,
            request_tags_spec(target_xonly@, *params),
            request_message(*params),
            iv@,
            created_at,
            r,
        ),
{
    let json = request_json_text(params);
    let mut message = String::from_str("payment_request:");
    push_str(&mut message, json.as_str());
    let mut tags: Vec<Tag> = Vec::new();
    assert(tags_view(tags@) =~= Seq::<Seq<Seq<char>>>::empty());
    let target_hex = hexenc::encode(target_xonly.as_slice());
    push_tag(&mut tags, tag_of("p", target_hex.as_str()));
    push_tag(&mut tags, tag_of("type", "payment_request"));
    push_tag(&mut tags, tag_of("amount", params.amount));
    if !params.recipient_nametag.is_empty() {
        push_tag(&mut tags, tag_of("recipient", params.recipient_nametag));
    }
    assert(tags_view(tags@) =~= request_tags_spec(target_xonly@, *params));
    create_encrypted_event(signer, target_xonly, kinds::PAYMENT_REQUEST, tags, message.as_str(), iv, created_at)
}

/// Build a signed payment-request response event (kind 31116). It fails when
/// the signer does not derive the shared secret or sign, or when compression fails.
pub fn create_payment_request_response_event<S: Signer>(
    signer: &S,
    target_xonly: &[u8; 32],
    params: &PaymentResponseParams,
    iv: &[u8; 16],
    created_at: i64,
) -> (r: Result<Event>)
    ensures
        encrypted_event_outcome(
            *signer,
            target_xonly@,
            kinds::PAYMENT_REQUEST_RESPONSE,
            response_tags_spec(target_xonly@, *params),
            response_message(*params),
            iv@,
            created_at,
            r,
        ),
{
    let json = response_json_text(params);
    let mut message = String::from_str("payment_request_response:");
    push_str(&mut message, json.as_str());
    let mut tags: Vec<Tag> = Vec::new();
    assert(tags_view(tags@) =~= Seq::<Seq<Seq<char>>>::empty());
    let target_hex = hexenc::encode(target_xonly.as_slice());
    push_tag(&mut tags, tag_of("p", target_hex.as_str()));
    push_tag(&mut tags, tag_of("type", "payment_request_response"));
    push_tag(&mut tags, tag_of("status", params.status.as_str()));
    if !params.original_event_id.is_empty() {
        push_tag(&mut tags, reply_tag(params.original_event_id));
    }
    assert(tags_view(tags@) =~= response_tags_spec(target_xonly@, *params));
    create_encrypted_event(signer, target_xonly, kinds::PAYMENT_REQUEST_RESPONSE, tags, message.as_str(), iv, created_at)
}

/// A payment request: kind 31115 and a `type` tag of `payment_request`.
pub open spec fn is_payment_request_spec(e: Event) -> bool {
    e.kind == kinds::PAYMENT_REQUEST && tag_value_spec(tags_view(e.tags@), "type"@) == Some("payment_request"@)
}

/// A payment-request response: kind 31116 and a `type` tag of `payment_request_response`.
pub open spec fn is_payment_request_response_spec(e: Event) -> bool {
    e.kind == kinds::PAYMENT_REQUEST_RESPONSE && tag_value_spec(tags_view(e.tags@), "type"@) == Some(
        "payment_request_response"@,
    )
}

/// True if `event` is a payment request (kind 31115 + `type` tag).
pub fn is_payment_request(event: &Event) -> (r: bool)
    ensures
        r == is_payment_request_spec(*event),
{
    if event.kind != kinds::PAYMENT_REQUEST {
        return false;
    }
    match event.tag_value("type") {
        Some(t) => str_eq(t, "payment_request"),
        None => false,
    }
}

/// True if `event` is a payment-request response (kind 31116 + `type` tag).
pub fn is_payment_request_response(event: &Event) -> (r: bool)
    ensures
        r == is_payment_request_response_spec(*event),
{
    if event.kind != kinds::PAYMENT_REQUEST_RESPONSE {
        return false;
    }
    match event.tag_value("type") {
        Some(t) => str_eq(t, "payment_request_response"),
        None => false,
    }
}

/// What reading a decrypted request JSON gives: a decode error when it is
/// not JSON, a missing-field error when `amount`, `coinId` or `requestId` is
/// not a string, otherwise the request.
pub open spec fn request_fields_outcome(json: Seq<char>, e: Event, r: core::result::Result<ParsedPaymentRequest, Error>) -> bool {
    if !json_parses(json) {
        fails_with(r, some_decode_error())
    } else if json_string_member(json, "amount"@) is None || json_string_member(json, "coinId"@) is None
        || json_string_member(json, "requestId"@) is None {
        fails_with(r, Error::Malformed("missing json field"))
    } else {
        &&& r is Ok
        &&& r->Ok_0.amount@ == json_string_member(json, "amount"@)->0
        &&& r->Ok_0.coin_id@ == json_string_member(json, "coinId"@)->0
        &&& opt_view(r->Ok_0.message) == json_string_member(json, "message"@)
        &&& r->Ok_0.recipient_nametag@ == match json_string_member(json, "recipientNametag"@) {
            Some(n) => n,
            None => Seq::<char>::empty(),
        }
        &&& r->Ok_0.request_id@ == json_string_member(json, "requestId"@)->0
        &&& r->Ok_0.sender_pubkey@ == e.pubkey@
        &&& r->Ok_0.timestamp == millis_saturating(e.created_at)
        &&& r->Ok_0.event_id@ == e.id@
        &&& r->Ok_0.deadline == json_i64_member(json, "deadline"@)
    }
}

fn required_member(json: &str, key: &str) -> (r: Result<String>)
    ensures
        match json_string_member(json@, key@) {
            Some(v) => r is Ok && r->Ok_0@ == v,
            None => r is Err && r->Err_0 == Error::Malformed("missing json field"),
        },
{
    match string_member(json, key) {
        Some(v) => Ok(v),
        None => Err(Error::Malformed("missing json field")),
    }
}

fn json_error(what: &str) -> (e: Error)
    ensures
        e is Decode,
{
    let mut m = String::from_str(what);
    push_str(&mut m, " json: invalid");
    Error::Decode(m)
}

fn millis(secs: i64) -> (r: i64)
    ensures
        r == millis_saturating(secs),
{
    if secs > i64::MAX / 1000 {
        i64::MAX
    } else if secs < i64::MIN / 1000 {
        i64::MIN
    } else {
        secs * 1000
    }
}

/// Decrypt and parse a payment-request event.
#[verifier::rlimit(50)]
pub fn parse_payment_request<S: Signer>(signer: &S, event: &Event) -> (r: Result<ParsedPaymentRequest>)
    ensures
        !is_payment_request_spec(*event) ==> fails_with(r, Error::Malformed("not a payment request")),
        is_payment_request_spec(*event) ==> exists|d: core::result::Result<String, Error>|
            #[trigger] decrypt_prefixed_outcome(*signer, *event, "payment_request:"@, "bad payment prefix", d) && match d {
                Err(e) => r is Err && (r->Err_0 == e),
                Ok(json) => request_fields_outcome(json@, *event, r),
            },
{
    if !is_payment_request(event) {
        return Err(Error::Malformed("not a payment request"));
    }
    let d = decrypt_prefixed(signer, event, "payment_request:", "bad payment prefix");
    let json = match d {
        Ok(j) => j,
        Err(e) => return Err(e),
    };
    let j = json.as_str();
    if !parses_as_json(j) {
        return Err(json_error("request"));
    }
    let amount = match required_member(j, "amount") {
        Ok(v) => v,
        Err(e) => return Err(e),
    };
    let coin_id = match required_member(j, "coinId") {
        Ok(v) => v,
        Err(e) => return Err(e),
    };
    let message = string_member(j, "message");
    let recipient_nametag = match string_member(j, "recipientNametag") {
        Some(v) => v,
        None => String::new(),
    };
    let request_id = match required_member(j, "requestId") {
        Ok(v) => v,
        Err(e) => return Err(e),
    };
    let deadline = i64_member(j, "deadline");
    Ok(ParsedPaymentRequest {
        amount,
        coin_id,
        message,
        recipient_nametag,
        request_id,
        sender_pubkey: event.pubkey.clone(),
        timestamp: millis(event.created_at),
        event_id: event.id.clone(),
        deadline,
    })
}

/// What reading a decrypted response JSON gives: a decode error when it is
/// not JSON; a missing-field error when `status` is not a string; an
/// unknown-status error for another status; a missing-field error when
/// `requestId` or `originalEventId` is not a string; otherwise the response.
pub open spec fn response_fields_outcome(json: Seq<char>, e: Event, r: core::result::Result<ParsedPaymentRequestResponse, Error>) -> bool {
    if !json_parses(json) {
        fails_with(r, some_decode_error())
    } else if json_string_member(json, "status"@) is None {
        fails_with(r, Error::Malformed("missing json field"))
    } else if status_from_wire(json_string_member(json, "status"@)->0) is None {
        fails_with(r, Error::Malformed("unknown response status"))
    } else if json_string_member(json, "requestId"@) is None || json_string_member(json, "originalEventId"@) is None {
        fails_with(r, Error::Malformed("missing json field"))
    } else {
        &&& r is Ok
        &&& r->Ok_0.request_id@ == json_string_member(json, "requestId"@)->0
        &&& r->Ok_0.original_event_id@ == json_string_member(json, "originalEventId"@)->0
        &&& Some(r->Ok_0.status) == status_from_wire(json_string_member(json, "status"@)->0)
        &&& opt_view(r->Ok_0.reason) == json_string_member(json, "reason"@)
        &&& r->Ok_0.sender_pubkey@ == e.pubkey@
        &&& r->Ok_0.event_id@ == e.id@
        &&& r->Ok_0.timestamp == millis_saturating(e.created_at)
    }
}

/// Decrypt and parse a payment-request response event.
#[verifier::rlimit(50)]
pub fn parse_payment_request_response<S: Signer>(signer: &S, event: &Event) -> (r: Result<ParsedPaymentRequestResponse>)
    ensures
        event.kind != kinds::PAYMENT_REQUEST_RESPONSE ==> fails_with(r, Error::Malformed("not a payment request response")),
        event.kind == kinds::PAYMENT_REQUEST_RESPONSE ==> exists|d: core::result::Result<String, Error>|
            #[trigger] decrypt_prefixed_outcome(*signer, *event, "payment_request_response:"@, "bad payment prefix", d) && match d {
                Err(e) => r is Err && (r->Err_0 == e),
                Ok(json) => response_fields_outcome(json@, *event, r),
            },
{
    if event.kind != kinds::PAYMENT_REQUEST_RESPONSE {
        return Err(Error::Malformed("not a payment request response"));
    }
    let d = decrypt_prefixed(signer, event, "payment_request_response:", "bad payment prefix");
    let json = match d {
        Ok(j) => j,
        Err(e) => return Err(e),
    };
    let j = json.as_str();
    if !parses_as_json(j) {
        return Err(json_error("response"));
    }
    let status_text = match required_member(j, "status") {
        Ok(v) => v,
        Err(e) => return Err(e),
    };
    let status = match ResponseStatus::from_wire(status_text.as_str()) {
        Some(s) => s,
        None => return Err(Error::Malformed("unknown response status")),
    };
    let request_id = match required_member(j, "requestId") {
        Ok(v) => v,
        Err(e) => return Err(e),
    };
    let original_event_id = match required_member(j, "originalEventId") {
        Ok(v) => v,
        Err(e) => return Err(e),
    };
    Ok(ParsedPaymentRequestResponse {
        request_id,
        original_event_id,
        status,
        reason: string_member(j, "reason"),
        sender_pubkey: event.pubkey.clone(),
        event_id: event.id.clone(),
        timestamp: millis(event.created_at),
    })
}


/// `10^d`.
pub open spec fn pow10(d: nat) -> nat
    decreases d,
{
    if d == 0 {
        1
    } else {
        10 * pow10((d - 1) as nat)
    }
}

/// `k` zero characters.
pub open spec fn zeros(k: nat) -> Seq<char> {
    Seq::new(k, |i: int| '0')
}

/// `s` left-padded with zeros to width `w`.
pub open spec fn zero_pad(s: Seq<char>, w: nat) -> Seq<char> {
    if s.len() < w {
        zeros((w - s.len()) as nat) + s
    } else {
        s
    }
}

/// `s` without its trailing zeros.
pub open spec fn trim_zeros_end(s: Seq<char>) -> Seq<char>
    decreases s.len(),
{
    if s.len() > 0 && s.last() == '0' {
        trim_zeros_end(s.drop_last())
    } else {
        s
    }
}

/// `amount` smallest units as a decimal with `decimals` places, trailing
/// zeros (and a bare point) dropped.
pub open spec fn format_amount_spec(amount: nat, decimals: nat) -> Seq<char> {
    let div = pow10(decimals);
    if amount % div == 0 {
        decimal_nat(amount / div)
    } else {
        decimal_nat(amount / div) + seq!['.'] + trim_zeros_end(zero_pad(decimal_nat(amount % div), decimals))
    }
}

fn pow10_u128(d: u32) -> (r: u128)
    requires
        d <= 38,
    ensures
        r == pow10(d as nat),
{
    let mut r: u128 = 1;
    let mut i: u32 = 0;
    proof {
        lemma_pow10_38();
    }
    while i < d
        invariant
            i <= d <= 38,
            r == pow10(i as nat),
            pow10(38) == 100000000000000000000000000000000000000nat,
        decreases d - i,
    {
        proof {
            lemma_pow10_mono((i + 1) as nat, 38);
        }
        r = r * 10;
        i = i + 1;
    }
    r
}

proof fn lemma_pow10_38()
    ensures
        pow10(38) == 100000000000000000000000000000000000000nat,
{
    reveal_with_fuel(pow10, 39);
}

/// `10^x <= 10^y` for `x <= y`.
pub proof fn lemma_pow10_mono(x: nat, y: nat)
    requires
        x <= y,
    ensures
        pow10(x) <= pow10(y),
        pow10(x) >= 1,
    decreases y,
{
    if y > x {
        lemma_pow10_mono(x, (y - 1) as nat);
    } else if x > 0 {
        lemma_pow10_mono((x - 1) as nat, (x - 1) as nat);
    }
}

/// Format `amount` (smallest units) as a decimal string with `decimals`
/// places, trailing zeros trimmed.
#[verifier::rlimit(50)]
pub fn format_amount(amount: u128, decimals: u32) -> (r: String)
    requires
        decimals <= 38,
    ensures
        r@ == format_amount_spec(amount as nat, decimals as nat),
{
    let divisor = pow10_u128(decimals);
    proof {
        lemma_pow10_mono(0, decimals as nat);
    }
    let whole = amount / divisor;
    let frac = amount % divisor;
    let mut s = crate::json::decimal_string(whole);
    if frac == 0 {
        return s;
    }
    let fd = crate::json::decimal_string(frac);
    let fcs = crate::text::chars_of(fd.as_str());
    let len = fcs.len();
    let w = decimals as usize;
    let mut padded: Vec<char> = Vec::new();
    if len < w {
        for i in 0..(w - len)
            invariant
                padded@ == zeros(i as nat),
        {
            padded.push('0');
            assert(padded@ =~= zeros((i + 1) as nat));
        }
    }
    let ghost zs = padded@;
    for i in 0..len
        invariant
            len == fcs@.len(),
            padded@ == zs + fcs@.take(i as int),
    {
        padded.push(fcs[i]);
        assert(padded@ =~= zs + fcs@.take(i + 1));
    }
    assert(fcs@.take(len as int) == fcs@);
    assert(padded@ == zero_pad(decimal_nat(frac as nat), decimals as nat)) by {
        if len < w {
            assert(zs == zeros((w - len) as nat));
        } else {
            assert(zs == Seq::<char>::empty());
            assert(zs + fcs@ =~= fcs@);
        }
    }
    let mut end = padded.len();
    assert(padded@.take(end as int) == padded@);
    while end > 0 && padded[end - 1] == '0'
        invariant
            end <= padded@.len(),
            trim_zeros_end(padded@) == trim_zeros_end(padded@.take(end as int)),
        decreases end,
    {
        assert(padded@.take(end as int).drop_last() == padded@.take(end - 1));
        end = end - 1;
    }
    crate::text::push_char(&mut s, '.');
    let t = crate::text::string_from_chars(&padded.as_slice()[0..end]);
    assert(t@ == padded@.take(end as int));
    push_str(&mut s, t.as_str());
    s
}

/// An ASCII digit byte.
pub open spec fn is_digit_byte(b: u8) -> bool {
    48 <= b <= 57
}

/// The value of a run of decimal digit bytes.
pub open spec fn digits_value(b: Seq<u8>) -> nat
    decreases b.len(),
{
    if b.len() == 0 {
        0
    } else {
        digits_value(b.drop_last()) * 10 + (b.last() - 48) as nat
    }
}

/// `u128::from_str` on bytes: an optional `+`, then one or more digits,
/// within range.
pub open spec fn parse_u128_spec(b: Seq<u8>) -> Option<nat> {
    let digits = unsigned_digits(b);
    if digits.len() > 0 && all_digits(digits) && digits_value(digits) <= u128::MAX {
        Some(digits_value(digits))
    } else {
        None
    }
}

/// The digits of an unsigned number text: without a leading `+`.
pub open spec fn unsigned_digits(b: Seq<u8>) -> Seq<u8> {
    if b.len() > 0 && b[0] == 43u8 {
        b.drop_first()
    } else {
        b
    }
}

/// Every byte is a decimal digit.
pub open spec fn all_digits(b: Seq<u8>) -> bool {
    forall|i: int| 0 <= i < b.len() ==> is_digit_byte(#[trigger] b[i])
}

/// `i` is the first `.` byte of `b`.
pub open spec fn first_dot_at(b: Seq<u8>, i: int) -> bool {
    0 <= i < b.len() && b[i] == 46u8 && forall|j: int| 0 <= j < i ==> b[j] != 46u8
}

/// The whole and fraction parts of an amount text (split at the first `.`).
pub open spec fn amount_parts(b: Seq<u8>) -> (Seq<u8>, Seq<u8>) {
    if exists|i: int| first_dot_at(b, i) {
        let i = choose|i: int| first_dot_at(b, i);
        (b.take(i), b.skip(i + 1))
    } else {
        (b, Seq::<u8>::empty())
    }
}

/// The fraction cut to `d` digits, or padded with zeros to `d` digits.
pub open spec fn fraction_digits(f: Seq<u8>, d: nat) -> Seq<u8> {
    if f.len() < d {
        f + Seq::new((d - f.len()) as nat, |i: int| 48u8)
    } else {
        f.take(d as int)
    }
}

/// The byte length `d` is a character boundary of the fraction (or beyond it).
pub open spec fn cut_at_boundary(f: Seq<u8>, d: nat) -> bool {
    f.len() <= d || f[d as int] < 128 || f[d as int] >= 192
}

/// Parsing a decimal amount into smallest units with `d` places.
pub open spec fn parse_amount_spec(s: Seq<char>, d: nat) -> core::result::Result<nat, Error> {
    let (w, f) = amount_parts(encode_utf8(s));
    let whole = if w.len() == 0 { Some(0nat) } else { parse_u128_spec(w) };
    match whole {
        None => Err(Error::Malformed("bad amount")),
        Some(wv) => {
            let padded = fraction_digits(f, d);
            let fv = if padded.len() == 0 { Some(0nat) } else { parse_u128_spec(padded) };
            match fv {
                None => Err(Error::Malformed("bad amount fraction")),
                Some(x) => Ok(wv * pow10(d) + x),
            }
        },
    }
}

fn parse_u128_bytes(b: &[u8]) -> (r: Option<u128>)
    ensures
        match r {
            Some(v) => parse_u128_spec(b@) == Some(v as nat),
            None => parse_u128_spec(b@) is None,
        },
{
    let n = b.len();
    let start: usize = if n > 0 && b[0] == 43u8 { 1 } else { 0 };
    let ghost digits = unsigned_digits(b@);
    assert(digits == b@.skip(start as int));
    if start == n {
        return None;
    }
    let mut acc: u128 = 0;
    let mut overflow = false;
    let mut i = start;
    while i < n
        invariant
            start <= i <= n,
            n == b@.len(),
            digits == b@.skip(start as int),
            digits == unsigned_digits(b@),
            forall|k: int| 0 <= k < i - start ==> is_digit_byte(#[trigger] digits[k]),
            !overflow ==> acc == digits_value(digits.take(i - start)),
            overflow ==> digits_value(digits.take(i - start)) > u128::MAX,
        decreases n - i,
    {
        let c = b[i];
        if c < 48u8 || c > 57u8 {
            assert(digits[i - start] == b@[i as int]);
            assert(!is_digit_byte(digits[i - start]));
            return None;
        }
        let dv = (c - 48u8) as u128;
        let ghost prev = digits.take(i - start);
        assert(digits.take(i - start + 1).drop_last() == prev);
        assert(digits.take(i - start + 1).last() == c);
        if !overflow {
            if acc > (u128::MAX - dv) / 10 {
                overflow = true;
                assert(acc * 10 + dv > u128::MAX) by (nonlinear_arith)
                    requires acc > (u128::MAX - dv) / 10, dv <= 9;
            } else {
                assert(acc * 10 + dv <= u128::MAX) by (nonlinear_arith)
                    requires acc <= (u128::MAX - dv) / 10, dv <= 9;
                acc = acc * 10 + dv;
            }
        } else {
            assert(digits_value(prev) * 10 + dv >= digits_value(prev)) by (nonlinear_arith);
        }
        i = i + 1;
    }
    assert(digits.take(n - start) == digits);
    if overflow {
        None
    } else {
        Some(acc)
    }
}

fn find_dot(b: &[u8]) -> (r: Option<usize>)
    ensures
        match r {
            Some(i) => first_dot_at(b@, i as int),
            None => !exists|i: int| first_dot_at(b@, i),
        },
{
    let n = b.len();
    for i in 0..n
        invariant
            n == b@.len(),
            forall|j: int| 0 <= j < i ==> b@[j] != 46u8,
    {
        if b[i] == 46u8 {
            return Some(i);
        }
    }
    None
}

/// Parse a decimal string into smallest units with `decimals` places: the
/// whole part (empty = 0) and the fraction, cut or zero-padded to
/// `decimals` digits. A leading `+` is accepted in either part.
#[verifier::rlimit(50)]
pub fn parse_amount(s: &str, decimals: u32) -> (r: Result<u128>)
    requires
        decimals <= 38,
        cut_at_boundary(amount_parts(encode_utf8(s@)).1, decimals as nat),
        parse_amount_spec(s@, decimals as nat) matches Ok(v) ==> v <= u128::MAX,
    ensures
        match r {
            Ok(v) => parse_amount_spec(s@, decimals as nat) == Ok::<nat, Error>(v as nat),
            Err(e) => parse_amount_spec(s@, decimals as nat) == Err::<nat, Error>(e),
        },
{
    let b = s.as_bytes();
    let ghost parts = amount_parts(b@);
    let n = b.len();
    let (w, f) = match find_dot(b) {
        Some(i) => {
            proof {
                let k = choose|k: int| first_dot_at(b@, k);
                assert(k == i as int) by {
                    if k < i {
                        assert(b@[k] != 46u8);
                    } else if k > i {
                        assert(b@[i as int] != 46u8);
                    }
                }
            }
            (&b[0..i], &b[i + 1..n])
        },
        None => (b, &b[n..n]),
    };
    assert(w@ == parts.0 && f@ =~= parts.1);
    let whole: u128 = if w.len() == 0 {
        0
    } else {
        match parse_u128_bytes(w) {
            Some(v) => v,
            None => return Err(Error::Malformed("bad amount")),
        }
    };
    let dec = decimals as usize;
    let mut padded: Vec<u8> = Vec::new();
    if f.len() < dec {
        for i in 0..f.len()
            invariant
                padded@ == f@.take(i as int),
        {
            padded.push(f[i]);
            assert(padded@ =~= f@.take(i + 1));
        }
        assert(f@.take(f@.len() as int) == f@);
        let ghost fz = padded@;
        for i in 0..(dec - f.len())
            invariant
                padded@ == fz + Seq::new(i as nat, |k: int| 48u8),
        {
            padded.push(48u8);
            assert(padded@ =~= fz + Seq::new((i + 1) as nat, |k: int| 48u8));
        }
    } else {
        for i in 0..dec
            invariant
                dec <= f@.len(),
                padded@ == f@.take(i as int),
        {
            padded.push(f[i]);
            assert(padded@ =~= f@.take(i + 1));
        }
    }
    assert(padded@ == fraction_digits(f@, decimals as nat));
    let frac_val: u128 = if padded.len() == 0 {
        0
    } else {
        match parse_u128_bytes(padded.as_slice()) {
            Some(v) => v,
            None => return Err(Error::Malformed("bad amount fraction")),
        }
    };
    let mult = pow10_u128(decimals);
    proof {
        lemma_pow10_mono(0, decimals as nat);
        assert(whole * mult + frac_val <= u128::MAX);
        assert(whole * mult <= u128::MAX) by (nonlinear_arith)
            requires whole * mult + frac_val <= u128::MAX, frac_val >= 0;
    }
    Ok(whole * mult + frac_val)
}


/// Every character is a decimal digit.
pub open spec fn digit_chars(s: Seq<char>) -> bool {
    forall|i: int| 0 <= i < s.len() ==> '0' <= #[trigger] s[i] <= '9'
}

/// The bytes of an ASCII character sequence.
pub open spec fn ascii_bytes(s: Seq<char>) -> Seq<u8> {
    s.map_values(|c: char| c as u8)
}

proof fn lemma_digit_bytes(s: Seq<char>)
    requires
        digit_chars(s),
    ensures
        encode_utf8(s) == ascii_bytes(s),
        all_digits(ascii_bytes(s)),
{
    assert forall|i: int| 0 <= i < s.len() implies (s[i] as u32) < 128 by {
        assert('0' <= s[i] <= '9');
    }
    lemma_encode_ascii(s);
    assert forall|i: int| 0 <= i < s.len() implies is_digit_byte(#[trigger] ascii_bytes(s)[i]) by {
        assert('0' <= s[i] <= '9');
    }
}

proof fn lemma_decimal_digits(n: nat)
    ensures
        digit_chars(decimal_nat(n)),
        decimal_nat(n).len() >= 1,
        digits_value(ascii_bytes(decimal_nat(n))) == n,
    decreases n,
{
    let d = decimal_nat(n);
    if n < 10 {
        assert(d == seq![crate::json::decimal_digit(n)]);
        assert(ascii_bytes(d).drop_last() =~= Seq::<u8>::empty());
        assert(ascii_bytes(d).last() == (48 + n) as u8);
        assert(((48 + n) as u8) as int == 48 + n);
        assert(digits_value(ascii_bytes(d)) == digits_value(ascii_bytes(d).drop_last()) * 10 + (ascii_bytes(d).last() - 48) as nat);
    } else {
        lemma_decimal_digits(n / 10);
        let p = decimal_nat(n / 10);
        assert(d == p.push(crate::json::decimal_digit(n % 10)));
        assert(ascii_bytes(d).drop_last() =~= ascii_bytes(p));
        assert(ascii_bytes(d).last() == (48 + n % 10) as u8);
        assert(((48 + n % 10) as u8) as int == 48 + n % 10);
        assert(digits_value(ascii_bytes(d)) == digits_value(ascii_bytes(d).drop_last()) * 10 + (ascii_bytes(d).last() - 48) as nat);
        assert forall|i: int| 0 <= i < d.len() implies '0' <= #[trigger] d[i] <= '9' by {
            if i < p.len() {
                assert(d[i] == p[i]);
            }
        }
        assert(n == (n / 10) * 10 + n % 10);
    }
}

proof fn lemma_decimal_len(n: nat, d: nat)
    requires
        n < pow10(d),
        d >= 1,
    ensures
        decimal_nat(n).len() <= d,
    decreases n,
{
    if n >= 10 {
        assert(d >= 2) by {
            if d == 1 {
                assert(pow10(1) == 10) by {
                    reveal_with_fuel(pow10, 2);
                }
            }
        }
        assert(n / 10 < pow10((d - 1) as nat));
        lemma_decimal_len(n / 10, (d - 1) as nat);
    }
}

/// `k` zero bytes.
pub open spec fn zero_bytes(k: nat) -> Seq<u8> {
    Seq::new(k, |i: int| 48u8)
}

proof fn lemma_leading_zeros(k: nat, x: Seq<u8>)
    ensures
        digits_value(zero_bytes(k) + x) == digits_value(x),
    decreases x.len(), k,
{
    if x.len() == 0 {
        assert(zero_bytes(k) + x =~= zero_bytes(k));
        if k > 0 {
            assert(zero_bytes(k).drop_last() =~= zero_bytes((k - 1) as nat));
            lemma_leading_zeros((k - 1) as nat, x);
            assert(zero_bytes((k - 1) as nat) + x =~= zero_bytes((k - 1) as nat));
        }
    } else {
        assert((zero_bytes(k) + x).drop_last() =~= zero_bytes(k) + x.drop_last());
        lemma_leading_zeros(k, x.drop_last());
    }
}

proof fn lemma_trim_zeros(x: Seq<char>)
    ensures
        trim_zeros_end(x).len() <= x.len(),
        trim_zeros_end(x) == x.take(trim_zeros_end(x).len() as int),
        x == trim_zeros_end(x) + zeros((x.len() - trim_zeros_end(x).len()) as nat),
    decreases x.len(),
{
    if x.len() > 0 && x.last() == '0' {
        lemma_trim_zeros(x.drop_last());
        let t = trim_zeros_end(x);
        assert(t == trim_zeros_end(x.drop_last()));
        assert(x.drop_last().take(t.len() as int) =~= x.take(t.len() as int));
        assert(x =~= t + zeros((x.len() - t.len()) as nat)) by {
            assert(x.drop_last() == t + zeros((x.len() - 1 - t.len()) as nat));
            assert(x =~= x.drop_last().push('0'));
        }
    } else {
        assert(x.take(x.len() as int) =~= x);
        assert(x =~= x + zeros(0));
    }
}


proof fn lemma_digits_parse(b: Seq<u8>, v: nat)
    requires
        b.len() > 0,
        all_digits(b),
        digits_value(b) == v,
        v <= u128::MAX,
    ensures
        parse_u128_spec(b) == Some(v),
{
    assert(is_digit_byte(b[0]));
    assert(unsigned_digits(b) == b);
}

/// Reading back a formatted amount gives the amount: for every `u128`
/// amount and up to 38 places, `parse_amount(format_amount(a, d), d) == a`
/// (and the text meets `parse_amount`'s requirements).
#[verifier::rlimit(50)]
pub proof fn lemma_parse_format_amount(a: nat, d: nat)
    requires
        a <= u128::MAX,
        d <= 38,
    ensures
        parse_amount_spec(format_amount_spec(a, d), d) == Ok::<nat, Error>(a),
        cut_at_boundary(amount_parts(encode_utf8(format_amount_spec(a, d))).1, d),
{
    let div = pow10(d);
    lemma_pow10_mono(0, d);
    let w = a / div;
    let f = a % div;
    assert(a == w * div + f && w <= a) by (nonlinear_arith)
        requires div >= 1, w == a / div, f == a % div;
    lemma_decimal_digits(w);
    let wd = decimal_nat(w);
    lemma_digit_bytes(wd);
    let wb = ascii_bytes(wd);
    lemma_digits_parse(wb, w);
    let s = format_amount_spec(a, d);
    if f == 0 {
        assert(s == wd);
        assert(!exists|i: int| first_dot_at(wb, i)) by {
            if exists|i: int| first_dot_at(wb, i) {
                let i = choose|i: int| first_dot_at(wb, i);
                assert(is_digit_byte(wb[i]));
            }
        }
        assert(amount_parts(encode_utf8(s)) == (wb, Seq::<u8>::empty()));
        let padded = fraction_digits(Seq::<u8>::empty(), d);
        assert(padded =~= zero_bytes(d));
        if d > 0 {
            lemma_leading_zeros(d, Seq::<u8>::empty());
            assert(zero_bytes(d) + Seq::<u8>::empty() =~= zero_bytes(d));
            assert(all_digits(zero_bytes(d)));
            lemma_digits_parse(zero_bytes(d), 0);
        }
    } else {
        assert(d >= 1) by {
            if d == 0 {
                assert(div == 1);
            }
        }
        lemma_decimal_digits(f);
        let fd = decimal_nat(f);
        lemma_decimal_len(f, d);
        let k = (d - fd.len()) as nat;
        let zp = zero_pad(fd, d);
        assert(zp =~= zeros(k) + fd);
        assert(zp.len() == d);
        assert(digit_chars(zp)) by {
            assert forall|i: int| 0 <= i < zp.len() implies '0' <= #[trigger] zp[i] <= '9' by {
                if i >= k {
                    assert(zp[i] == fd[i - k]);
                }
            }
        }
        let t = trim_zeros_end(zp);
        lemma_trim_zeros(zp);
        let tl = t.len();
        assert(digit_chars(t)) by {
            assert forall|i: int| 0 <= i < t.len() implies '0' <= #[trigger] t[i] <= '9' by {
                assert(t[i] == zp[i]);
            }
        }
        assert(s == wd + seq!['.'] + t);
        assert forall|i: int| 0 <= i < s.len() implies (s[i] as u32) < 128 by {
            if i < wd.len() {
                assert(s[i] == wd[i]);
                assert('0' <= wd[i] <= '9');
            } else if i > wd.len() {
                assert(s[i] == t[i - wd.len() - 1]);
                assert('0' <= t[i - wd.len() - 1] <= '9');
            }
        }
        lemma_encode_ascii(s);
        let b = encode_utf8(s);
        let tb = ascii_bytes(t);
        assert(b =~= wb + seq![46u8] + tb);
        let p = wd.len() as int;
        assert(first_dot_at(b, p)) by {
            assert forall|j: int| 0 <= j < p implies b[j] != 46u8 by {
                assert(b[j] == wb[j]);
                assert(is_digit_byte(wb[j]));
            }
        }
        let c = choose|i: int| first_dot_at(b, i);
        assert(c == p) by {
            if c < p {
                assert(b[c] == wb[c]);
                assert(is_digit_byte(wb[c]));
            } else if c > p {
                assert(b[p] == 46u8);
            }
        }
        assert(b.take(p) =~= wb);
        assert(b.skip(p + 1) =~= tb);
        assert(amount_parts(b) == (wb, tb));
        let zb = ascii_bytes(zp);
        assert(fraction_digits(tb, d) == zb) by {
            if tl < d {
                assert(tb + Seq::new((d - tl) as nat, |i: int| 48u8) =~= ascii_bytes(t + zeros((d - tl) as nat)));
            } else {
                assert(zp =~= t);
                assert(tb.take(d as int) =~= tb);
            }
        }
        let fb = ascii_bytes(fd);
        assert(zb =~= zero_bytes(k) + fb);
        lemma_leading_zeros(k, fb);
        lemma_digit_bytes(zp);
        lemma_digits_parse(zb, f);
    }
}


/// The recipient of an encrypted event decrypts it back to the message and
/// removes the prefix put in front of it.
proof fn lemma_encrypted_event_reads_back<S: Signer, R: Signer>(
    ev: Event,
    sender: S,
    recipient: R,
    recipient_pk: Seq<u8>,
    kind: u32,
    tags: Seq<Seq<Seq<char>>>,
    prefix: Seq<char>,
    body: Seq<char>,
    iv: Seq<u8>,
    created_at: i64,
    bad_prefix: &'static str,
    d: core::result::Result<String, Error>,
)
    requires
        is_encrypted_event_of(ev, sender, recipient_pk, kind, tags, prefix + body, iv, created_at),
        secp256k1_xonly(recipient.signer_secret()) == Some(recipient_pk),
        signer_pubkey_hex(recipient) != signer_pubkey_hex(sender),
        recipient.derives_nip04_secret(secp256k1_xonly(sender.signer_secret())->0),
        decrypt_prefixed_outcome(recipient, ev, prefix, bad_prefix, d),
    ensures
        d is Ok && d->Ok_0@ == body,
{
    let sender_pk = secp256k1_xonly(sender.signer_secret())->0;
    lemma_hex_roundtrip(sender_pk);
    assert(protocol_peer_spec(signer_pubkey_hex(recipient), ev) == Ok::<Seq<u8>, Error>(sender_pk));
    assert(shared_secret_spec(recipient.signer_secret(), sender_pk) == Ok::<Seq<u8>, Error>(
        shared_secret_spec(sender.signer_secret(), recipient_pk)->Ok_0,
    ));
    lemma_strip_prefix_concat(prefix, body);
}

proof fn lemma_type_tag(tags: Seq<Seq<Seq<char>>>, value: Seq<char>)
    requires
        tags.len() >= 2,
        tags[0].len() >= 1 && tags[0][0] == "p"@,
        tags[1] == seq!["type"@, value],
    ensures
        tag_value_spec(tags, "type"@) == Some(value),
{
    reveal_strlit("p");
    reveal_strlit("type");
    assert("p"@ != "type"@) by {
        assert("p"@.len() != "type"@.len());
    }
    assert(tags.drop_first()[0][0] == "type"@);
    assert(crate::event::first_tag_named(tags.drop_first(), "type"@) == Some(0int));
}

/// A payment request reaches its target intact: parsing it with the target's
/// signer reads exactly the request JSON that was sent.
pub proof fn lemma_payment_request_roundtrip<S: Signer, R: Signer>(
    ev: Event,
    sender: S,
    recipient: R,
    recipient_pk: Seq<u8>,
    p: PaymentRequestParams,
    iv: Seq<u8>,
    created_at: i64,
    r: core::result::Result<ParsedPaymentRequest, Error>,
)
    requires
        is_encrypted_event_of(ev, sender, recipient_pk, kinds::PAYMENT_REQUEST, request_tags_spec(recipient_pk, p), request_message(p), iv, created_at),
        secp256k1_xonly(recipient.signer_secret()) == Some(recipient_pk),
        signer_pubkey_hex(recipient) != signer_pubkey_hex(sender),
        recipient.derives_nip04_secret(secp256k1_xonly(sender.signer_secret())->0),
        is_payment_request_spec(ev) ==> exists|d: core::result::Result<String, Error>|
            #[trigger] decrypt_prefixed_outcome(recipient, ev, "payment_request:"@, "bad payment prefix", d) && match d {
                Err(e) => r is Err && (r->Err_0 == e),
                Ok(json) => request_fields_outcome(json@, ev, r),
            },
    ensures
        is_payment_request_spec(ev),
        request_fields_outcome(request_json(p), ev, r),
{
    lemma_type_tag(request_tags_spec(recipient_pk, p), "payment_request"@);
    let d = choose|d: core::result::Result<String, Error>|
        #[trigger] decrypt_prefixed_outcome(recipient, ev, "payment_request:"@, "bad payment prefix", d) && match d {
            Err(e) => r is Err && (r->Err_0 == e),
            Ok(json) => request_fields_outcome(json@, ev, r),
        };
    lemma_encrypted_event_reads_back(
        ev,
        sender,
        recipient,
        recipient_pk,
        kinds::PAYMENT_REQUEST,
        request_tags_spec(recipient_pk, p),
        "payment_request:"@,
        request_json(p),
        iv,
        created_at,
        "bad payment prefix",
        d,
    );
}

/// A payment-request response reaches its target intact: parsing it with
/// the target's signer reads exactly the response JSON that was sent.
pub proof fn lemma_payment_response_roundtrip<S: Signer, R: Signer>(
    ev: Event,
    sender: S,
    recipient: R,
    recipient_pk: Seq<u8>,
    p: PaymentResponseParams,
    iv: Seq<u8>,
    created_at: i64,
    r: core::result::Result<ParsedPaymentRequestResponse, Error>,
)
    requires
        is_encrypted_event_of(
            ev,
            sender,
            recipient_pk,
            kinds::PAYMENT_REQUEST_RESPONSE,
            response_tags_spec(recipient_pk, p),
            response_message(p),
            iv,
            created_at,
        ),
        secp256k1_xonly(recipient.signer_secret()) == Some(recipient_pk),
        signer_pubkey_hex(recipient) != signer_pubkey_hex(sender),
        recipient.derives_nip04_secret(secp256k1_xonly(sender.signer_secret())->0),
        exists|d: core::result::Result<String, Error>|
            #[trigger] decrypt_prefixed_outcome(recipient, ev, "payment_request_response:"@, "bad payment prefix", d) && match d {
                Err(e) => r is Err && (r->Err_0 == e),
                Ok(json) => response_fields_outcome(json@, ev, r),
            },
    ensures
        is_payment_request_response_spec(ev),
        response_fields_outcome(response_json(p), ev, r),
{
    lemma_type_tag(response_tags_spec(recipient_pk, p), "payment_request_response"@);
    let d = choose|d: core::result::Result<String, Error>|
        #[trigger] decrypt_prefixed_outcome(recipient, ev, "payment_request_response:"@, "bad payment prefix", d) && match d {
            Err(e) => r is Err && (r->Err_0 == e),
            Ok(json) => response_fields_outcome(json@, ev, r),
        };
    lemma_encrypted_event_reads_back(
        ev,
        sender,
        recipient,
        recipient_pk,
        kinds::PAYMENT_REQUEST_RESPONSE,
        response_tags_spec(recipient_pk, p),
        "payment_request_response:"@,
        response_json(p),
        iv,
        created_at,
        "bad payment prefix",
        d,
    );
}

} // verus!
