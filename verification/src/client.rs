//! The decisions of a Nostr relay client: relay-message parsing, the wire
//! frames a client sends, the NIP-42 AUTH answer, and the publish and query
//! conversations as step functions. Whoever owns the connection runs the
//! loop: it sends what a step asks for and feeds back what the relay said.
use vstd::prelude::*;

use crate::error::{Error, Result};
use crate::event::{event_fields, event_from_json, event_to_value_json, event_value_json, id_digest, is_valid_event, json_event_fields, signer_pubkey_hex, Event, Tag};
use crate::filter::{filter_value_json, Filter};
use crate::json::{
    array_bool, array_item, array_string, is_array, json_array_bool, json_array_item, json_array_string, json_is_array,
    json_quoted, push_quoted, tags_view,
};
use crate::kinds;
use crate::protocol::{push_tag, tag_of};
use crate::signer::Signer;
use crate::text::{push_str, str_eq};

verus! {

/// A message received from a relay (NIP-01 + NIP-42).
#[derive(Clone, Debug)]
pub enum RelayMessage {
    /// `["EVENT", sub_id, event]`
    Event {
        /// Subscription id the event belongs to.
        sub_id: String,
        /// The event.
        event: Box<Event>,
    },
    /// `["EOSE", sub_id]`: end of stored events.
    Eose {
        /// Subscription id.
        sub_id: String,
    },
    /// `["OK", event_id, accepted, message]`: publish acknowledgement.
    Ack {
        /// Event id acknowledged.
        id: String,
        /// Whether the relay accepted the event.
        accepted: bool,
        /// Human-readable message.
        message: String,
    },
    /// `["CLOSED", sub_id, message]`: subscription closed by the relay.
    Closed {
        /// Subscription id.
        sub_id: String,
        /// Reason.
        message: String,
    },
    /// `["NOTICE", message]`
    Notice {
        /// Notice text.
        message: String,
    },
    /// `["AUTH", challenge]`: NIP-42 authentication challenge.
    Auth {
        /// Challenge string.
        challenge: String,
    },
    /// Anything unrecognized (the raw first element, or the whole text).
    Other(String),
}

/// A string element of a frame, or empty.
pub open spec fn frame_str(text: Seq<char>, i: nat) -> Seq<char> {
    match json_array_string(text, i) {
        Some(s) => s,
        None => Seq::<char>::empty(),
    }
}

/// `m` is what the relay frame `text` says. Frames that are not JSON arrays,
/// and `EVENT` frames without a readable event, are `Other` with the whole
/// text; an unknown type is `Other` with the type (empty when it is not a
/// string). Missing string fields read as empty, a missing `OK` flag as false.
pub open spec fn relay_message_spec(text: Seq<char>, m: RelayMessage) -> bool {
    if !json_is_array(text) {
        m is Other && m->Other_0@ == text
    } else {
        let typ = frame_str(text, 0);
        if typ == "EVENT"@ {
            match json_array_item(text, 2) {
                Some(item) => match json_event_fields(item) {
                    Some(fields) => m is Event && m->Event_sub_id@ == frame_str(text, 1) && event_fields(*m->event) == fields,
                    None => m is Other && m->Other_0@ == text,
                },
                None => m is Other && m->Other_0@ == text,
            }
        } else if typ == "EOSE"@ {
            m is Eose && m->Eose_sub_id@ == frame_str(text, 1)
        } else if typ == "OK"@ {
            &&& m is Ack
            &&& m->id@ == frame_str(text, 1)
            &&& m->accepted == match json_array_bool(text, 2) {
                Some(b) => b,
                None => false,
            }
            &&& m->Ack_message@ == frame_str(text, 3)
        } else if typ == "CLOSED"@ {
            m is Closed && m->Closed_sub_id@ == frame_str(text, 1) && m->Closed_message@ == frame_str(text, 2)
        } else if typ == "NOTICE"@ {
            m is Notice && m->Notice_message@ == frame_str(text, 1)
        } else if typ == "AUTH"@ {
            m is Auth && m->challenge@ == frame_str(text, 1)
        } else {
            m is Other && m->Other_0@ == typ
        }
    }
}

fn element_str(text: &str, i: usize) -> (r: String)
    ensures
        r@ == frame_str(text@, i as nat),
{
    match array_string(text, i) {
        Some(s) => s,
        None => String::new(),
    }
}

/// Parse a relay wire frame. Unrecognized or malformed frames map to
/// [`RelayMessage::Other`] rather than erroring, so a stray frame never
/// aborts a read loop.
pub fn parse_relay_message(text: &str) -> (m: RelayMessage)
    ensures
        relay_message_spec(text@, m),
{
    if !is_array(text) {
        return RelayMessage::Other(String::from_str(text));
    }
    let typ = element_str(text, 0);
    let t = typ.as_str();
    if str_eq(t, "EVENT") {
        match array_item(text, 2) {
            Some(item) => match event_from_json(item.as_str()) {
                Some(event) => RelayMessage::Event { sub_id: element_str(text, 1), event: Box::new(event) },
                None => RelayMessage::Other(String::from_str(text)),
            },
            None => RelayMessage::Other(String::from_str(text)),
        }
    } else if str_eq(t, "EOSE") {
        RelayMessage::Eose { sub_id: element_str(text, 1) }
    } else if str_eq(t, "OK") {
        let accepted = match array_bool(text, 2) {
            Some(b) => b,
            None => false,
        };
        RelayMessage::Ack { id: element_str(text, 1), accepted, message: element_str(text, 3) }
    } else if str_eq(t, "CLOSED") {
        RelayMessage::Closed { sub_id: element_str(text, 1), message: element_str(text, 2) }
    } else if str_eq(t, "NOTICE") {
        RelayMessage::Notice { message: element_str(text, 1) }
    } else if str_eq(t, "AUTH") {
        RelayMessage::Auth { challenge: element_str(text, 1) }
    } else {
        RelayMessage::Other(typ)
    }
}

/// `["EVENT",<event>]`, the event object with its keys sorted.
pub open spec fn event_frame_spec(e: Event) -> Seq<char> {
    "[\"EVENT\","@ + event_value_json(e) + "]"@
}

/// `["AUTH",<event>]`, the event object with its keys sorted.
pub open spec fn auth_frame_spec(e: Event) -> Seq<char> {
    "[\"AUTH\","@ + event_value_json(e) + "]"@
}

/// `["REQ",<sub_id>,<filter>]`, the filter object with its keys sorted.
pub open spec fn req_frame_spec(sub_id: Seq<char>, f: Filter) -> Seq<char> {
    "[\"REQ\","@ + json_quoted(sub_id) + ","@ + filter_value_json(f) + "]"@
}

/// `["CLOSE",<sub_id>]`
pub open spec fn close_frame_spec(sub_id: Seq<char>) -> Seq<char> {
    "[\"CLOSE\","@ + json_quoted(sub_id) + "]"@
}

/// The frame that publishes an event.
pub fn event_frame(e: &Event) -> (s: String)
    ensures
        s@ == event_frame_spec(*e),
{
    let mut s = String::from_str("[\"EVENT\",");
    push_str(&mut s, event_to_value_json(e).as_str());
    push_str(&mut s, "]");
    s
}

/// The frame that answers an AUTH challenge with a signed event.
pub fn auth_frame(e: &Event) -> (s: String)
    ensures
        s@ == auth_frame_spec(*e),
{
    let mut s = String::from_str("[\"AUTH\",");
    push_str(&mut s, event_to_value_json(e).as_str());
    push_str(&mut s, "]");
    s
}

/// The frame that opens subscription `sub_id` with `filter`.
pub fn req_frame(sub_id: &str, filter: &Filter) -> (s: String)
    ensures
        s@ == req_frame_spec(sub_id@, *filter),
{
    let mut s = String::from_str("[\"REQ\",");
    push_quoted(&mut s, sub_id);
    push_str(&mut s, ",");
    push_str(&mut s, filter.to_value_json().as_str());
    push_str(&mut s, "]");
    s
}

/// The frame that closes subscription `sub_id`.
pub fn close_frame(sub_id: &str) -> (s: String)
    ensures
        s@ == close_frame_spec(sub_id@),
{
    let mut s = String::from_str("[\"CLOSE\",");
    push_quoted(&mut s, sub_id);
    push_str(&mut s, "]");
    s
}

/// The tags of a NIP-42 AUTH event: `["relay", url]`, `["challenge", challenge]`.
pub open spec fn auth_tags_spec(url: Seq<char>, challenge: Seq<char>) -> Seq<Seq<Seq<char>>> {
    seq![seq!["relay"@, url], seq!["challenge"@, challenge]]
}

/// The signed NIP-42 AUTH event (kind 22242, empty content) answering
/// `challenge` for the relay at `url`, stamped `now`.
pub fn auth_event<S: Signer>(signer: &S, url: &str, challenge: &str, now: i64) -> (r: Result<Event>)
    ensures
        r is Ok <==> signer.signs(id_digest(signer_pubkey_hex(*signer), now, kinds::AUTH, auth_tags_spec(url@, challenge@), Seq::<char>::empty())),
        r is Ok ==> {
            let ev = r->Ok_0;
            &&& ev.pubkey@ == signer_pubkey_hex(*signer)
            &&& ev.kind == kinds::AUTH
            &&& ev.created_at == now
            &&& tags_view(ev.tags@) == auth_tags_spec(url@, challenge@)
            &&& ev.content@ == Seq::<char>::empty()
            &&& is_valid_event(ev)
        },
{
    let mut tags: Vec<Tag> = Vec::new();
    assert(tags_view(tags@) =~= Seq::<Seq<Seq<char>>>::empty());
    push_tag(&mut tags, tag_of("relay", url));
    push_tag(&mut tags, tag_of("challenge", challenge));
    assert(tags_view(tags@) =~= auth_tags_spec(url@, challenge@));
    Event::create(signer, kinds::AUTH, tags, String::new(), now)
}

/// How many frames a publish waits through for its `OK`.
pub const PUBLISH_MAX_ROUNDS: u32 = 64;

/// Where a publish stands: the event's id, whether it was already re-sent
/// after an AUTH challenge, and how many frames were read.
pub struct PublishState {
    /// Id of the event being published.
    pub event_id: String,
    /// Re-sent once after AUTH.
    pub resent: bool,
    /// Frames read so far.
    pub rounds: u32,
}

/// What the connection owner does next in a publish.
pub enum PublishAction {
    /// Stop with this outcome: the relay's acceptance and message, or an error.
    Finish(Result<(bool, String)>),
    /// Send the event frame again (after answering AUTH), then read on.
    Resend,
    /// Read the next frame.
    Continue,
}

impl PublishState {
    /// The state right after the event frame was sent.
    pub fn new(event_id: &str) -> (s: Self)
        ensures
            s.event_id@ == event_id@,
            !s.resent,
            s.rounds == 0,
    {
        PublishState { event_id: String::from_str(event_id), resent: false, rounds: 0 }
    }
}

/// The publish decision for one read: `None` is a read that timed out.
pub open spec fn publish_decision(event_id: Seq<char>, resent: bool, msg: Option<RelayMessage>) -> Option<core::result::Result<(bool, Seq<char>), Error>> {
    match msg {
        None => Some(Err(Error::Malformed("publish: timed out waiting for OK"))),
        Some(m) => if m is Ack && m->id@ == event_id {
            Some(Ok((m->accepted, m->Ack_message@)))
        } else {
            None
        },
    }
}

/// One step of a publish: the relay's `OK` for our event finishes it, a read
/// timeout fails it, the first AUTH challenge asks for one re-send, anything
/// else reads on; after 64 frames without an `OK` it fails.
pub fn publish_step(state: &mut PublishState, msg: Option<RelayMessage>) -> (a: PublishAction)
    requires
        old(state).rounds < PUBLISH_MAX_ROUNDS,
    ensures
        final(state).event_id == old(state).event_id,
        match publish_decision(old(state).event_id@, old(state).resent, msg) {
            Some(Ok((accepted, message))) => a matches PublishAction::Finish(Ok((acc, mm))) && acc == accepted && mm@ == message,
            Some(Err(e)) => a matches PublishAction::Finish(Err(e2)) && e2 == e,
            None => {
                let auth_resend = msg matches Some(RelayMessage::Auth { .. }) && !old(state).resent;
                &&& final(state).rounds == old(state).rounds + 1
                &&& final(state).resent == (old(state).resent || auth_resend)
                &&& if final(state).rounds == PUBLISH_MAX_ROUNDS && !auth_resend {
                    a matches PublishAction::Finish(Err(e)) && e == Error::Malformed("publish: no OK received")
                } else if auth_resend {
                    a is Resend
                } else {
                    a is Continue
                }
            },
        },
{
    match msg {
        None => PublishAction::Finish(Err(Error::Malformed("publish: timed out waiting for OK"))),
        Some(m) => {
            let auth = match m {
                RelayMessage::Ack { id, accepted, message } => {
                    if str_eq(id.as_str(), state.event_id.as_str()) {
                        return PublishAction::Finish(Ok((accepted, message)));
                    }
                    false
                },
                RelayMessage::Auth { .. } => true,
                _ => false,
            };
            state.rounds = state.rounds + 1;
            if auth && !state.resent {
                state.resent = true;
                PublishAction::Resend
            } else if state.rounds == PUBLISH_MAX_ROUNDS {
                PublishAction::Finish(Err(Error::Malformed("publish: no OK received")))
            } else {
                PublishAction::Continue
            }
        },
    }
}

/// What the connection owner does next in a query.
pub enum QueryAction {
    /// The stored events are all in: send the CLOSE frame and stop.
    Finish,
    /// Re-send the REQ frame (after answering AUTH), then read on.
    Resubscribe,
    /// Read the next frame.
    Continue,
}

/// One step of a query on subscription `sub_id`: a signature-valid event of
/// the subscription is collected; its EOSE or CLOSED, or a read timeout,
/// finishes; an AUTH challenge re-arms the subscription; anything else
/// reads on.
pub fn query_step(sub_id: &str, events: &mut Vec<Event>, msg: Option<RelayMessage>) -> (a: QueryAction)
    ensures
        match msg {
            None => a is Finish && final(events)@ == old(events)@,
            Some(RelayMessage::Event { sub_id: s, event }) => if s@ == sub_id@ {
                a is Continue && final(events)@ == if is_valid_event(*event) {
                    old(events)@.push(*event)
                } else {
                    old(events)@
                }
            } else {
                a is Continue && final(events)@ == old(events)@
            },
            Some(RelayMessage::Eose { sub_id: s }) => final(events)@ == old(events)@ && if s@ == sub_id@ {
                a is Finish
            } else {
                a is Continue
            },
            Some(RelayMessage::Closed { sub_id: s, .. }) => final(events)@ == old(events)@ && if s@ == sub_id@ {
                a is Finish
            } else {
                a is Continue
            },
            Some(RelayMessage::Auth { .. }) => a is Resubscribe && final(events)@ == old(events)@,
            Some(_) => a is Continue && final(events)@ == old(events)@,
        },
{
    match msg {
        None => QueryAction::Finish,
        Some(RelayMessage::Event { sub_id: s, event }) => {
            if str_eq(s.as_str(), sub_id) {
                if event.verify() {
                    events.push(*event);
                }
            }
            QueryAction::Continue
        },
        Some(RelayMessage::Eose { sub_id: s }) => {
            if str_eq(s.as_str(), sub_id) {
                QueryAction::Finish
            } else {
                QueryAction::Continue
            }
        },
        Some(RelayMessage::Closed { sub_id: s, .. }) => {
            if str_eq(s.as_str(), sub_id) {
                QueryAction::Finish
            } else {
                QueryAction::Continue
            }
        },
        Some(RelayMessage::Auth { .. }) => QueryAction::Resubscribe,
        Some(_) => QueryAction::Continue,
    }
}

/// Per-relay result of a broadcast publish.
#[derive(Debug)]
pub struct PublishOutcome {
    /// Relay URL.
    pub url: String,
    /// The relay's `OK` acceptance (accepted flag and message), or the error text.
    pub result: core::result::Result<(bool, String), String>,
}

/// The ids of a sequence of events.
pub open spec fn ids_of(evs: Seq<Event>) -> Seq<Seq<char>> {
    evs.map_values(|e: Event| e.id@)
}

/// `batch` appended to `acc`, keeping only events whose id is not yet present
/// (the first occurrence wins).
pub open spec fn merge_spec(acc: Seq<Event>, batch: Seq<Event>) -> Seq<Event>
    decreases batch.len(),
{
    if batch.len() == 0 {
        acc
    } else {
        let e = batch[0];
        let next = if ids_of(acc).contains(e.id@) { acc } else { acc.push(e) };
        merge_spec(next, batch.drop_first())
    }
}

fn contains_id(evs: &Vec<Event>, id: &str) -> (r: bool)
    ensures
        r == ids_of(evs@).contains(id@),
{
    let n = evs.len();
    for i in 0..n
        invariant
            n == evs@.len(),
            forall|k: int| 0 <= k < i ==> evs@[k].id@ != id@,
    {
        if str_eq(evs[i].id.as_str(), id) {
            assert(ids_of(evs@)[i as int] == id@);
            return true;
        }
    }
    assert forall|k: int| 0 <= k < ids_of(evs@).len() implies ids_of(evs@)[k] != id@ by {
        assert(ids_of(evs@)[k] == evs@[k].id@);
    }
    false
}

/// Add a relay's query result to the union, deduplicated by event id (the
/// first occurrence wins).
pub fn merge_events(acc: &mut Vec<Event>, batch: Vec<Event>)
    ensures
        final(acc)@ == merge_spec(old(acc)@, batch@),
{
    let ghost a0 = acc@;
    let mut b = batch;
    while b.len() > 0
        invariant
            merge_spec(a0, batch@) == merge_spec(acc@, b@),
        decreases b@.len(),
    {
        let ghost b0 = b@;
        let e = b.remove(0);
        assert(b@ == b0.drop_first());
        let present = contains_id(acc, e.id.as_str());
        if !present {
            acc.push(e);
        }
    }
}


/// No two events share an id.
pub open spec fn distinct_ids(evs: Seq<Event>) -> bool {
    forall|i: int, j: int| 0 <= i < j < evs.len() ==> evs[i].id@ != evs[j].id@
}

/// Merging keeps what was there in front, never repeats an id, and every id
/// of the batch ends up present.
#[verifier::rlimit(50)]
pub proof fn lemma_merge_dedup(acc: Seq<Event>, batch: Seq<Event>)
    requires
        distinct_ids(acc),
    ensures
        distinct_ids(merge_spec(acc, batch)),
        merge_spec(acc, batch).take(acc.len() as int) == acc,
        acc.len() <= merge_spec(acc, batch).len(),
        forall|k: int| 0 <= k < batch.len() ==> ids_of(merge_spec(acc, batch)).contains(#[trigger] batch[k].id@),
        forall|k: int| 0 <= k < acc.len() ==> ids_of(merge_spec(acc, batch)).contains(#[trigger] acc[k].id@),
    decreases batch.len(),
{
    if batch.len() > 0 {
        let e = batch[0];
        let present = ids_of(acc).contains(e.id@);
        let next = if present { acc } else { acc.push(e) };
        assert(distinct_ids(next)) by {
            if !present {
                assert forall|i: int, j: int| 0 <= i < j < next.len() implies next[i].id@ != next[j].id@ by {
                    if j == acc.len() {
                        assert(ids_of(acc)[i] == acc[i].id@);
                    }
                }
            }
        }
        lemma_merge_dedup(next, batch.drop_first());
        let m = merge_spec(next, batch.drop_first());
        assert(m == merge_spec(acc, batch));
        assert(m.take(next.len() as int).take(acc.len() as int) =~= m.take(acc.len() as int));
        assert(next.take(acc.len() as int) =~= acc);
        assert(ids_of(next).contains(e.id@)) by {
            if present {
            } else {
                assert(ids_of(next)[acc.len() as int] == e.id@);
            }
        }
        assert forall|k: int| 0 <= k < next.len() implies ids_of(m).contains(#[trigger] next[k].id@) by {
        }
        assert forall|k: int| 0 <= k < batch.len() implies ids_of(m).contains(#[trigger] batch[k].id@) by {
            if k == 0 {
                let x = choose|x: int| 0 <= x < ids_of(next).len() && ids_of(next)[x] == e.id@;
                assert(next[x].id@ == e.id@);
            } else {
                assert(batch[k] == batch.drop_first()[k - 1]);
            }
        }
        assert forall|k: int| 0 <= k < acc.len() implies ids_of(m).contains(#[trigger] acc[k].id@) by {
            assert(next[k] == acc[k]);
        }
    } else {
        assert(acc.take(acc.len() as int) =~= acc);
        assert forall|k: int| 0 <= k < acc.len() implies ids_of(acc).contains(#[trigger] acc[k].id@) by {
            assert(ids_of(acc)[k] == acc[k].id@);
        }
    }
}

/// Merging two batches one after the other is merging their concatenation.
pub proof fn lemma_merge_concat(acc: Seq<Event>, b1: Seq<Event>, b2: Seq<Event>)
    ensures
        merge_spec(acc, b1 + b2) == merge_spec(merge_spec(acc, b1), b2),
    decreases b1.len(),
{
    if b1.len() == 0 {
        assert(b1 + b2 =~= b2);
    } else {
        let e = b1[0];
        let next = if ids_of(acc).contains(e.id@) { acc } else { acc.push(e) };
        assert((b1 + b2)[0] == e);
        assert((b1 + b2).drop_first() =~= b1.drop_first() + b2);
        lemma_merge_concat(next, b1.drop_first(), b2);
    }
}

/// All batches, one after the other.
pub open spec fn concat_batches(batches: Seq<Seq<Event>>) -> Seq<Event>
    decreases batches.len(),
{
    if batches.len() == 0 {
        Seq::empty()
    } else {
        concat_batches(batches.drop_last()) + batches.last()
    }
}

/// The union built by merging each batch in turn into an initially empty result.
pub open spec fn merge_batches(batches: Seq<Seq<Event>>) -> Seq<Event>
    decreases batches.len(),
{
    if batches.len() == 0 {
        Seq::empty()
    } else {
        merge_spec(merge_batches(batches.drop_last()), batches.last())
    }
}

/// Merging the relays' batches in order gives their concatenation with every
/// repeated id dropped (the first occurrence wins): no id appears twice, and
/// every id of every batch is present.
pub proof fn lemma_merge_batches(batches: Seq<Seq<Event>>)
    ensures
        merge_batches(batches) == merge_spec(Seq::empty(), concat_batches(batches)),
        distinct_ids(merge_batches(batches)),
        forall|i: int, k: int| 0 <= i < batches.len() && 0 <= k < batches[i].len()
            ==> ids_of(merge_batches(batches)).contains(#[trigger] batches[i][k].id@),
    decreases batches.len(),
{
    let empty = Seq::<Event>::empty();
    if batches.len() > 0 {
        let init = batches.drop_last();
        lemma_merge_batches(init);
        lemma_merge_concat(empty, concat_batches(init), batches.last());
    }
    let all = concat_batches(batches);
    lemma_merge_dedup(empty, all);
    assert forall|i: int, k: int| 0 <= i < batches.len() && 0 <= k < batches[i].len()
        implies ids_of(merge_batches(batches)).contains(#[trigger] batches[i][k].id@) by {
        lemma_concat_batches_index(batches, i, k);
        let j = choose|j: int| 0 <= j < all.len() && all[j] == batches[i][k];
        assert(ids_of(merge_spec(empty, all)).contains(all[j].id@));
    }
}

proof fn lemma_concat_batches_index(batches: Seq<Seq<Event>>, i: int, k: int)
    requires
        0 <= i < batches.len(),
        0 <= k < batches[i].len(),
    ensures
        exists|j: int| 0 <= j < concat_batches(batches).len() && concat_batches(batches)[j] == batches[i][k],
    decreases batches.len(),
{
    let init = batches.drop_last();
    let front = concat_batches(init);
    if i == batches.len() - 1 {
        let j = front.len() + k;
        assert(concat_batches(batches)[j] == batches[i][k]);
    } else {
        assert(init[i] == batches[i]);
        lemma_concat_batches_index(init, i, k);
        let j = choose|j: int| 0 <= j < front.len() && front[j] == batches[i][k];
        assert(concat_batches(batches)[j] == front[j]);
    }
}

/// The events each relay returned, in relay order; a relay whose query failed
/// contributes nothing.
pub open spec fn ok_batches(results: Seq<Result<Vec<Event>>>) -> Seq<Seq<Event>> {
    results.map_values(|r: Result<Vec<Event>>| match r {
        Ok(v) => v@,
        Err(_) => Seq::<Event>::empty(),
    })
}

/// The union of the relays' query results, in relay order, deduplicated by
/// event id (the first occurrence wins); a relay whose query failed is skipped.
/// By `lemma_merge_batches`, this is the concatenation of the batches with every
/// repeated id dropped: no id appears twice, and every returned id is present.
pub fn merge_query_results(results: Vec<Result<Vec<Event>>>) -> (r: Vec<Event>)
    ensures
        r@ == merge_batches(ok_batches(results@)),
{
    let ghost all = ok_batches(results@);
    let mut out: Vec<Event> = Vec::new();
    let mut rest = results;
    let ghost done: int = 0;
    assert(all.take(0) =~= Seq::<Seq<Event>>::empty());
    while rest.len() > 0
        invariant
            0 <= done <= all.len(),
            ok_batches(rest@) == all.skip(done),
            out@ == merge_batches(all.take(done)),
        decreases rest@.len(),
    {
        let ghost r0 = rest@;
        let item = rest.remove(0);
        assert(rest@ == r0.drop_first());
        proof {
            assert(ok_batches(r0).len() == r0.len());
            assert(all.skip(done)[0] == all[done]);
            assert(ok_batches(r0)[0] == all[done]);
            assert forall|k: int| 0 <= k < rest@.len() implies #[trigger] ok_batches(rest@)[k] == all.skip(done + 1)[k] by {
                assert(rest@[k] == r0[k + 1]);
                assert(ok_batches(r0)[k + 1] == all.skip(done)[k + 1]);
            }
            assert(ok_batches(rest@) =~= all.skip(done + 1));
            assert(all.take(done + 1).drop_last() =~= all.take(done));
        }
        match item {
            Ok(b) => {
                merge_events(&mut out, b);
            },
            Err(_) => {
                assert(merge_spec(out@, Seq::<Event>::empty()) == out@);
            },
        }
        proof {
            done = done + 1;
        }
    }
    assert(all.take(done) =~= all);
    out
}

} // verus!
