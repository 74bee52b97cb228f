//! The relay client's decisions: frame parsing, frames, and the publish and
//! query steps, driven by hand.

use unicity_nostr::client::{
    auth_event, close_frame, event_frame, merge_events, merge_query_results, parse_relay_message, publish_step, query_step, req_frame, PublishAction,
    PublishState, QueryAction, RelayMessage,
};
use unicity_nostr::{kinds, Error, Event, Filter, LocalSigner};

fn note(content: &str, ts: i64) -> Event {
    let alice = LocalSigner::from_secret([1u8; 32]).unwrap();
    Event::create(&alice, 1, vec![], content.into(), ts).unwrap()
}

#[test]
fn parses_relay_frames() {
    let ev = note("one", 1);
    let frame = format!("[\"EVENT\",\"s1\",{}]", serde_json::to_string(&serde_json::from_str::<serde_json::Value>(&event_frame(&ev)).unwrap()[1]).unwrap());
    match parse_relay_message(&frame) {
        RelayMessage::Event { sub_id, event } => {
            assert_eq!(sub_id, "s1");
            assert_eq!(*event, ev);
        },
        other => panic!("unexpected {other:?}"),
    }
    assert!(matches!(parse_relay_message(r#"["EOSE","s1"]"#), RelayMessage::Eose { sub_id } if sub_id == "s1"));
    match parse_relay_message(r#"["OK","abc",true,"saved"]"#) {
        RelayMessage::Ack { id, accepted, message } => {
            assert_eq!(id, "abc");
            assert!(accepted);
            assert_eq!(message, "saved");
        },
        other => panic!("unexpected {other:?}"),
    }
    assert!(matches!(parse_relay_message(r#"["OK","abc"]"#), RelayMessage::Ack { accepted: false, .. }));
    assert!(matches!(parse_relay_message(r#"["CLOSED","s1","bye"]"#), RelayMessage::Closed { sub_id, message } if sub_id == "s1" && message == "bye"));
    assert!(matches!(parse_relay_message(r#"["NOTICE","hi"]"#), RelayMessage::Notice { message } if message == "hi"));
    assert!(matches!(parse_relay_message(r#"["AUTH","chal"]"#), RelayMessage::Auth { challenge } if challenge == "chal"));
    assert!(matches!(parse_relay_message(r#"["COUNT",1]"#), RelayMessage::Other(t) if t == "COUNT"));
    assert!(matches!(parse_relay_message("not json"), RelayMessage::Other(t) if t == "not json"));
    assert!(matches!(parse_relay_message(r#"["EVENT","s1",{"id":1}]"#), RelayMessage::Other(t) if t.starts_with("[\"EVENT\"")));
    assert!(matches!(parse_relay_message(r#"[5]"#), RelayMessage::Other(t) if t.is_empty()));
}

#[test]
fn builds_frames() {
    let ev = note("two", 2);
    let f: serde_json::Value = serde_json::from_str(&event_frame(&ev)).unwrap();
    assert_eq!(f[0], "EVENT");
    assert_eq!(f[1]["id"], ev.id.as_str());
    assert_eq!(f[1]["sig"], ev.sig.as_str());
    assert_eq!(f[1]["created_at"], 2);
    let filter = Filter::builder().kind(1).build();
    assert_eq!(req_frame("q0", &filter), r#"["REQ","q0",{"kinds":[1]}]"#);
    // Frames are written as serde_json::Value writes them: keys sorted.
    let frame = event_frame(&ev);
    assert_eq!(serde_json::from_str::<serde_json::Value>(&frame).unwrap().to_string(), frame);
    assert!(frame.starts_with(r#"["EVENT",{"content":"two","created_at":2,"id":""#));
    let wide = Filter::builder().kind(1).authors(vec![ev.pubkey.clone()]).limit(5).since(3).t_tags(vec!["x".into()]).build();
    let req = req_frame("q1", &wide);
    assert_eq!(serde_json::from_str::<serde_json::Value>(&req).unwrap().to_string(), req);
    assert_eq!(req, format!(r##"["REQ","q1",{{"#t":["x"],"authors":["{}"],"kinds":[1],"limit":5,"since":3}}]"##, ev.pubkey));
    assert_eq!(close_frame("q0"), r#"["CLOSE","q0"]"#);
    let alice = LocalSigner::from_secret([1u8; 32]).unwrap();
    let auth = auth_event(&alice, "wss://relay", "chal", 99).unwrap();
    assert_eq!(auth.kind, kinds::AUTH);
    assert!(auth.verify());
    assert_eq!(auth.tag_value("relay"), Some("wss://relay"));
    assert_eq!(auth.tag_value("challenge"), Some("chal"));
}

#[test]
fn publish_steps() {
    let mut st = PublishState::new("abc");
    assert!(matches!(publish_step(&mut st, Some(RelayMessage::Notice { message: "x".into() })), PublishAction::Continue));
    assert!(matches!(publish_step(&mut st, Some(RelayMessage::Auth { challenge: "c".into() })), PublishAction::Resend));
    assert!(matches!(publish_step(&mut st, Some(RelayMessage::Auth { challenge: "c".into() })), PublishAction::Continue));
    let other = RelayMessage::Ack { id: "zzz".into(), accepted: true, message: String::new() };
    assert!(matches!(publish_step(&mut st, Some(other)), PublishAction::Continue));
    let ok = RelayMessage::Ack { id: "abc".into(), accepted: false, message: "blocked".into() };
    match publish_step(&mut st, Some(ok)) {
        PublishAction::Finish(Ok((accepted, message))) => {
            assert!(!accepted);
            assert_eq!(message, "blocked");
        },
        _ => panic!("expected finish"),
    }
    let mut st = PublishState::new("abc");
    assert!(matches!(publish_step(&mut st, None), PublishAction::Finish(Err(Error::Malformed("publish: timed out waiting for OK")))));
    let mut st = PublishState::new("abc");
    let mut last = None;
    for _ in 0..64 {
        last = Some(publish_step(&mut st, Some(RelayMessage::Notice { message: String::new() })));
    }
    assert!(matches!(last, Some(PublishAction::Finish(Err(Error::Malformed("publish: no OK received"))))));
}

#[test]
fn query_steps() {
    let e1 = note("one", 1);
    let mut forged = note("two", 2);
    forged.content = "tampered".into();
    let mut events = Vec::new();
    let ev = |sub: &str, e: &Event| Some(RelayMessage::Event { sub_id: sub.into(), event: Box::new(e.clone()) });
    assert!(matches!(query_step("q0", &mut events, ev("q0", &e1)), QueryAction::Continue));
    assert!(matches!(query_step("q0", &mut events, ev("q0", &forged)), QueryAction::Continue));
    assert!(matches!(query_step("q0", &mut events, ev("other", &e1)), QueryAction::Continue));
    assert_eq!(events.len(), 1);
    assert!(matches!(query_step("q0", &mut events, Some(RelayMessage::Auth { challenge: "c".into() })), QueryAction::Resubscribe));
    assert!(matches!(query_step("q0", &mut events, Some(RelayMessage::Eose { sub_id: "x".into() })), QueryAction::Continue));
    assert!(matches!(query_step("q0", &mut events, Some(RelayMessage::Eose { sub_id: "q0".into() })), QueryAction::Finish));
    assert!(matches!(query_step("q0", &mut events, Some(RelayMessage::Closed { sub_id: "q0".into(), message: String::new() })), QueryAction::Finish));
    assert!(matches!(query_step("q0", &mut events, None), QueryAction::Finish));
    assert_eq!(events, vec![e1]);
}

#[test]
fn merges_by_id() {
    let e1 = note("one", 1);
    let e2 = note("two", 2);
    let e3 = note("three", 3);
    let mut all = Vec::new();
    merge_events(&mut all, vec![e1.clone(), e2.clone()]);
    merge_events(&mut all, vec![e2.clone(), e3.clone(), e3.clone()]);
    assert_eq!(all, vec![e1, e2, e3], "union deduplicated by id: e1, e2, e3");
}

#[test]
fn parses_event_in_array_form() {
    let ev = note("array \"form\"", 7);
    let fields = format!(
        "[{},{},{},{},{},{},{}]",
        serde_json::to_string(&ev.id).unwrap(),
        serde_json::to_string(&ev.pubkey).unwrap(),
        ev.created_at,
        ev.kind,
        serde_json::to_string(&ev.tags).unwrap(),
        serde_json::to_string(&ev.content).unwrap(),
        serde_json::to_string(&ev.sig).unwrap(),
    );
    match parse_relay_message(&format!("[\"EVENT\",\"s2\",{fields}]")) {
        RelayMessage::Event { sub_id, event } => {
            assert_eq!(sub_id, "s2");
            assert_eq!(*event, ev);
        },
        other => panic!("unexpected {other:?}"),
    }
    let short = format!("[\"EVENT\",\"s2\",{}]]", &fields[..fields.rfind(',').unwrap()]);
    assert!(matches!(parse_relay_message(&short), RelayMessage::Other(_)));
    let long = format!("[\"EVENT\",\"s2\",{},1]]", &fields[..fields.len() - 1]);
    assert!(matches!(parse_relay_message(&long), RelayMessage::Other(_)));
}

#[test]
fn merges_query_results_in_relay_order() {
    let e1 = note("one", 1);
    let e2 = note("two", 2);
    let e3 = note("three", 3);
    let results = vec![
        Ok(vec![e2.clone(), e1.clone()]),
        Err(Error::Malformed("relay down")),
        Ok(vec![e1.clone(), e3.clone(), e2.clone()]),
        Ok(vec![]),
    ];
    assert_eq!(merge_query_results(results), vec![e2, e1, e3]);
    assert!(merge_query_results(vec![]).is_empty());
}
