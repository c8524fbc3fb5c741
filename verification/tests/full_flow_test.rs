use realtime_service::auth::Claims;
use realtime_service::chat_message::BroadcastMessage;
use realtime_service::events::handle_bus_event;
use realtime_service::session_manager::SessionManager;
use realtime_service::ws_handler::{
    dispatcher_finish,
    dispatcher_init,
    dispatcher_step,
    DispatcherAction,
    DispatcherEvent,
    DispatcherState,
    InboundFrame,
};
use uuid::Uuid;

fn claims(sub: &str, name: &str) -> Claims {
    Claims {
        sub: Uuid::parse_str(sub).unwrap().as_u128(),
        name: name.to_string(),
        email: format!("{}@example.com", name.to_lowercase()),
        exp: 4_000_000_000,
    }
}

fn join(manager: &mut SessionManager, session: &str, sub: &str, name: &str) -> DispatcherState {
    let sid = Uuid::parse_str(session).unwrap().as_u128();
    dispatcher_init(manager, sid, claims(sub, name))
}

fn text(s: &str) -> DispatcherEvent {
    DispatcherEvent::Inbound(InboundFrame::Text(s.to_string()))
}

fn drain(manager: &mut SessionManager, st: &DispatcherState) -> Vec<String> {
    let mut out = Vec::new();
    while let Some(m) = manager.pop_message(st.session_id, st.conn_id) {
        out.push(m);
    }
    out
}

const SESSION_S: &str = "11111111-1111-1111-1111-111111111111";
const ALICE: &str = "aaaaaaaa-aaaa-aaaa-aaaa-0000000000a1";
const BOB: &str = "bbbbbbbb-bbbb-bbbb-bbbb-0000000000b2";

#[test]
fn two_peer_echo() {
    let mut manager = SessionManager::new();
    let a = join(&mut manager, SESSION_S, ALICE, "Alice");
    let b = join(&mut manager, SESSION_S, BOB, "Bob");

    let out = dispatcher_step(&mut manager, &a, text(r#"{"content":"hi"}"#));
    assert!(!out.disconnect);

    // exactly one frame lands on B, none on A
    let b_frames = drain(&mut manager, &b);
    assert_eq!(b_frames.len(), 1);
    assert_eq!(
        b_frames[0],
        format!(
            r#"{{"type":"chat_message","sender":{{"id":"{}","name":"Alice"}},"content":"hi"}}"#,
            ALICE
        )
    );
    let envelope = BroadcastMessage::from_json(&b_frames[0]).unwrap();
    assert_eq!(envelope.kind, "chat_message");
    assert_eq!(envelope.sender.id, Uuid::parse_str(ALICE).unwrap().as_u128());
    assert_eq!(envelope.sender.name, "Alice");
    assert_eq!(envelope.content, "hi");
    assert_eq!(drain(&mut manager, &a).len(), 0, "no fan-out echo to the sender");

    // exactly one publish to the external bus
    assert_eq!(out.actions.len(), 1);
    match &out.actions[0] {
        DispatcherAction::Publish { subject, payload } => {
            assert_eq!(subject, &format!("chat.message.received.{}", SESSION_S));
            let v: serde_json::Value = serde_json::from_str(payload).unwrap();
            assert_eq!(v["event_type"].as_str().unwrap(), "chat.message.received");
            assert_eq!(v["session_id"].as_str().unwrap(), SESSION_S);
            assert_eq!(v["user_id"].as_str().unwrap(), ALICE);
            assert_eq!(v["user_name"].as_str().unwrap(), "Alice");
            assert_eq!(v["content"].as_str().unwrap(), "hi");
        },
        other => panic!("expected a publish action, got {:?}", action_name(other)),
    }
}

fn action_name(a: &DispatcherAction) -> &'static str {
    match a {
        DispatcherAction::SendText(_) => "SendText",
        DispatcherAction::SendPong(_) => "SendPong",
        DispatcherAction::SendPing => "SendPing",
        DispatcherAction::Publish { .. } => "Publish",
    }
}

#[test]
fn system_event_fan_out() {
    let mut manager = SessionManager::new();
    let a = join(&mut manager, SESSION_S, ALICE, "Alice");
    let b = join(&mut manager, SESSION_S, BOB, "Bob");
    let c = join(&mut manager, SESSION_S, "cccccccc-cccc-cccc-cccc-0000000000c3", "Cleo");

    let payload = format!(
        r#"{{"event_type":"session.joined","session_id":"{}"}}"#,
        SESSION_S
    );
    let counts = handle_bus_event(&mut manager, &payload).expect("event should parse");
    assert_eq!(counts, (3, 0));

    let expected = format!(
        r#"{{"type":"session.joined","sessionId":"{}"}}"#,
        SESSION_S
    );
    for st in [&a, &b, &c] {
        let frames = drain(&mut manager, st);
        assert_eq!(frames, vec![expected.clone()]);
    }
}

#[test]
fn full_flow_test_test_session_isolation() {
    let mut manager = SessionManager::new();
    let s2 = "22222222-2222-2222-2222-222222222222";
    let a = join(&mut manager, SESSION_S, ALICE, "Alice");
    let b = join(&mut manager, SESSION_S, BOB, "Bob");
    let c = join(&mut manager, s2, "cccccccc-cccc-cccc-cccc-0000000000c3", "Cleo");

    dispatcher_step(&mut manager, &a, text(r#"{"content":"x"}"#));

    assert_eq!(drain(&mut manager, &b).len(), 1, "B receives once");
    assert_eq!(drain(&mut manager, &c).len(), 0, "C receives nothing");
    assert_eq!(drain(&mut manager, &a).len(), 0);
}

#[test]
fn last_peer_departure() {
    let mut manager = SessionManager::new();
    let a = join(&mut manager, SESSION_S, ALICE, "Alice");
    let sid = a.session_id;

    dispatcher_finish(&mut manager, &a);

    assert!(!manager.contains_session(sid), "registry no longer contains key S");
}

#[test]
fn malformed_frame_survival() {
    let mut manager = SessionManager::new();
    let a = join(&mut manager, SESSION_S, ALICE, "Alice");
    let b = join(&mut manager, SESSION_S, BOB, "Bob");

    let out = dispatcher_step(&mut manager, &a, text("not json"));
    assert!(!out.disconnect, "connection survives malformed input");
    assert_eq!(out.actions.len(), 0, "no broadcast, no error frame");
    assert_eq!(drain(&mut manager, &b).len(), 0);

    let out = dispatcher_step(&mut manager, &a, text(r#"{"content":"y"}"#));
    assert!(!out.disconnect);
    let frames = drain(&mut manager, &b);
    assert_eq!(frames.len(), 1, "next valid frame is fanned out normally");
    assert!(frames[0].contains(r#""content":"y""#));
}

#[test]
fn slow_consumer_isolation() {
    let mut manager = SessionManager::new();
    let a = join(&mut manager, SESSION_S, ALICE, "Alice");
    let b = join(&mut manager, SESSION_S, BOB, "Bob");
    let c = join(&mut manager, SESSION_S, "cccccccc-cccc-cccc-cccc-0000000000c3", "Cleo");
    let d = join(&mut manager, SESSION_S, "dddddddd-dddd-dddd-dddd-0000000000d4", "Dana");

    let mut dropped_total = 0;
    for k in 0..50 {
        let (sent, dropped) = manager.broadcast_message(
            a.session_id,
            &format!("frame {}", k),
            Some(a.conn_id),
        );
        assert_eq!(sent + dropped, 3, "every peer but the sender is attempted");
        dropped_total += dropped;
        // C and D drain promptly; B never does
        assert!(manager.pop_message(c.session_id, c.conn_id).is_some());
        assert!(manager.pop_message(d.session_id, d.conn_id).is_some());
    }

    assert_eq!(dropped_total, 34, "B drops everything past its 16 mailbox slots");
    let b_frames = drain(&mut manager, &b);
    assert_eq!(b_frames.len(), 16, "B receives the first 16");
    for (k, frame) in b_frames.iter().enumerate() {
        assert_eq!(frame, &format!("frame {}", k), "B's frames arrive in order");
    }
    assert_eq!(drain(&mut manager, &a).len(), 0, "A receives nothing");
}

#[test]
fn ping_pong_and_heartbeat() {
    let mut manager = SessionManager::new();
    let a = join(&mut manager, SESSION_S, ALICE, "Alice");

    let out = dispatcher_step(
        &mut manager,
        &a,
        DispatcherEvent::Inbound(InboundFrame::Ping(vec![1, 2, 3])),
    );
    assert_eq!(out.actions.len(), 1);
    assert!(matches!(&out.actions[0], DispatcherAction::SendPong(p) if p == &vec![1, 2, 3]));

    let out = dispatcher_step(&mut manager, &a, DispatcherEvent::HeartbeatTick);
    assert!(matches!(out.actions[0], DispatcherAction::SendPing));

    let out = dispatcher_step(&mut manager, &a, DispatcherEvent::Inbound(InboundFrame::Close));
    assert!(out.disconnect, "a close frame ends the loop");
}

#[test]
fn bus_event_for_unknown_session_changes_nothing() {
    let mut manager = SessionManager::new();
    let a = join(&mut manager, SESSION_S, ALICE, "Alice");

    let payload = r#"{"event_type":"session.created","session_id":"99999999-9999-9999-9999-999999999999"}"#;
    let counts = handle_bus_event(&mut manager, payload).expect("event parses");
    assert_eq!(counts, (0, 0));
    assert_eq!(drain(&mut manager, &a).len(), 0);

    assert!(handle_bus_event(&mut manager, "not json").is_none(), "garbage is discarded");
}
