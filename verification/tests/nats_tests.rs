use realtime_service::events::{build_system_broadcast, EventPayload};
use uuid::Uuid;

#[test]
fn test_event_payload_structure() {
    let valid = r#"{"event_type":"session.created","session_id":"550e8400-e29b-41d4-a716-446655440000"}"#;
    let result = EventPayload::from_json(valid);
    assert!(result.is_ok(), "Valid payload should parse");

    let invalid_uuid = r#"{"event_type":"session.created","session_id":"not-a-uuid"}"#;
    let result = EventPayload::from_json(invalid_uuid);
    assert!(result.is_err(), "Invalid UUID should be rejected");
}

#[test]
fn test_supported_event_types() {
    let supported_events = vec!["session.created", "session.joined"];

    for event_type in supported_events {
        println!("Supported event: {}", event_type);
    }

    println!("Unknown event types are not validated");
}

#[test]
fn test_event_payload_deserialization_edge_cases() {
    let with_extra = r#"{"event_type":"session.created","session_id":"550e8400-e29b-41d4-a716-446655440000","extra_field":"should be ignored","another":123}"#;
    let result = EventPayload::from_json(with_extra);
    assert!(result.is_ok(), "Extra fields should be ignored");

    let empty_type = r#"{"event_type":"","session_id":"550e8400-e29b-41d4-a716-446655440000"}"#;
    let result = EventPayload::from_json(empty_type);
    assert!(result.is_ok(), "Empty event_type is technically valid");

    let null_type = r#"{"event_type":null,"session_id":"550e8400-e29b-41d4-a716-446655440000"}"#;
    let result = EventPayload::from_json(null_type);
    assert!(result.is_err(), "Null event_type should be rejected");
}

#[test]
fn test_broadcast_message_format() {
    let session_id = Uuid::new_v4();
    let json_str = build_system_broadcast("session.created", session_id.as_u128());

    assert!(json_str.contains("session.created"));
    assert!(json_str.contains(&session_id.to_string()));
}

#[test]
fn test_subject_name_validation() {
    let subjects = vec!["session.created", "session.joined"];

    for subject in subjects {
        assert!(subject.starts_with("session."));
        assert!(!subject.contains(" "));
        assert!(!subject.contains("\n"));
    }
}

#[test]
fn test_system_broadcast_exact_format() {
    let sid = Uuid::parse_str("11111111-1111-1111-1111-111111111111").unwrap();
    let json = build_system_broadcast("session.joined", sid.as_u128());
    assert_eq!(
        json,
        r#"{"type":"session.joined","sessionId":"11111111-1111-1111-1111-111111111111"}"#
    );
}

#[test]
fn test_event_payload_parsed_session_id_matches_uuid_crate() {
    let sid = Uuid::new_v4();
    let payload = format!(
        r#"{{"event_type":"session.created","session_id":"{}"}}"#,
        sid
    );
    let ev = EventPayload::from_json(&payload).unwrap();
    assert_eq!(ev.session_id, sid.as_u128());
    assert_eq!(ev.event_type, "session.created");
}
