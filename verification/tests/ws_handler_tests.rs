use realtime_service::chat_message::ChatMessage;
use realtime_service::session_manager::MAILBOX_CAPACITY;
use realtime_service::ws_handler::HEARTBEAT_INTERVAL_SECS;

#[test]
fn test_chat_message_validation() {
    let valid = r#"{"msg_type":"text","content":"Hello"}"#;
    let result = ChatMessage::from_json(valid);
    assert!(result.is_ok(), "Valid message should parse");

    let invalid = r#"{"msg_type":"text"}"#;
    let result = ChatMessage::from_json(invalid);
    assert!(result.is_err(), "Should reject missing content");

    let extra = r#"{"msg_type":"text","content":"Hi","extra":"field"}"#;
    let result = ChatMessage::from_json(extra);
    assert!(result.is_ok(), "Should ignore extra fields");
}

#[test]
fn test_malformed_json_handling() {
    let malformed_messages = vec![
        r#"{"msg_type":"text""#,
        r#"{msg_type:text}"#,
        r#"not json at all"#,
        r#""#,
    ];

    for msg in malformed_messages {
        let result = ChatMessage::from_json(msg);
        assert!(result.is_err(), "Should reject: {}", msg);
    }

    // a member the frame does not know is ignored whatever its value holds
    let null_extra = r#"{"msg_type":null,"content":"test"}"#;
    assert!(ChatMessage::from_json(null_extra).is_ok());
}

#[test]
fn test_xss_payload_not_sanitized() {
    let xss = r#"{"msg_type":"text","content":"<script>alert('XSS')</script>"}"#;
    let msg = ChatMessage::from_json(xss).unwrap();

    assert!(msg.content.contains("<script>"));
}

#[test]
fn test_sql_injection_payload() {
    let sql = r#"{"msg_type":"text","content":"'; DROP TABLE users; --"}"#;
    let msg = ChatMessage::from_json(sql).unwrap();

    assert!(msg.content.contains("DROP TABLE"));
}

#[test]
fn test_oversized_message_accepted() {
    let large_content = "A".repeat(10_000_000);
    let msg = ChatMessage { content: large_content.clone() };

    let json = msg.to_json();

    assert!(json.len() > 10_000_000);
}

#[test]
fn test_unicode_edge_cases() {
    let test_cases = vec![
        ("Emoji", "Hello 👋🌍"),
        ("Chinese", "你好世界"),
        ("Arabic", "مرحبا بالعالم"),
        ("Mixed", "Hello世界🌍"),
    ];

    for (name, content) in test_cases {
        let msg = ChatMessage { content: content.to_string() };

        let json = msg.to_json();
        let parsed = ChatMessage::from_json(&json).unwrap();

        assert_eq!(parsed.content, content, "Failed for: {}", name);
    }
}

#[test]
fn test_control_characters() {
    let control_chars = vec![
        "\u{0000}",
        "\u{0001}",
        "\u{0008}",
        "\u{001B}",
        "\r\n",
    ];

    for ctrl in control_chars {
        let msg = ChatMessage { content: format!("Test{}Message", ctrl) };

        let json = msg.to_json();

        assert!(json.contains("Test"));
        let parsed = ChatMessage::from_json(&json).unwrap();
        assert_eq!(parsed.content, format!("Test{}Message", ctrl));
    }
}

#[test]
fn test_deeply_nested_json() {
    let mut nested = String::from(r#"{"msg_type":"text","content":"#);
    for _ in 0..1000 {
        nested.push_str(r#"{"nested":"#);
    }
    nested.push_str("value");
    for _ in 0..1000 {
        nested.push_str("\"}");
    }
    nested.push_str("\"}");

    let result = ChatMessage::from_json(&nested);
    println!("Deep nesting result: {:?}", result.is_err());
}

#[test]
fn ws_handler_tests_test_connection_id_collision() {
    let mut ids = std::collections::HashSet::new();

    for _ in 0..1000 {
        let id = rand::random::<u64>() as usize;
        if !ids.insert(id) {
            println!("Connection ID collision detected!");
            return;
        }
    }
}

#[test]
fn test_message_parsing_performance() {
    let msg = r#"{"msg_type":"text","content":"Hello, World!"}"#;
    let start = std::time::Instant::now();

    for _ in 0..10_000 {
        let _ = ChatMessage::from_json(msg).unwrap();
    }

    let duration = start.elapsed();
    println!("10k message parses: {:?}", duration);
    assert!(duration.as_millis() < 1000, "Parsing too slow");
}

#[test]
fn test_heartbeat_interval_constant() {
    assert!(HEARTBEAT_INTERVAL_SECS >= 5, "Heartbeat too frequent");
    assert!(HEARTBEAT_INTERVAL_SECS <= 30, "Heartbeat too infrequent");
}

#[test]
fn test_message_channel_buffer_size() {
    assert_eq!(MAILBOX_CAPACITY, 16);
}
