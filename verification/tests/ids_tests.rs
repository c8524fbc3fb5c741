use realtime_service::auth::AuthError;
use realtime_service::ids::{format_uuid, parse_uuid};
use realtime_service::ws_handler::{check_upgrade, UpgradeError};
use uuid::Uuid;

#[test]
fn test_uuid_format_matches_uuid_crate() {
    for _ in 0..50 {
        let u = Uuid::new_v4();
        assert_eq!(format_uuid(u.as_u128()), u.to_string());
    }
}

#[test]
fn test_uuid_parse_matches_uuid_crate() {
    for _ in 0..50 {
        let u = Uuid::new_v4();
        assert_eq!(parse_uuid(&u.to_string()), Some(u.as_u128()));
        assert_eq!(parse_uuid(&u.simple().to_string()), Some(u.as_u128()));
        assert_eq!(parse_uuid(&u.to_string().to_uppercase()), Some(u.as_u128()));
    }
}

#[test]
fn test_uuid_parse_rejects_malformed() {
    let bad = vec![
        "",
        "not-a-uuid",
        "550e8400-e29b-41d4-a716-44665544000",   // one digit short
        "550e8400-e29b-41d4-a716-4466554400000", // one digit long
        "550e8400+e29b+41d4+a716+446655440000",  // wrong separators
        "g50e8400-e29b-41d4-a716-446655440000",  // not a hex digit
    ];
    for s in bad {
        assert_eq!(parse_uuid(s), None, "case: {}", s);
    }
}

#[test]
fn test_uuid_roundtrip() {
    let u = Uuid::parse_str("550e8400-e29b-41d4-a716-446655440000").unwrap().as_u128();
    assert_eq!(parse_uuid(&format_uuid(u)), Some(u));
    assert_eq!(parse_uuid(&format_uuid(0)), Some(0));
    assert_eq!(parse_uuid(&format_uuid(u128::MAX)), Some(u128::MAX));
}

#[test]
fn test_check_upgrade_rejects_bad_session_id() {
    let r = check_upgrade("invalid-uuid", "whatever", b"secret", 1_700_000_000);
    assert!(matches!(r, Err(UpgradeError::BadSessionId)), "invalid session id is a 400");
}

#[test]
fn test_check_upgrade_rejects_bad_token() {
    let sid = Uuid::new_v4();
    let r = check_upgrade(&sid.to_string(), "not a token", b"secret", 1_700_000_000);
    assert!(matches!(r, Err(UpgradeError::Auth(AuthError::Malformed))), "bad token is a 401");
}
