use jsonwebtoken::{crypto::sign, Algorithm, EncodingKey};
use realtime_service::auth::{validate_token, AuthError};
use uuid::Uuid;

fn b64url(data: &[u8]) -> String {
    // unpadded base64url, built by hand so the token shape is explicit
    const ALPHABET: &[u8] = b"ABCDEFGHIJKLMNOPQRSTUVWXYZabcdefghijklmnopqrstuvwxyz0123456789-_";
    let mut out = String::new();
    for chunk in data.chunks(3) {
        let b0 = chunk[0] as u32;
        let b1 = *chunk.get(1).unwrap_or(&0) as u32;
        let b2 = *chunk.get(2).unwrap_or(&0) as u32;
        let triple = (b0 << 16) | (b1 << 8) | b2;
        out.push(ALPHABET[(triple >> 18) as usize & 63] as char);
        out.push(ALPHABET[(triple >> 12) as usize & 63] as char);
        if chunk.len() > 1 {
            out.push(ALPHABET[(triple >> 6) as usize & 63] as char);
        }
        if chunk.len() > 2 {
            out.push(ALPHABET[triple as usize & 63] as char);
        }
    }
    out
}

fn make_token(sub: &str, name: &str, email: &str, exp: u64, secret: &[u8]) -> String {
    let header = r#"{"alg":"HS256","typ":"JWT"}"#;
    let claims = format!(
        r#"{{"sub":"{}","name":"{}","email":"{}","exp":{}}}"#,
        sub, name, email, exp
    );
    let message = format!("{}.{}", b64url(header.as_bytes()), b64url(claims.as_bytes()));
    let key = EncodingKey::from_secret(secret);
    let sig = sign(message.as_bytes(), &key, Algorithm::HS256).expect("signing must work");
    format!("{}.{}", message, sig)
}

#[test]
fn test_valid_token_accepted() {
    let secret = b"a-shared-test-secret";
    let sub = Uuid::new_v4();
    let token = make_token(&sub.to_string(), "Alice", "alice@example.com", 4_000_000_000, secret);

    let claims = validate_token(&token, secret, 1_700_000_000).expect("token should verify");
    assert_eq!(claims.sub, sub.as_u128());
    assert_eq!(claims.name, "Alice");
    assert_eq!(claims.email, "alice@example.com");
    assert_eq!(claims.exp, 4_000_000_000);
}

#[test]
fn test_wrong_secret_rejected() {
    let sub = Uuid::new_v4();
    let token = make_token(&sub.to_string(), "Mallory", "m@example.com", 4_000_000_000, b"key-one");

    let r = validate_token(&token, b"key-two", 1_700_000_000);
    assert_eq!(r.unwrap_err(), AuthError::InvalidSignature);
}

#[test]
fn test_expired_token_rejected() {
    let secret = b"a-shared-test-secret";
    let sub = Uuid::new_v4();
    let token = make_token(&sub.to_string(), "Old", "old@example.com", 1_000, secret);

    let r = validate_token(&token, secret, 1_700_000_000);
    assert_eq!(r.unwrap_err(), AuthError::Expired);
}

#[test]
fn test_expiry_leeway_honoured() {
    let secret = b"a-shared-test-secret";
    let sub = Uuid::new_v4();
    let token = make_token(&sub.to_string(), "Edge", "e@example.com", 1_000_000, secret);

    // 30 s past the expiry is still inside the 60 s leeway
    assert!(validate_token(&token, secret, 1_000_030).is_ok());
    // 61 s past it is not
    assert_eq!(validate_token(&token, secret, 1_000_061).unwrap_err(), AuthError::Expired);
}

#[test]
fn test_malformed_tokens_rejected() {
    let secret = b"a-shared-test-secret";
    let cases = vec![
        "",
        "not a token",
        "one.dot",
        "a.b.c.d",
        "!!!.???.###",
    ];
    for token in cases {
        let r = validate_token(token, secret, 1_700_000_000);
        assert_eq!(r.unwrap_err(), AuthError::Malformed, "case: {}", token);
    }
}

#[test]
fn test_tampered_payload_rejected() {
    let secret = b"a-shared-test-secret";
    let sub = Uuid::new_v4();
    let token = make_token(&sub.to_string(), "Alice", "a@example.com", 4_000_000_000, secret);
    let parts: Vec<&str> = token.split('.').collect();
    let forged_claims = format!(
        r#"{{"sub":"{}","name":"Admin","email":"a@example.com","exp":4000000000}}"#,
        sub
    );
    let forged = format!("{}.{}.{}", parts[0], b64url(forged_claims.as_bytes()), parts[2]);

    let r = validate_token(&forged, secret, 1_700_000_000);
    assert_eq!(r.unwrap_err(), AuthError::InvalidSignature);
}

#[test]
fn test_wrong_algorithm_header_rejected() {
    let secret = b"a-shared-test-secret";
    let header = r#"{"alg":"none","typ":"JWT"}"#;
    let claims = r#"{"sub":"550e8400-e29b-41d4-a716-446655440000","name":"x","email":"y","exp":4000000000}"#;
    let message = format!("{}.{}", b64url(header.as_bytes()), b64url(claims.as_bytes()));
    let key = EncodingKey::from_secret(secret);
    let sig = sign(message.as_bytes(), &key, Algorithm::HS256).unwrap();
    let token = format!("{}.{}", message, sig);

    let r = validate_token(&token, secret, 1_700_000_000);
    assert_eq!(r.unwrap_err(), AuthError::Malformed);
}

#[test]
fn test_security_headers_missing() {
    println!("MISSING SECURITY HEADERS:");
    println!("    - No CSP (Content-Security-Policy)");
    println!("    - No X-Frame-Options");
    println!("    - No X-Content-Type-Options");
    println!("    - No Strict-Transport-Security");
    println!("    - No authentication/authorization");
}

#[test]
fn test_logging_security() {
    println!("LOGGING SECURITY ISSUES:");
    println!("    - Passwords/tokens might be logged");
    println!("    - No log sanitization");
    println!("    - Sensitive data in debug output");
    println!("    - No structured logging");
}

#[test]
fn test_encryption_at_rest() {
    println!("NO ENCRYPTION AT REST:");
    println!("    - Messages not encrypted in memory");
    println!("    - Session data not encrypted");
    println!("    - No message persistence encryption");
}

#[test]
fn test_tls_configuration() {
    println!("TLS CONFIGURATION:");
    println!("    - Service uses ws:// not wss://");
    println!("    - No TLS/SSL encryption");
    println!("    - Messages sent in plaintext");
    println!("    - Vulnerable to MITM attacks");
}
