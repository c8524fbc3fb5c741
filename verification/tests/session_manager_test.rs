use realtime_service::auth::Claims;
use realtime_service::session_manager::{Connection, SessionManager};
use uuid::Uuid;

fn test_claims() -> Claims {
    Claims {
        sub: Uuid::new_v4().as_u128(),
        name: "user".to_string(),
        email: "user@example.com".to_string(),
        exp: 4_000_000_000,
    }
}

fn create_test_connection() -> Connection {
    Connection::new(test_claims())
}

#[test]
fn test_new_session_manager_is_empty() {
    let manager = SessionManager::new();
    assert_eq!(manager.session_count(), 0, "New SessionManager should be empty");
}

#[test]
fn test_insert_single_connection() {
    let mut manager = SessionManager::new();
    let session_id = Uuid::new_v4().as_u128();
    let conn_id = 1;
    let conn = create_test_connection();

    manager.insert(session_id, conn_id, conn);

    assert_eq!(manager.session_count(), 1, "Should have 1 session");
    assert!(manager.contains_session(session_id), "Should contain the session_id");
    assert_eq!(manager.session_len(session_id), 1, "Session should have 1 connection");
}

#[test]
fn test_insert_multiple_connections_same_session() {
    let mut manager = SessionManager::new();
    let session_id = Uuid::new_v4().as_u128();

    for conn_id in 0..10 {
        manager.insert(session_id, conn_id, create_test_connection());
    }

    assert_eq!(manager.session_len(session_id), 10, "Session should have 10 connections");
}

#[test]
fn test_insert_multiple_sessions() {
    let mut manager = SessionManager::new();

    for _ in 0..5 {
        let session_id = Uuid::new_v4().as_u128();
        manager.insert(session_id, 1, create_test_connection());
    }

    assert_eq!(manager.session_count(), 5, "Should have 5 different sessions");
}

#[test]
fn test_remove_connection() {
    let mut manager = SessionManager::new();
    let session_id = Uuid::new_v4().as_u128();
    let conn_id = 1;

    manager.insert(session_id, conn_id, create_test_connection());
    manager.remove(session_id, conn_id);

    assert_eq!(manager.session_count(), 0, "Session should be removed when empty");
}

#[test]
fn test_remove_one_of_multiple_connections() {
    let mut manager = SessionManager::new();
    let session_id = Uuid::new_v4().as_u128();

    manager.insert(session_id, 1, create_test_connection());
    manager.insert(session_id, 2, create_test_connection());
    manager.remove(session_id, 1);

    assert_eq!(manager.session_len(session_id), 1, "Should have 1 connection remaining");
    assert!(!manager.contains_conn(session_id, 1), "Connection 1 should be removed");
    assert!(manager.contains_conn(session_id, 2), "Connection 2 should remain");
}

#[test]
fn test_remove_nonexistent_connection() {
    let mut manager = SessionManager::new();
    let session_id = Uuid::new_v4().as_u128();

    manager.remove(session_id, 999);

    assert_eq!(manager.session_count(), 0);
}

#[test]
fn test_duplicate_conn_id_overwrites() {
    let mut manager = SessionManager::new();
    let session_id = Uuid::new_v4().as_u128();
    let conn_id = 1;

    manager.insert(session_id, conn_id, create_test_connection());
    manager.insert(session_id, conn_id, create_test_connection());

    assert_eq!(manager.session_len(session_id), 1, "Duplicate conn_id should overwrite, not add");
}

#[test]
fn test_broadcast_message_to_single_connection() {
    let mut manager = SessionManager::new();
    let session_id = Uuid::new_v4().as_u128();

    manager.insert(session_id, 1, create_test_connection());
    manager.broadcast_message(session_id, "test message", None);

    let received = manager.pop_message(session_id, 1).expect("Should receive a message");
    assert_eq!(received, "test message");
}

#[test]
fn test_broadcast_message_to_multiple_connections() {
    let mut manager = SessionManager::new();
    let session_id = Uuid::new_v4().as_u128();

    for conn_id in 0..5 {
        manager.insert(session_id, conn_id, create_test_connection());
    }

    manager.broadcast_message(session_id, "broadcast", None);

    for conn_id in 0..5 {
        let received = manager.pop_message(session_id, conn_id).expect("Should have message");
        assert_eq!(received, "broadcast");
    }
}

#[test]
fn test_broadcast_with_skip_id() {
    let mut manager = SessionManager::new();
    let session_id = Uuid::new_v4().as_u128();

    manager.insert(session_id, 1, create_test_connection());
    manager.insert(session_id, 2, create_test_connection());

    manager.broadcast_message(session_id, "test", Some(1));

    assert!(manager.pop_message(session_id, 1).is_none(), "Connection 1 should be skipped");
    let received2 = manager.pop_message(session_id, 2).expect("Should have message");
    assert_eq!(received2, "test");
}

#[test]
fn test_broadcast_to_nonexistent_session() {
    let mut manager = SessionManager::new();
    let session_id = Uuid::new_v4().as_u128();

    let (sent, failed) = manager.broadcast_message(session_id, "test", None);
    assert_eq!((sent, failed), (0, 0));
}

#[test]
fn test_broadcast_with_full_channel() {
    let mut manager = SessionManager::new();
    let session_id = Uuid::new_v4().as_u128();

    manager.insert(session_id, 1, create_test_connection());

    for k in 0..16 {
        let (sent, failed) = manager.broadcast_message(session_id, &format!("msg{}", k), None);
        assert_eq!((sent, failed), (1, 0));
    }
    let (sent, failed) = manager.broadcast_message(session_id, "overflow", None);
    assert_eq!((sent, failed), (0, 1), "A full mailbox drops the payload and counts it");
}

#[test]
fn test_memory_leak_prevention() {
    let mut manager = SessionManager::new();

    for _ in 0..1000 {
        let session_id = Uuid::new_v4().as_u128();
        manager.insert(session_id, 1, create_test_connection());
        manager.remove(session_id, 1);
    }

    assert_eq!(manager.session_count(), 0, "All sessions should be cleaned up");
}

#[test]
fn session_manager_test_test_session_isolation() {
    let mut manager = SessionManager::new();
    let session1 = Uuid::new_v4().as_u128();
    let session2 = Uuid::new_v4().as_u128();

    manager.insert(session1, 1, create_test_connection());
    manager.insert(session2, 1, create_test_connection());

    manager.remove(session1, 1);

    assert!(!manager.contains_session(session1), "Session 1 should be removed");
    assert!(manager.contains_session(session2), "Session 2 should remain");
}

#[test]
fn test_identity_preserved_across_operations() {
    let mut manager = SessionManager::new();
    let session_id = Uuid::new_v4().as_u128();
    let claims = Claims {
        sub: Uuid::new_v4().as_u128(),
        name: "Alice".to_string(),
        email: "alice@example.com".to_string(),
        exp: 4_000_000_000,
    };
    let sub = claims.sub;

    manager.insert(session_id, 7, Connection::new(claims));
    manager.insert(session_id, 8, create_test_connection());
    manager.broadcast_message(session_id, "hello", None);
    manager.pop_message(session_id, 7);
    manager.remove(session_id, 8);

    let info = manager.get_user_info(session_id, 7).expect("identity should still be there");
    assert_eq!(info.sub, sub);
    assert_eq!(info.name, "Alice");
    assert_eq!(info.email, "alice@example.com");
    assert_eq!(info.exp, 4_000_000_000);
}
