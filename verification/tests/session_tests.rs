use chat_server::config::WS_CHANNEL_BUFFER;
use chat_server::entity::message;
use chat_server::ws::session::{SessionHandle, SessionId};
use tokio::sync::mpsc;

#[test]
fn test_session_id_new_generates_unique() {
    let id1 = SessionId::new().expect("the system generator gives a session id");
    let id2 = SessionId::new().expect("the system generator gives a session id");
    assert!(id1 != id2);
}

#[test]
fn test_session_id_clone_equality() {
    let id1 = SessionId::new().expect("the system generator gives a session id");
    let id2 = id1.clone();
    assert!(id1 == id2);
}

#[test]
fn test_session_id_default() {
    let id1 = SessionId::default().expect("the system generator gives a session id");
    let id2 = SessionId::default().expect("the system generator gives a session id");
    assert!(id1 != id2);
}

#[test]
fn test_session_id_format() {
    let id = SessionId::new().expect("the system generator gives a session id");
    assert!(id.0.len() >= 40);
    assert!(!id.0.contains('+'));
    assert!(!id.0.contains('/'));
    assert!(!id.0.contains('='));
}

#[test]
fn test_session_id_not_empty() {
    let id = SessionId::new().expect("the system generator gives a session id");
    assert!(!id.0.is_empty());
}

#[test]
fn test_session_id_exact_length_and_alphabet() {
    let id = SessionId::new().expect("the system generator gives a session id");
    assert_eq!(id.0.chars().count(), 43);
    assert!(id
        .0
        .chars()
        .all(|c| c.is_ascii_alphanumeric() || c == '-' || c == '_'));
}

#[test]
fn test_session_handle_creation() {
    let (tx, _rx) = mpsc::channel::<message::Model>(1);
    let handle = SessionHandle::new("alice".to_string(), tx).expect("the system generator gives a session id");

    assert!(handle.user_name == "alice");
    assert!(!handle.session_id.0.is_empty());
}

#[test]
fn test_session_handle_unique_session_ids() {
    let (tx1, _rx1) = mpsc::channel::<message::Model>(1);
    let (tx2, _rx2) = mpsc::channel::<message::Model>(1);

    let handle1 = SessionHandle::new("user1".to_string(), tx1).expect("the system generator gives a session id");
    let handle2 = SessionHandle::new("user2".to_string(), tx2).expect("the system generator gives a session id");

    assert!(handle1.session_id != handle2.session_id);
}

#[test]
fn test_config_constants() {
    assert!(WS_CHANNEL_BUFFER > 0);
}

fn id_of(bytes: &[u8]) -> String {
    SessionId::from_random_bytes(bytes).0
}

#[test]
fn test_session_id_text_is_url_safe_base64_of_the_bytes() {
    assert_eq!(id_of(b""), "");
    assert_eq!(id_of(b"f"), "Zg");
    assert_eq!(id_of(b"fo"), "Zm8");
    assert_eq!(id_of(b"foo"), "Zm9v");
    assert_eq!(id_of(b"foob"), "Zm9vYg");
    assert_eq!(id_of(b"fooba"), "Zm9vYmE");
    assert_eq!(id_of(b"foobar"), "Zm9vYmFy");
}

#[test]
fn test_session_id_uses_the_url_safe_alphabet() {
    assert_eq!(id_of(&[0xfb, 0xff]), "-_8");
    assert_eq!(id_of(&[0xff, 0xff, 0xff]), "____");
    assert_eq!(id_of(&[0u8; 32]), "A".repeat(43));
}

#[test]
fn test_session_handle_with_id_keeps_its_parts() {
    let (tx, _rx) = mpsc::channel::<message::Model>(1);
    let handle = SessionHandle::with_id(SessionId("fixed".to_string()), "erin".to_string(), tx);
    assert_eq!(handle.session_id, SessionId("fixed".to_string()));
    assert_eq!(handle.user_name, "erin");
}
