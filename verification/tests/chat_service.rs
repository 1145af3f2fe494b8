use chat_core::handlers::ChatHandler;
use chat_core::models::{ChatError, Id};

#[test]
fn register_new_username_succeeds() {
    let mut h = ChatHandler::new();
    let alice = h.register_or_login("alice".to_string()).unwrap();
    assert_eq!(alice.username, "alice");
    let bob = h.register_or_login("bob".to_string()).unwrap();
    assert_eq!(bob.username, "bob");
    let carol = h.register_or_login("carol".to_string()).unwrap();
    assert_ne!(alice.id, bob.id);
    assert_ne!(alice.id, carol.id);
    assert_ne!(bob.id, carol.id);
}

#[test]
fn register_existing_username_logs_in() {
    let mut h = ChatHandler::new();
    let first = h.register_or_login("alice".to_string()).unwrap();
    let count_before = h.list_users().len();
    let again = h.register_or_login("alice".to_string()).unwrap();
    assert_eq!(first.id, again.id);
    assert_eq!(again.username, "alice");
    assert_eq!(h.list_users().len(), count_before);
}

#[test]
fn usernames_are_case_sensitive() {
    let mut h = ChatHandler::new();
    let lower = h.register_or_login("alice".to_string()).unwrap();
    let upper = h.register_or_login("Alice".to_string()).unwrap();
    assert_ne!(lower.id, upper.id);
    assert_eq!(h.list_users().len(), 2);
}

#[test]
fn send_to_missing_receiver_fails() {
    let mut h = ChatHandler::new();
    let alice = h.register_or_login("alice".to_string()).unwrap();
    let r = h.send_message(alice.id, "nobody", "hi".to_string());
    assert_eq!(r.unwrap_err(), ChatError::ReceiverNotFound);
    assert!(h.get_messages(alice.id).is_empty());
}

#[test]
fn message_visible_to_sender_and_receiver_only() {
    let mut h = ChatHandler::new();
    let alice = h.register_or_login("alice".to_string()).unwrap();
    let bob = h.register_or_login("bob".to_string()).unwrap();
    let carol = h.register_or_login("carol".to_string()).unwrap();
    let sent = h.send_message(alice.id, "bob", "hi bob".to_string()).unwrap();
    assert_eq!(sent.sender_id, alice.id);
    assert_eq!(sent.receiver_id, bob.id);
    assert!(sent.timestamp >= 0);
    let for_alice = h.get_messages(alice.id);
    assert_eq!(for_alice.len(), 1);
    assert_eq!(for_alice[0].id, sent.id);
    let for_bob = h.get_messages(bob.id);
    assert_eq!(for_bob.len(), 1);
    assert_eq!(for_bob[0].content, "hi bob");
    assert!(h.get_messages(carol.id).is_empty());
}

#[test]
fn search_is_case_insensitive_and_scoped() {
    let mut h = ChatHandler::new();
    let alice = h.register_or_login("alice".to_string()).unwrap();
    let bob = h.register_or_login("bob".to_string()).unwrap();
    let carol = h.register_or_login("carol".to_string()).unwrap();
    h.send_message(alice.id, "bob", "hello world".to_string()).unwrap();
    h.send_message(carol.id, "bob", "hello again".to_string()).unwrap();
    let hits = h.search_messages("HELLO", alice.id);
    assert_eq!(hits.len(), 1);
    assert_eq!(hits[0].content, "hello world");
    let bob_hits = h.search_messages("HELLO", bob.id);
    assert_eq!(bob_hits.len(), 2);
    assert!(h.search_messages("WORLD", carol.id).is_empty());
}

#[test]
fn search_matches_inner_substring() {
    let mut h = ChatHandler::new();
    let alice = h.register_or_login("alice".to_string()).unwrap();
    h.register_or_login("bob".to_string()).unwrap();
    h.send_message(alice.id, "bob", "Hello World".to_string()).unwrap();
    assert_eq!(h.search_messages("o w", alice.id).len(), 1);
    assert!(h.search_messages("xyz", alice.id).is_empty());
}

#[test]
fn delete_removes_exactly_the_matching_messages() {
    let mut h = ChatHandler::new();
    let alice = h.register_or_login("alice".to_string()).unwrap();
    let bob = h.register_or_login("bob".to_string()).unwrap();
    let carol = h.register_or_login("carol".to_string()).unwrap();
    h.send_message(alice.id, "bob", "hello world".to_string()).unwrap();
    h.send_message(bob.id, "alice", "Say Hello".to_string()).unwrap();
    h.send_message(alice.id, "bob", "unrelated".to_string()).unwrap();
    h.send_message(carol.id, "bob", "hello there".to_string()).unwrap();
    assert!(h.delete_message("hello", alice.id));
    let for_alice = h.get_messages(alice.id);
    assert_eq!(for_alice.len(), 1);
    assert_eq!(for_alice[0].content, "unrelated");
    let for_bob = h.get_messages(bob.id);
    assert_eq!(for_bob.len(), 2);
    assert_eq!(for_bob[0].content, "unrelated");
    assert_eq!(for_bob[1].content, "hello there");
    assert!(!h.delete_message("hello", alice.id));
}

#[test]
fn register_send_search_delete_scenario() {
    let mut h = ChatHandler::new();
    let alice = h.register_or_login("alice".to_string()).unwrap();
    let bob = h.register_or_login("bob".to_string()).unwrap();
    let sent = h.send_message(alice.id, "bob", "Hello Bob".to_string()).unwrap();
    let for_bob = h.get_messages(bob.id);
    assert_eq!(for_bob.len(), 1);
    assert_eq!(for_bob[0].content, "Hello Bob");
    assert_eq!(for_bob[0].sender_id, alice.id);
    let hits = h.search_messages("hello", alice.id);
    assert_eq!(hits.len(), 1);
    assert_eq!(hits[0].id, sent.id);
    assert!(h.delete_message("hello", alice.id));
    assert!(h.get_messages(alice.id).is_empty());
}

#[test]
fn get_user_finds_registered_ids_only() {
    let mut h = ChatHandler::new();
    let alice = h.register_or_login("alice".to_string()).unwrap();
    let found = h.get_user(alice.id).unwrap();
    assert_eq!(found.id, alice.id);
    assert_eq!(found.username, "alice");
    assert!(h.get_user(Id { hi: 7, lo: 999 }).is_none());
}

#[test]
fn list_users_reports_everyone() {
    let mut h = ChatHandler::new();
    assert!(h.list_users().is_empty());
    h.register_or_login("alice".to_string()).unwrap();
    h.register_or_login("bob".to_string()).unwrap();
    let users = h.list_users();
    assert_eq!(users.len(), 2);
    assert_eq!(users[0].username, "alice");
    assert_eq!(users[1].username, "bob");
}
