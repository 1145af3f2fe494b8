use chat_core::models::{ChatError, Id, Message, User};
use chat_core::storage::Storage;

fn user(name: &str, serial: u64) -> User {
    User::new(name.to_string(), serial)
}

fn message(sender: Id, receiver: Id, content: &str) -> Message {
    Message::new(sender, receiver, content.to_string())
}

#[test]
fn add_user_rejects_duplicate_username() {
    let mut s = Storage::new();
    let alice = user("alice", 0);
    let alice_id = alice.id;
    assert!(s.add_user(alice).is_ok());
    let twin = user("alice", 1);
    assert_eq!(s.add_user(twin).unwrap_err(), ChatError::DuplicateUsername);
    assert_eq!(s.user_count(), 1);
    let stored = s.get_user_by_username("alice").unwrap();
    assert_eq!(stored.id, alice_id);
}

#[test]
fn get_user_by_username_is_exact_match() {
    let mut s = Storage::new();
    s.add_user(user("alice", 0)).unwrap();
    assert!(s.get_user_by_username("Alice").is_none());
    assert!(s.get_user_by_username("alic").is_none());
    assert_eq!(s.get_user_by_username("alice").unwrap().username, "alice");
}

#[test]
fn get_user_looks_up_by_id() {
    let mut s = Storage::new();
    let alice = user("alice", 0);
    let id = alice.id;
    s.add_user(alice).unwrap();
    assert_eq!(s.get_user(id).unwrap().username, "alice");
    assert!(s.get_user(Id { hi: 1, lo: 2 }).is_none());
}

#[test]
fn messages_keep_creation_order() {
    let mut s = Storage::new();
    let a = Id { hi: 0, lo: 0 };
    let b = Id { hi: 0, lo: 1 };
    s.add_message(message(a, b, "first"));
    s.add_message(message(b, a, "second"));
    s.add_message(message(a, b, "third"));
    let for_a = s.get_messages_for_user(a);
    assert_eq!(for_a.len(), 3);
    assert_eq!(for_a[0].content, "first");
    assert_eq!(for_a[1].content, "second");
    assert_eq!(for_a[2].content, "third");
}

#[test]
fn search_messages_filters_by_participant_and_keyword() {
    let mut s = Storage::new();
    let a = Id { hi: 0, lo: 0 };
    let b = Id { hi: 0, lo: 1 };
    let c = Id { hi: 0, lo: 2 };
    s.add_message(message(a, b, "hello world"));
    s.add_message(message(c, b, "hello too"));
    s.add_message(message(a, b, "plain"));
    let hits = s.search_messages("HELLO", a);
    assert_eq!(hits.len(), 1);
    assert_eq!(hits[0].content, "hello world");
    assert!(s.search_messages("absent", a).is_empty());
}

#[test]
fn empty_keyword_matches_every_scoped_message() {
    let mut s = Storage::new();
    let a = Id { hi: 0, lo: 0 };
    let b = Id { hi: 0, lo: 1 };
    let c = Id { hi: 0, lo: 2 };
    s.add_message(message(a, b, "one"));
    s.add_message(message(c, b, "two"));
    assert_eq!(s.search_messages("", a).len(), 1);
    assert_eq!(s.search_messages("", b).len(), 2);
}

#[test]
fn delete_message_reports_whether_anything_went() {
    let mut s = Storage::new();
    let a = Id { hi: 0, lo: 0 };
    let b = Id { hi: 0, lo: 1 };
    let c = Id { hi: 0, lo: 2 };
    s.add_message(message(a, b, "hello world"));
    s.add_message(message(c, b, "hello kept"));
    assert!(!s.delete_message("world", c));
    assert!(s.delete_message("hello", a));
    assert!(!s.delete_message("hello", a));
    let left = s.get_messages_for_user(b);
    assert_eq!(left.len(), 1);
    assert_eq!(left[0].content, "hello kept");
}

#[test]
fn list_users_in_insertion_order() {
    let mut s = Storage::new();
    s.add_user(user("alice", 0)).unwrap();
    s.add_user(user("bob", 1)).unwrap();
    let users = s.list_users();
    assert_eq!(users.len(), 2);
    assert_eq!(users[0].username, "alice");
    assert_eq!(users[1].username, "bob");
}
