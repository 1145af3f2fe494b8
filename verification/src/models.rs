use vstd::prelude::*;

verus! {

/// An opaque identifier: the two 64-bit words of a 128-bit value.
#[derive(Clone, Copy, PartialEq, Eq, Structural, Debug)]
pub struct Id {
    pub hi: u64,
    pub lo: u64,
}

/// The two ways a chat operation can fail.
#[derive(Clone, Copy, PartialEq, Eq, Structural, Debug)]
pub enum ChatError {
    DuplicateUsername,
    ReceiverNotFound,
}

/// A registered participant: a unique username and an opaque id.
#[derive(Debug)]
pub struct User {
    pub id: Id,
    pub username: String,
}

/// The mathematical value of a `User`.
pub struct UserView {
    pub id: Id,
    pub username: Seq<char>,
}

impl View for User {
    type V = UserView;

    open spec fn view(&self) -> UserView {
        UserView { id: self.id, username: self.username@ }
    }
}

/// An immutable, timestamped unit of content from a sender to a receiver.
/// The timestamp counts non-leap milliseconds since the Unix epoch, UTC.
#[derive(Debug)]
pub struct Message {
    pub id: Id,
    pub sender_id: Id,
    pub receiver_id: Id,
    pub content: String,
    pub timestamp: i64,
}

/// The mathematical value of a `Message`.
pub struct MessageView {
    pub id: Id,
    pub sender_id: Id,
    pub receiver_id: Id,
    pub content: Seq<char>,
    pub timestamp: i64,
}

impl View for Message {
    type V = MessageView;

    open spec fn view(&self) -> MessageView {
        MessageView {
            id: self.id,
            sender_id: self.sender_id,
            receiver_id: self.receiver_id,
            content: self.content@,
            timestamp: self.timestamp,
        }
    }
}

/// Whether `uid` is the sender or the receiver of `m`.
pub open spec fn involves(m: MessageView, uid: Id) -> bool {
    m.sender_id == uid || m.receiver_id == uid
}

/// Relies on uuid::Uuid::new_v4 (split by as_u64_pair): a freshly drawn
/// random 128-bit value; nothing is promised of the words that come back.
#[verifier::external_body]
fn fresh_id_words() -> (r: (u64, u64)) {
    uuid::Uuid::new_v4().as_u64_pair()
}

impl User {
    /// A new user: the low word of the id is the caller-chosen serial, the
    /// high word is drawn at random.
    pub fn new(username: String, serial: u64) -> (u: User)
        ensures
            u@.username == username@,
            u@.id.lo == serial,
    {
        let (hi, _) = fresh_id_words();
        User { id: Id { hi, lo: serial }, username }
    }
}

impl Message {
    /// A new message, stamped with a random id and the current time.
    pub fn new(sender_id: Id, receiver_id: Id, content: String) -> (m: Message)
        ensures
            m@.sender_id == sender_id,
            m@.receiver_id == receiver_id,
            m@.content == content@,
            m@.timestamp >= 0,
    {
        let (hi, lo) = fresh_id_words();
        let timestamp = crate::utils::now_millis();
        Message { id: Id { hi, lo }, sender_id, receiver_id, content, timestamp }
    }
}

} // verus!
