use vstd::prelude::*;

use crate::models::{ChatError, Id, Message, MessageView, User, UserView};
use crate::storage::{
    find_by_id, find_by_username, message_views, messages_for, search_results, marked_for_delete,
    surviving, user_views, usernames_distinct, Storage,
};

verus! {

/// No two users carry the same id.
pub open spec fn ids_distinct(users: Seq<UserView>) -> bool {
    forall|i: int, j: int|
        0 <= i < j < users.len() ==> (#[trigger] users[i]).id != (#[trigger] users[j]).id
}

/// Business-rule layer atop `Storage`: register-or-login, and sending only
/// to an existing receiver. It owns the storage exclusively, so its
/// invariant cannot be broken from outside.
pub struct ChatHandler {
    storage: Storage,
}

impl ChatHandler {
    /// The registered users, in registration order.
    pub closed spec fn users(self) -> Seq<UserView> {
        self.storage.users_view()
    }

    /// The stored messages, in creation order.
    pub closed spec fn messages(self) -> Seq<MessageView> {
        self.storage.msgs_view()
    }

    /// Each id carries its registration count in the low word, which keeps
    /// issued ids unique.
    pub closed spec fn serials_in_order(self) -> bool {
        forall|i: int| 0 <= i < self.users().len() ==> (#[trigger] self.users()[i]).id.lo == i
    }

    /// The handler invariant: usernames unique, ids unique, id serials
    /// issued in registration order.
    pub open spec fn wf(self) -> bool {
        usernames_distinct(self.users()) && ids_distinct(self.users()) && self.serials_in_order()
    }

    /// A handler over an empty storage.
    pub fn new() -> (h: ChatHandler)
        ensures
            h.wf(),
            h.users() == Seq::<UserView>::empty(),
            h.messages() == Seq::<MessageView>::empty(),
    {
        ChatHandler { storage: Storage::new() }
    }

    /// Returns the user with this username, creating one with a fresh id if
    /// none exists yet. Always succeeds.
    pub fn register_or_login(&mut self, username: String) -> (r: Result<User, ChatError>)
        requires
            old(self).wf(),
        ensures
            final(self).wf(),
            final(self).messages() == old(self).messages(),
            r is Ok,
            match find_by_username(old(self).users(), username@) {
                Some(u) => r matches Ok(ru) && ru@ == u && final(self).users() == old(
                    self,
                ).users(),
                None => r matches Ok(ru) && ru@.username == username@ && ru@.id.lo == old(
                    self,
                ).users().len() && final(self).users() == old(self).users().push(ru@) && (
                forall|k: int|
                    0 <= k < old(self).users().len() ==> (#[trigger] old(self).users()[k]).id
                        != ru@.id),
            },
    {
        let existing = self.storage.get_user_by_username(username.as_str());
        match existing {
            Some(u) => Ok(u),
            None => {
                let ghost uv = old(self).users();
                let serial = self.storage.user_count() as u64;
                let user = User::new(username, serial);
                let stored = User { id: user.id, username: user.username.clone() };
                proof {
                    assert(stored@ == user@);
                }
                let added = self.storage.add_user(stored);
                proof {
                    let nv = self.users();
                    assert(nv == uv.push(user@));
                    assert forall|i: int, j: int|
                        0 <= i < j < nv.len() implies (#[trigger] nv[i]).id != (
                    #[trigger] nv[j]).id by {
                        if j < nv.len() - 1 {
                            assert(uv[i] == nv[i] && uv[j] == nv[j]);
                        } else {
                            assert(uv[i] == nv[i]);
                            assert(nv[i].id.lo == i && nv[j].id.lo == uv.len());
                        }
                    }
                    assert forall|i: int| 0 <= i < nv.len() implies (#[trigger] nv[i]).id.lo
                        == i by {
                        if i < nv.len() - 1 {
                            assert(uv[i] == nv[i]);
                        }
                    }
                    assert forall|k: int|
                        0 <= k < uv.len() implies (#[trigger] uv[k]).id != user@.id by {
                        assert(uv[k].id.lo == k && user@.id.lo == uv.len());
                    }
                }
                match added {
                    Ok(()) => Ok(user),
                    Err(e) => Err(e),
                }
            },
        }
    }

    /// Stores a message for the named receiver, or reports that no such
    /// user exists. The sender id is taken on trust.
    pub fn send_message(
        &mut self,
        sender_id: Id,
        receiver_username: &str,
        content: String,
    ) -> (r: Result<Message, ChatError>)
        requires
            old(self).wf(),
        ensures
            final(self).wf(),
            final(self).users() == old(self).users(),
            match find_by_username(old(self).users(), receiver_username@) {
                None => r == Err::<Message, ChatError>(ChatError::ReceiverNotFound)
                    && final(self).messages() == old(self).messages(),
                Some(recv) => r matches Ok(m) && m@.sender_id == sender_id && m@.receiver_id
                    == recv.id && m@.content == content@ && final(self).messages() == old(
                    self,
                ).messages().push(m@),
            },
    {
        let receiver = self.storage.get_user_by_username(receiver_username);
        match receiver {
            None => Err(ChatError::ReceiverNotFound),
            Some(recv) => {
                let message = Message::new(sender_id, recv.id, content);
                let stored = Message {
                    id: message.id,
                    sender_id: message.sender_id,
                    receiver_id: message.receiver_id,
                    content: message.content.clone(),
                    timestamp: message.timestamp,
                };
                proof {
                    assert(stored@ == message@);
                }
                self.storage.add_message(stored);
                Ok(message)
            },
        }
    }

    /// Every message this user sent or received, in creation order.
    pub fn get_messages(&self, user_id: Id) -> (r: Vec<Message>)
        ensures
            message_views(r@) == messages_for(self.messages(), user_id),
    {
        self.storage.get_messages_for_user(user_id)
    }

    /// Every message this user sent or received whose content contains the
    /// keyword case-insensitively, in creation order.
    pub fn search_messages(&self, keyword: &str, user_id: Id) -> (r: Vec<Message>)
        ensures
            message_views(r@) == search_results(self.messages(), keyword@, user_id),
    {
        self.storage.search_messages(keyword, user_id)
    }

    /// Removes this user's messages matching the keyword; reports whether
    /// anything was removed.
    pub fn delete_message(&mut self, keyword: &str, user_id: Id) -> (r: bool)
        requires
            old(self).wf(),
        ensures
            final(self).wf(),
            final(self).users() == old(self).users(),
            final(self).messages() == surviving(old(self).messages(), keyword@, user_id),
            r == (final(self).messages().len() != old(self).messages().len()),
            r <==> exists|i: int|
                0 <= i < old(self).messages().len() && marked_for_delete(
                    #[trigger] old(self).messages()[i],
                    keyword@,
                    user_id,
                ),
    {
        self.storage.delete_message(keyword, user_id)
    }

    /// Every registered user, in registration order.
    pub fn list_users(&self) -> (r: Vec<User>)
        ensures
            user_views(r@) == self.users(),
    {
        self.storage.list_users()
    }

    /// The registered user with this id, if any.
    pub fn get_user(&self, id: Id) -> (r: Option<User>)
        ensures
            (r is Some) == (find_by_id(self.users(), id) is Some),
            r matches Some(u) ==> Some(u@) == find_by_id(self.users(), id),
    {
        self.storage.get_user(id)
    }
}

/// Law: two different registrations never produce users with equal ids or
/// equal usernames — distinct entries of the registry differ in both.
pub proof fn lemma_registered_users_distinct(h: ChatHandler, i: int, j: int)
    requires
        h.wf(),
        0 <= i < h.users().len(),
        0 <= j < h.users().len(),
        i != j,
    ensures
        h.users()[i].id != h.users()[j].id,
        h.users()[i].username != h.users()[j].username,
{
}

} // verus!
