use vstd::prelude::*;

use crate::models::{ChatError, Id, Message, MessageView, User, UserView, involves};
use crate::text::{contains_str, matches_keyword, to_lowercase};

verus! {

/// The values of a stored user collection.
pub open spec fn user_views(users: Seq<User>) -> Seq<UserView> {
    users.map_values(|u: User| u@)
}

/// The values of a stored message collection.
pub open spec fn message_views(msgs: Seq<Message>) -> Seq<MessageView> {
    msgs.map_values(|m: Message| m@)
}

/// No two users carry the same username.
pub open spec fn usernames_distinct(users: Seq<UserView>) -> bool {
    forall|i: int, j: int|
        0 <= i < j < users.len() ==> (#[trigger] users[i]).username != (#[trigger] users[j]).username
}

/// The first user satisfying `pred`, scanning from the front.
pub open spec fn find_first(users: Seq<UserView>, pred: spec_fn(UserView) -> bool) -> Option<
    UserView,
>
    decreases users.len(),
{
    if users.len() == 0 {
        None
    } else if pred(users[0]) {
        Some(users[0])
    } else {
        find_first(users.drop_first(), pred)
    }
}

/// The test a username lookup scans with.
pub open spec fn by_name(name: Seq<char>) -> spec_fn(UserView) -> bool {
    |u: UserView| u.username == name
}

/// The test an id lookup scans with.
pub open spec fn by_id(id: Id) -> spec_fn(UserView) -> bool {
    |u: UserView| u.id == id
}

/// The first user whose username is `name`.
pub open spec fn find_by_username(users: Seq<UserView>, name: Seq<char>) -> Option<UserView> {
    find_first(users, by_name(name))
}

/// The first user whose id is `id`.
pub open spec fn find_by_id(users: Seq<UserView>, id: Id) -> Option<UserView> {
    find_first(users, by_id(id))
}

/// `find_first` returns a user exactly when one passes the test, and what it
/// returns is one of the users and passes the test.
pub proof fn lemma_find_first(users: Seq<UserView>, pred: spec_fn(UserView) -> bool)
    ensures
        (find_first(users, pred) is None) <==> (forall|i: int|
            0 <= i < users.len() ==> !pred(#[trigger] users[i])),
        find_first(users, pred) matches Some(u) ==> pred(u) && exists|i: int|
            0 <= i < users.len() && #[trigger] users[i] == u,
    decreases users.len(),
{
    if users.len() > 0 {
        lemma_find_first(users.drop_first(), pred);
        let rest = users.drop_first();
        assert(forall|i: int| 0 <= i < rest.len() ==> #[trigger] rest[i] == users[i + 1]);
        if !pred(users[0]) {
            if find_first(users, pred) is None {
                assert forall|i: int| 0 <= i < users.len() implies !pred(#[trigger] users[i]) by {
                    if i > 0 {
                        assert(rest[i - 1] == users[i]);
                    }
                }
            }
            if find_first(users, pred) is Some {
                let u = find_first(users, pred)->Some_0;
                let i = choose|i: int| 0 <= i < rest.len() && #[trigger] rest[i] == u;
                assert(users[i + 1] == u);
            }
        }
    }
}

/// One step of a forward scan: passing over an element that fails the test
/// leaves the first hit unchanged.
pub proof fn lemma_find_first_step(users: Seq<UserView>, pred: spec_fn(UserView) -> bool, i: int)
    requires
        0 <= i < users.len(),
        !pred(users[i]),
    ensures
        find_first(users.skip(i), pred) == find_first(users.skip(i + 1), pred),
{
    assert(users.skip(i)[0] == users[i]);
    assert(users.skip(i).drop_first() =~= users.skip(i + 1));
}

/// A forward scan that reaches an element passing the test has found the
/// first hit.
pub proof fn lemma_find_first_found(users: Seq<UserView>, pred: spec_fn(UserView) -> bool, i: int)
    requires
        0 <= i < users.len(),
        pred(users[i]),
    ensures
        find_first(users.skip(i), pred) == Some(users[i]),
{
    assert(users.skip(i)[0] == users[i]);
}

/// Messages that `uid` sent or received, in stored order.
pub open spec fn messages_for(msgs: Seq<MessageView>, uid: Id) -> Seq<MessageView> {
    msgs.filter(involving(uid))
}

/// The test a scoped listing keeps a message by.
pub open spec fn involving(uid: Id) -> spec_fn(MessageView) -> bool {
    |m: MessageView| involves(m, uid)
}

/// Whether a scoped keyword operation selects `m`: the user takes part in it
/// and the content matches the keyword case-insensitively.
pub open spec fn marked_for_delete(m: MessageView, keyword: Seq<char>, uid: Id) -> bool {
    involves(m, uid) && matches_keyword(m.content, keyword)
}

/// The test a scoped search keeps a message by.
pub open spec fn hit_by(keyword: Seq<char>, uid: Id) -> spec_fn(MessageView) -> bool {
    |m: MessageView| marked_for_delete(m, keyword, uid)
}

/// The test a scoped deletion keeps a message by.
pub open spec fn missed_by(keyword: Seq<char>, uid: Id) -> spec_fn(MessageView) -> bool {
    |m: MessageView| !marked_for_delete(m, keyword, uid)
}

/// Messages a scoped search returns, in stored order.
pub open spec fn search_results(msgs: Seq<MessageView>, keyword: Seq<char>, uid: Id) -> Seq<
    MessageView,
> {
    msgs.filter(hit_by(keyword, uid))
}

/// Messages a scoped deletion keeps, in stored order.
pub open spec fn surviving(msgs: Seq<MessageView>, keyword: Seq<char>, uid: Id) -> Seq<
    MessageView,
> {
    msgs.filter(missed_by(keyword, uid))
}

/// Filtering a sequence extended by one element extends the filtered
/// sequence exactly when the element passes.
pub proof fn lemma_filter_push<A>(s: Seq<A>, e: A, p: spec_fn(A) -> bool)
    ensures
        s.push(e).filter(p) == (if p(e) {
            s.filter(p).push(e)
        } else {
            s.filter(p)
        }),
{
    reveal(Seq::filter);
    assert(s.push(e).drop_last() =~= s);
    assert(s.push(e).last() == e);
}

/// A filter that keeps every element returns the sequence itself.
pub proof fn lemma_filter_all<A>(s: Seq<A>, p: spec_fn(A) -> bool)
    requires
        forall|i: int| 0 <= i < s.len() ==> p(#[trigger] s[i]),
    ensures
        s.filter(p) == s,
    decreases s.len(),
{
    reveal(Seq::filter);
    if s.len() > 0 {
        let prefix = s.drop_last();
        assert(forall|i: int| 0 <= i < prefix.len() ==> #[trigger] prefix[i] == s[i]);
        lemma_filter_all(prefix, p);
        assert(s.filter(p) =~= s);
    }
}

/// A filter keeps the whole length exactly when every element passes.
pub proof fn lemma_filter_complete<A>(s: Seq<A>, p: spec_fn(A) -> bool)
    ensures
        (s.filter(p).len() == s.len()) <==> (forall|i: int| 0 <= i < s.len() ==> p(#[trigger] s[i])),
    decreases s.len(),
{
    reveal(Seq::filter);
    if s.len() > 0 {
        let prefix = s.drop_last();
        assert(forall|i: int| 0 <= i < prefix.len() ==> #[trigger] prefix[i] == s[i]);
        lemma_filter_complete(prefix, p);
        prefix.lemma_filter_len(p);
        if p(s.last()) {
            if s.filter(p).len() == s.len() {
                assert forall|i: int| 0 <= i < s.len() implies p(#[trigger] s[i]) by {
                    if i < s.len() - 1 {
                        assert(prefix[i] == s[i]);
                    }
                }
            }
        } else {
            assert(!p(s[s.len() - 1]));
        }
    }
}

/// Two complementary filters of one sequence split its length.
proof fn lemma_filter_split_len<A>(s: Seq<A>, p: spec_fn(A) -> bool, q: spec_fn(A) -> bool)
    requires
        forall|i: int| 0 <= i < s.len() ==> (p(#[trigger] s[i]) <==> !q(s[i])),
    ensures
        s.filter(p).len() + s.filter(q).len() == s.len(),
    decreases s.len(),
{
    reveal(Seq::filter);
    if s.len() > 0 {
        let prefix = s.drop_last();
        assert(forall|i: int| 0 <= i < prefix.len() ==> #[trigger] prefix[i] == s[i]);
        lemma_filter_split_len(prefix, p, q);
        assert(p(s.last()) <==> !q(s.last()));
    }
}

/// Law: a newly stored message from a sender to a receiver appears at the
/// end of both of their listings and leaves every third party's listing
/// unchanged.
pub proof fn lemma_message_visibility(msgs: Seq<MessageView>, m: MessageView, other: Id)
    requires
        !involves(m, other),
    ensures
        messages_for(msgs.push(m), m.sender_id) == messages_for(msgs, m.sender_id).push(m),
        messages_for(msgs.push(m), m.receiver_id) == messages_for(msgs, m.receiver_id).push(m),
        messages_for(msgs.push(m), other) == messages_for(msgs, other),
{
    lemma_filter_push(msgs, m, involving(m.sender_id));
    lemma_filter_push(msgs, m, involving(m.receiver_id));
    lemma_filter_push(msgs, m, involving(other));
}

/// Law: a scoped deletion removes exactly the selected messages — every
/// survivor is unselected, every unselected message survives in order, and
/// the removed ones are exactly what the same search returns.
pub proof fn lemma_delete_exact(msgs: Seq<MessageView>, keyword: Seq<char>, uid: Id)
    ensures
        forall|i: int|
            0 <= i < surviving(msgs, keyword, uid).len() ==> !marked_for_delete(
                #[trigger] surviving(msgs, keyword, uid)[i],
                keyword,
                uid,
            ),
        forall|i: int|
            0 <= i < msgs.len() && !marked_for_delete(#[trigger] msgs[i], keyword, uid)
                ==> surviving(msgs, keyword, uid).contains(msgs[i]),
        surviving(msgs, keyword, uid).len() + search_results(msgs, keyword, uid).len()
            == msgs.len(),
{
    let miss = missed_by(keyword, uid);
    let hit = hit_by(keyword, uid);
    assert forall|i: int|
        0 <= i < surviving(msgs, keyword, uid).len() implies !marked_for_delete(
        #[trigger] surviving(msgs, keyword, uid)[i],
        keyword,
        uid,
    ) by {
        msgs.lemma_filter_pred(miss, i);
    }
    assert forall|i: int|
        0 <= i < msgs.len() && !marked_for_delete(#[trigger] msgs[i], keyword, uid) implies
        surviving(msgs, keyword, uid).contains(msgs[i]) by {
        msgs.lemma_filter_contains(miss, i);
    }
    lemma_filter_split_len(msgs, miss, hit);
}

/// Law: deleting again with the same keyword and user removes nothing.
pub proof fn lemma_delete_idempotent(msgs: Seq<MessageView>, keyword: Seq<char>, uid: Id)
    ensures
        surviving(surviving(msgs, keyword, uid), keyword, uid) == surviving(msgs, keyword, uid),
{
    let miss = missed_by(keyword, uid);
    let kept = surviving(msgs, keyword, uid);
    assert forall|i: int| 0 <= i < kept.len() implies miss(#[trigger] kept[i]) by {
        msgs.lemma_filter_pred(miss, i);
    }
    lemma_filter_all(kept, miss);
}

/// Sole keeper of the user and message collections; usernames stay unique,
/// messages stay in creation order.
pub struct Storage {
    users: Vec<User>,
    messages: Vec<Message>,
}

impl Storage {
    /// The stored users, in insertion order.
    pub closed spec fn users_view(self) -> Seq<UserView> {
        user_views(self.users@)
    }

    /// The stored messages, in creation order.
    pub closed spec fn msgs_view(self) -> Seq<MessageView> {
        message_views(self.messages@)
    }

    /// The collection invariant: no two users share a username.
    pub open spec fn wf(self) -> bool {
        usernames_distinct(self.users_view())
    }

    /// An empty storage.
    pub fn new() -> (s: Storage)
        ensures
            s.wf(),
            s.users_view() == Seq::<UserView>::empty(),
            s.msgs_view() == Seq::<MessageView>::empty(),
    {
        let s = Storage { users: Vec::new(), messages: Vec::new() };
        proof {
            assert(s.users_view() =~= Seq::<UserView>::empty());
            assert(s.msgs_view() =~= Seq::<MessageView>::empty());
        }
        s
    }

    /// How many users are registered.
    pub fn user_count(&self) -> (n: usize)
        ensures
            n == self.users_view().len(),
    {
        self.users.len()
    }

    /// Inserts `user` unless its username is already taken.
    pub fn add_user(&mut self, user: User) -> (r: Result<(), ChatError>)
        requires
            old(self).wf(),
        ensures
            final(self).wf(),
            final(self).msgs_view() == old(self).msgs_view(),
            match find_by_username(old(self).users_view(), user@.username) {
                Some(_) => r == Err::<(), ChatError>(ChatError::DuplicateUsername)
                    && final(self).users_view() == old(self).users_view(),
                None => r == Ok::<(), ChatError>(())
                    && final(self).users_view() == old(self).users_view().push(user@),
            },
    {
        let dup = self.get_user_by_username(user.username.as_str());
        match dup {
            Some(_) => Err(ChatError::DuplicateUsername),
            None => {
                let ghost uv = self.users_view();
                proof {
                    lemma_find_first(uv, by_name(user@.username));
                    assert(user_views(self.users@.push(user)) =~= uv.push(user@));
                }
                self.users.push(user);
                proof {
                    let nv = self.users_view();
                    assert forall|i: int, j: int| 0 <= i < j < nv.len() implies (
                    #[trigger] nv[i]).username != (#[trigger] nv[j]).username by {
                        if j < nv.len() - 1 {
                            assert(uv[i] == nv[i] && uv[j] == nv[j]);
                        } else {
                            assert(uv[i] == nv[i]);
                            assert(!by_name(user@.username)(uv[i]));
                        }
                    }
                }
                Ok(())
            },
        }
    }

    /// The stored user with this id, if any.
    pub fn get_user(&self, id: Id) -> (r: Option<User>)
        ensures
            (r is Some) == (find_by_id(self.users_view(), id) is Some),
            r matches Some(u) ==> Some(u@) == find_by_id(self.users_view(), id),
    {
        let ghost uv = self.users_view();
        proof {
            assert(uv.skip(0) =~= uv);
        }
        let n = self.users.len();
        let mut i: usize = 0;
        while i < n
            invariant
                n == self.users@.len(),
                0 <= i <= n,
                uv == self.users_view(),
                find_by_id(uv, id) == find_first(uv.skip(i as int), by_id(id)),
            decreases n - i,
        {
            let u = &self.users[i];
            if u.id == id {
                proof {
                    lemma_find_first_found(uv, by_id(id), i as int);
                }
                return Some(User { id: u.id, username: u.username.clone() });
            }
            proof {
                lemma_find_first_step(uv, by_id(id), i as int);
            }
            i += 1;
        }
        proof {
            assert(uv.skip(n as int) =~= Seq::<UserView>::empty());
        }
        None
    }

    /// The stored user with this username, if any: a linear scan for the
    /// first exact, case-sensitive match.
    pub fn get_user_by_username(&self, username: &str) -> (r: Option<User>)
        ensures
            (r is Some) == (find_by_username(self.users_view(), username@) is Some),
            r matches Some(u) ==> Some(u@) == find_by_username(self.users_view(), username@),
    {
        let ghost uv = self.users_view();
        proof {
            assert(uv.skip(0) =~= uv);
        }
        let target = username.to_owned();
        let n = self.users.len();
        let mut i: usize = 0;
        while i < n
            invariant
                n == self.users@.len(),
                0 <= i <= n,
                uv == self.users_view(),
                target@ == username@,
                find_by_username(uv, username@) == find_first(uv.skip(i as int), by_name(username@)),
            decreases n - i,
        {
            let u = &self.users[i];
            if u.username == target {
                proof {
                    lemma_find_first_found(uv, by_name(username@), i as int);
                }
                return Some(User { id: u.id, username: u.username.clone() });
            }
            proof {
                lemma_find_first_step(uv, by_name(username@), i as int);
            }
            i += 1;
        }
        proof {
            assert(uv.skip(n as int) =~= Seq::<UserView>::empty());
        }
        None
    }

    /// Appends `message`; this cannot fail.
    pub fn add_message(&mut self, message: Message)
        ensures
            final(self).users_view() == old(self).users_view(),
            final(self).msgs_view() == old(self).msgs_view().push(message@),
            final(self).wf() == old(self).wf(),
    {
        proof {
            assert(message_views(self.messages@.push(message)) =~= self.msgs_view().push(
                message@,
            ));
        }
        self.messages.push(message);
    }

    /// Every message `user_id` sent or received, in creation order.
    pub fn get_messages_for_user(&self, user_id: Id) -> (r: Vec<Message>)
        ensures
            message_views(r@) == messages_for(self.msgs_view(), user_id),
    {
        let ghost mv = self.msgs_view();
        let mut result: Vec<Message> = Vec::new();
        proof {
            assert(mv.take(0) =~= Seq::<MessageView>::empty());
            reveal(Seq::filter);
            assert(message_views(result@) =~= Seq::<MessageView>::empty());
        }
        let n = self.messages.len();
        let mut i: usize = 0;
        while i < n
            invariant
                n == self.messages@.len(),
                0 <= i <= n,
                mv == self.msgs_view(),
                message_views(result@) == mv.take(i as int).filter(involving(user_id)),
            decreases n - i,
        {
            let m = &self.messages[i];
            proof {
                assert(mv.take(i as int).push(mv[i as int]) =~= mv.take(i as int + 1));
                lemma_filter_push(mv.take(i as int), mv[i as int], involving(user_id));
            }
            if m.sender_id == user_id || m.receiver_id == user_id {
                let ghost before = result@;
                let copy = Message {
                    id: m.id,
                    sender_id: m.sender_id,
                    receiver_id: m.receiver_id,
                    content: m.content.clone(),
                    timestamp: m.timestamp,
                };
                result.push(copy);
                proof {
                    assert(message_views(before.push(copy)) =~= message_views(before).push(copy@));
                }
            }
            i += 1;
        }
        proof {
            assert(mv.take(n as int) =~= mv);
        }
        result
    }

    /// Every message `user_id` sent or received whose content contains the
    /// keyword case-insensitively, in creation order.
    pub fn search_messages(&self, keyword: &str, user_id: Id) -> (r: Vec<Message>)
        ensures
            message_views(r@) == search_results(self.msgs_view(), keyword@, user_id),
    {
        let low_kw = to_lowercase(keyword);
        let ghost mv = self.msgs_view();
        let mut result: Vec<Message> = Vec::new();
        proof {
            assert(mv.take(0) =~= Seq::<MessageView>::empty());
            reveal(Seq::filter);
            assert(message_views(result@) =~= Seq::<MessageView>::empty());
        }
        let n = self.messages.len();
        let mut i: usize = 0;
        while i < n
            invariant
                n == self.messages@.len(),
                0 <= i <= n,
                mv == self.msgs_view(),
                low_kw@ == crate::text::lower_of(keyword@),
                message_views(result@) == mv.take(i as int).filter(hit_by(keyword@, user_id)),
            decreases n - i,
        {
            let m = &self.messages[i];
            proof {
                assert(mv.take(i as int).push(mv[i as int]) =~= mv.take(i as int + 1));
                lemma_filter_push(mv.take(i as int), mv[i as int], hit_by(keyword@, user_id));
            }
            let mut keep = false;
            if m.sender_id == user_id || m.receiver_id == user_id {
                let low_content = to_lowercase(m.content.as_str());
                keep = contains_str(low_content.as_str(), low_kw.as_str());
            }
            assert(keep == marked_for_delete(mv[i as int], keyword@, user_id));
            if keep {
                let ghost before = result@;
                let copy = Message {
                    id: m.id,
                    sender_id: m.sender_id,
                    receiver_id: m.receiver_id,
                    content: m.content.clone(),
                    timestamp: m.timestamp,
                };
                result.push(copy);
                proof {
                    assert(message_views(before.push(copy)) =~= message_views(before).push(copy@));
                }
            }
            i += 1;
        }
        proof {
            assert(mv.take(n as int) =~= mv);
        }
        result
    }

    /// Removes every message `user_id` sent or received whose content
    /// contains the keyword case-insensitively; the survivors keep their
    /// relative order. Returns whether anything was removed.
    pub fn delete_message(&mut self, keyword: &str, user_id: Id) -> (r: bool)
        ensures
            final(self).users_view() == old(self).users_view(),
            final(self).msgs_view() == surviving(old(self).msgs_view(), keyword@, user_id),
            r == (final(self).msgs_view().len() != old(self).msgs_view().len()),
            r <==> exists|i: int|
                0 <= i < old(self).msgs_view().len() && marked_for_delete(
                    #[trigger] old(self).msgs_view()[i],
                    keyword@,
                    user_id,
                ),
            old(self).wf() ==> final(self).wf(),
    {
        let low_kw = to_lowercase(keyword);
        let ghost mv = self.msgs_view();
        let mut kept: Vec<Message> = Vec::new();
        proof {
            assert(mv.take(0) =~= Seq::<MessageView>::empty());
            reveal(Seq::filter);
            assert(message_views(kept@) =~= Seq::<MessageView>::empty());
        }
        let n = self.messages.len();
        let mut i: usize = 0;
        while i < n
            invariant
                n == self.messages@.len(),
                0 <= i <= n,
                mv == self.msgs_view(),
                low_kw@ == crate::text::lower_of(keyword@),
                message_views(kept@) == mv.take(i as int).filter(missed_by(keyword@, user_id)),
            decreases n - i,
        {
            let m = &self.messages[i];
            proof {
                assert(mv.take(i as int).push(mv[i as int]) =~= mv.take(i as int + 1));
                lemma_filter_push(mv.take(i as int), mv[i as int], missed_by(keyword@, user_id));
            }
            let mut hit = false;
            if m.sender_id == user_id || m.receiver_id == user_id {
                let low_content = to_lowercase(m.content.as_str());
                hit = contains_str(low_content.as_str(), low_kw.as_str());
            }
            assert(hit == marked_for_delete(mv[i as int], keyword@, user_id));
            if !hit {
                let ghost before = kept@;
                let copy = Message {
                    id: m.id,
                    sender_id: m.sender_id,
                    receiver_id: m.receiver_id,
                    content: m.content.clone(),
                    timestamp: m.timestamp,
                };
                kept.push(copy);
                proof {
                    assert(message_views(before.push(copy)) =~= message_views(before).push(copy@));
                }
            }
            i += 1;
        }
        proof {
            assert(mv.take(n as int) =~= mv);
        }
        let survivors = kept.len();
        let before_len = self.messages.len();
        let removed = survivors != before_len;
        self.messages = kept;
        proof {
            lemma_filter_complete(mv, missed_by(keyword@, user_id));
            mv.lemma_filter_len(missed_by(keyword@, user_id));
        }
        removed
    }

    /// Every registered user, in insertion order.
    pub fn list_users(&self) -> (r: Vec<User>)
        ensures
            user_views(r@) == self.users_view(),
    {
        let ghost uv = self.users_view();
        let mut result: Vec<User> = Vec::new();
        proof {
            assert(user_views(result@) =~= uv.take(0));
        }
        let n = self.users.len();
        let mut i: usize = 0;
        while i < n
            invariant
                n == self.users@.len(),
                0 <= i <= n,
                uv == self.users_view(),
                user_views(result@) == uv.take(i as int),
            decreases n - i,
        {
            let u = &self.users[i];
            let ghost before = result@;
            let copy = User { id: u.id, username: u.username.clone() };
            result.push(copy);
            proof {
                assert(copy@ == uv[i as int]);
                assert(uv.take(i as int).push(uv[i as int]) =~= uv.take(i as int + 1));
                assert(user_views(before.push(copy)) =~= user_views(before).push(copy@));
            }
            i += 1;
        }
        proof {
            assert(uv.take(n as int) =~= uv);
        }
        result
    }
}

} // verus!
