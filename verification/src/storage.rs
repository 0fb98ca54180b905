//! The storage gateway, modelled as an in-memory transactional store: account
//! records, persisted direct messages, and the friend relation, with the
//! business rules the core actor relies on.

use vstd::prelude::*;
use vstd::pervasive::VecAdditionalExecFns;

use crate::errors::{LoginError, RegisterError};
use crate::ids::{GroupId, GroupMessageId, UserId, UserMessageId};
use crate::records::{
    mask_level_spec, masked_matches, select_mask_level, ClientMessage, GroupRecord,
    HashedPassword, LoginRequest, PublicUserMessage, PublicUserRecord, Pubkey, RegisterRequest,
    UserRecord, UserStatus, UserVisibility,
};

verus! {

/// One persisted direct message, as the store keeps it.
#[derive(Debug)]
pub struct StoredMessage {
    pub umid: UserMessageId,
    pub from: UserId,
    pub to: UserId,
    pub content: ClientMessage,
    /// Milliseconds since the epoch, assigned by the server at persistence.
    pub time_posted: u64,
    /// Whether the message has been flagged read.
    pub read: bool,
}

/// The first record with this email, if any.
pub open spec fn user_by_email(users: Seq<UserRecord>, email: Seq<char>) -> Option<UserRecord>
    decreases users.len(),
{
    if users.len() == 0 {
        None
    } else if users[0].email@ == email {
        Some(users[0])
    } else {
        user_by_email(users.drop_first(), email)
    }
}

/// The first record with this identity, if any.
pub open spec fn user_by_uid(users: Seq<UserRecord>, uid: UserId) -> Option<UserRecord>
    decreases users.len(),
{
    if users.len() == 0 {
        None
    } else if users[0].uid == uid {
        Some(users[0])
    } else {
        user_by_uid(users.drop_first(), uid)
    }
}

/// The ordered pair `(l, r)` stands in the friend relation.
pub open spec fn is_friend_pair(friends: Seq<(UserId, UserId)>, l: UserId, r: UserId) -> bool {
    exists|i: int| 0 <= i < friends.len() && friends[i].0 == l && friends[i].1 == r
}

/// The friendship check: an absent requester is nobody's friend.
pub open spec fn are_friends_spec(
    friends: Seq<(UserId, UserId)>,
    l: UserId,
    r: Option<UserId>,
) -> bool {
    match r {
        Some(r) => is_friend_pair(friends, l, r),
        None => false,
    }
}

/// What a login attempt yields on a given user table.
pub open spec fn login_spec(users: Seq<UserRecord>, email: Seq<char>, pass: Seq<char>) -> Result<
    UserId,
    LoginError,
> {
    match user_by_email(users, email) {
        None => Err(LoginError::InvalidEmail),
        Some(u) => if u.hashed_pass.0@ == pass {
            Ok(u.uid)
        } else {
            Err(LoginError::InvalidPassword)
        },
    }
}

/// The unread messages from `s` to `r`, oldest first.
pub open spec fn unread_from_to(msgs: Seq<StoredMessage>, s: UserId, r: UserId) -> Seq<
    StoredMessage,
>
    decreases msgs.len(),
{
    if msgs.len() == 0 {
        Seq::<StoredMessage>::empty()
    } else {
        let rest = unread_from_to(msgs.drop_last(), s, r);
        let m = msgs.last();
        if m.from == s && m.to == r && !m.read {
            rest.push(m)
        } else {
            rest
        }
    }
}

/// The client-facing form of a stored message.
pub open spec fn pum_of(m: StoredMessage) -> PublicUserMessage {
    PublicUserMessage {
        umid: m.umid,
        from: m.from,
        to: m.to,
        time_posted: m.time_posted,
        content: m.content,
    }
}

/// If nothing before position `i` has the email, the first match is at `i`,
/// or nowhere if `i` is the end.
proof fn lemma_user_by_email_first(users: Seq<UserRecord>, email: Seq<char>, i: int)
    requires
        0 <= i <= users.len(),
        forall|k: int| 0 <= k < i ==> users[k].email@ != email,
        i == users.len() || users[i].email@ == email,
    ensures
        user_by_email(users, email) == (if i == users.len() {
            None::<UserRecord>
        } else {
            Some(users[i])
        }),
    decreases i,
{
    if users.len() == 0 {
    } else if i == 0 {
    } else {
        lemma_user_by_email_first(users.drop_first(), email, i - 1);
    }
}

/// If nothing before position `i` has the identity, the first match is at
/// `i`, or nowhere if `i` is the end.
proof fn lemma_user_by_uid_first(users: Seq<UserRecord>, uid: UserId, i: int)
    requires
        0 <= i <= users.len(),
        forall|k: int| 0 <= k < i ==> users[k].uid != uid,
        i == users.len() || users[i].uid == uid,
    ensures
        user_by_uid(users, uid) == (if i == users.len() {
            None::<UserRecord>
        } else {
            Some(users[i])
        }),
    decreases i,
{
    if users.len() == 0 {
    } else if i == 0 {
    } else {
        lemma_user_by_uid_first(users.drop_first(), uid, i - 1);
    }
}

/// A fruitless email lookup means no record carries the email.
proof fn lemma_user_by_email_none(users: Seq<UserRecord>, email: Seq<char>)
    requires
        user_by_email(users, email) is None,
    ensures
        forall|k: int| 0 <= k < users.len() ==> users[k].email@ != email,
    decreases users.len(),
{
    if users.len() > 0 {
        lemma_user_by_email_none(users.drop_first(), email);
        assert forall|k: int| 0 <= k < users.len() implies users[k].email@ != email by {
            if k > 0 {
                assert(users.drop_first()[k - 1] == users[k]);
                assert(users.drop_first()[k - 1].email@ != email);
            }
        }
    }
}

/// The storage gateway: the single transactional owner of persistent state.
pub struct Storage {
    users: Vec<UserRecord>,
    next_uid: u32,
    messages: Vec<StoredMessage>,
    next_umid: u64,
    group_messages: Vec<(GroupMessageId, UserId, GroupId, ClientMessage)>,
    next_gmid: u64,
    friends: Vec<(UserId, UserId)>,
}

impl Storage {
    /// The account table.
    pub closed spec fn users_view(&self) -> Seq<UserRecord> {
        self.users@
    }

    /// The identity the next registration will receive.
    pub closed spec fn next_uid_spec(&self) -> u32 {
        self.next_uid
    }

    /// The direct-message table, in persistence order.
    pub closed spec fn messages_view(&self) -> Seq<StoredMessage> {
        self.messages@
    }

    /// The identity the next persisted message will receive.
    pub closed spec fn next_umid_spec(&self) -> u64 {
        self.next_umid
    }

    /// The group-message table, in persistence order.
    pub closed spec fn group_messages_view(&self) -> Seq<(GroupMessageId, UserId, GroupId, ClientMessage)> {
        self.group_messages@
    }

    /// The identity the next group message will receive.
    pub closed spec fn next_gmid_spec(&self) -> u64 {
        self.next_gmid
    }

    /// The friend relation, as ordered pairs.
    pub closed spec fn friends_view(&self) -> Seq<(UserId, UserId)> {
        self.friends@
    }

    /// Well-formedness: identities and emails are unique, and identities stay
    /// below the allocation counters.
    pub open spec fn wf(&self) -> bool {
        &&& forall|i: int, j: int|
            0 <= i < j < self.users_view().len() ==> self.users_view()[i].uid
                != self.users_view()[j].uid
        &&& forall|i: int, j: int|
            0 <= i < j < self.users_view().len() ==> self.users_view()[i].email@
                != self.users_view()[j].email@
        &&& forall|i: int|
            0 <= i < self.users_view().len() ==> (#[trigger] self.users_view()[i]).uid.0
                < self.next_uid_spec()
        &&& forall|i: int, j: int|
            0 <= i < j < self.messages_view().len() ==> self.messages_view()[i].umid
                != self.messages_view()[j].umid
        &&& forall|i: int|
            0 <= i < self.messages_view().len() ==> (#[trigger] self.messages_view()[i]).umid.0
                < self.next_umid_spec()
    }

    /// A fresh, empty store. Identity counters start at one, as the backing
    /// database's auto-increment would.
    pub fn new() -> (r: Storage)
        ensures
            r.wf(),
            r.users_view() == Seq::<UserRecord>::empty(),
            r.messages_view() == Seq::<StoredMessage>::empty(),
            r.group_messages_view() == Seq::<(GroupMessageId, UserId, GroupId, ClientMessage)>::empty(),
            r.friends_view() == Seq::<(UserId, UserId)>::empty(),
            r.next_uid_spec() == 1,
            r.next_umid_spec() == 1,
            r.next_gmid_spec() == 1,
    {
        let r = Storage {
            users: Vec::new(),
            next_uid: 1,
            messages: Vec::new(),
            next_umid: 1,
            group_messages: Vec::new(),
            next_gmid: 1,
            friends: Vec::new(),
        };
        proof {
            assert(r.users_view() =~= Seq::<UserRecord>::empty());
            assert(r.messages_view() =~= Seq::<StoredMessage>::empty());
            assert(r.group_messages_view() =~= Seq::<(
                GroupMessageId,
                UserId,
                GroupId,
                ClientMessage,
            )>::empty());
            assert(r.friends_view() =~= Seq::<(UserId, UserId)>::empty());
        }
        r
    }

    /// The position of the first record with this email, if any.
    fn find_by_email(&self, email: &String) -> (r: Option<usize>)
        ensures
            r matches Some(i) ==> i < self.users_view().len() && user_by_email(
                self.users_view(),
                email@,
            ) == Some(self.users_view()[i as int]) && self.users_view()[i as int].email@ == email@,
            r is None ==> user_by_email(self.users_view(), email@) is None,
    {
        let mut i: usize = 0;
        while i < self.users.len()
            invariant
                0 <= i <= self.users_view().len(),
                forall|k: int| 0 <= k < i ==> self.users_view()[k].email@ != email@,
            decreases self.users_view().len() - i,
        {
            if self.users[i].email == *email {
                proof {
                    lemma_user_by_email_first(self.users_view(), email@, i as int);
                }
                return Some(i);
            }
            i = i + 1;
        }
        proof {
            lemma_user_by_email_first(self.users_view(), email@, self.users_view().len() as int);
        }
        None
    }

    /// The position of the first record with this identity, if any.
    fn find_by_uid(&self, uid: UserId) -> (r: Option<usize>)
        ensures
            r matches Some(i) ==> i < self.users_view().len() && user_by_uid(
                self.users_view(),
                uid,
            ) == Some(self.users_view()[i as int]) && self.users_view()[i as int].uid == uid,
            r is None ==> user_by_uid(self.users_view(), uid) is None,
    {
        let mut i: usize = 0;
        while i < self.users.len()
            invariant
                0 <= i <= self.users_view().len(),
                forall|k: int| 0 <= k < i ==> self.users_view()[k].uid != uid,
            decreases self.users_view().len() - i,
        {
            if self.users[i].uid.0 == uid.0 {
                proof {
                    lemma_user_by_uid_first(self.users_view(), uid, i as int);
                }
                return Some(i);
            }
            i = i + 1;
        }
        proof {
            lemma_user_by_uid_first(self.users_view(), uid, self.users_view().len() as int);
        }
        None
    }

    /// Try to register a new user: refused when the email is taken (or, in
    /// principle, when the identity space is exhausted); otherwise the
    /// account is created with the next identity and default settings.
    pub fn try_register(&mut self, req: RegisterRequest) -> (r: Result<UserId, RegisterError>)
        requires
            old(self).wf(),
        ensures
            final(self).wf(),
            final(self).messages_view() == old(self).messages_view(),
            final(self).friends_view() == old(self).friends_view(),
            user_by_email(old(self).users_view(), req.email@) is Some ==> r == Err::<
                UserId,
                RegisterError,
            >(RegisterError::UserAlreadyExists) && final(self).users_view() == old(self).users_view() && final(self).next_uid_spec() == old(self).next_uid_spec(),
            user_by_email(old(self).users_view(), req.email@) is None && old(self).next_uid_spec()
                == u32::MAX ==> r == Err::<UserId, RegisterError>(RegisterError::Unknown) && final(self).users_view() == old(self).users_view() && final(self).next_uid_spec() == old(self).next_uid_spec(),
            user_by_email(old(self).users_view(), req.email@) is None && old(self).next_uid_spec()
                < u32::MAX ==> ({
                let rec = final(self).users_view().last();
                &&& r == Ok::<UserId, RegisterError>(UserId(old(self).next_uid_spec()))
                &&& final(self).users_view() == old(self).users_view().push(rec)
                &&& rec.uid == UserId(old(self).next_uid_spec())
                &&& rec.email == req.email
                &&& rec.pubkey.0 == req.pubkey
                &&& rec.hashed_pass.0 == req.password_hash
                &&& rec.alias is None
                &&& rec.friends@ == Seq::<UserId>::empty()
                &&& rec.groups@ == Seq::<GroupId>::empty()
                &&& rec.motd is None
                &&& rec.status == UserStatus::Offline
                &&& rec.visibility == UserVisibility::FriendsOnly
                &&& final(self).next_uid_spec() == old(self).next_uid_spec() + 1
            }),
    {
        let ghost email0 = req.email@;
        match self.find_by_email(&req.email) {
            Some(_) => {
                proof {
                    assert(self.wf());
                }
                Err(RegisterError::UserAlreadyExists)
            },
            None => {
                if self.next_uid == u32::MAX {
                    proof {
                        assert(self.wf());
                    }
                    Err(RegisterError::Unknown)
                } else {
                    let uid = UserId(self.next_uid);
                    let empty_friends: Vec<UserId> = Vec::new();
                    let empty_groups: Vec<GroupId> = Vec::new();
                    proof {
                        assert(empty_friends@ =~= Seq::<UserId>::empty());
                        assert(empty_groups@ =~= Seq::<GroupId>::empty());
                    }
                    let rec = UserRecord {
                        uid,
                        email: req.email,
                        pubkey: Pubkey(req.pubkey),
                        hashed_pass: HashedPassword(req.password_hash),
                        alias: None,
                        friends: empty_friends,
                        groups: empty_groups,
                        motd: None,
                        status: UserStatus::Offline,
                        visibility: UserVisibility::FriendsOnly,
                    };
                    self.users.push(rec);
                    self.next_uid = self.next_uid + 1;
                    proof {
                        let pre = old(self).users_view();
                        let now = self.users_view();
                        lemma_user_by_email_none(pre, email0);
                        assert(now == pre.push(now.last()));
                        assert(self.messages_view() == old(self).messages_view());
                        assert forall|i: int, j: int|
                            0 <= i < j < now.len() implies now[i].email@ != now[j].email@ by {
                            if j < now.len() - 1 {
                                assert(now[i] == pre[i] && now[j] == pre[j]);
                            } else {
                                assert(now[i] == pre[i]);
                                assert(pre[i].email@ != email0);
                            }
                        }
                        assert forall|i: int, j: int|
                            0 <= i < j < now.len() implies now[i].uid != now[j].uid by {
                            if j < now.len() - 1 {
                                assert(now[i] == pre[i] && now[j] == pre[j]);
                            } else {
                                assert(now[i] == pre[i]);
                                assert(pre[i].uid.0 < old(self).next_uid_spec());
                            }
                        }
                        assert(self.wf());
                    }
                    Ok(uid)
                }
            },
        }
    }

    /// Try to authenticate: unknown email, then wrong password, are the two
    /// refusals; otherwise the account's identity is returned.
    pub fn try_login(&self, req: &LoginRequest) -> (r: Result<UserId, LoginError>)
        ensures
            r == login_spec(self.users_view(), req.email@, req.password_hash@),
    {
        match self.find_by_email(&req.email) {
            None => Err(LoginError::InvalidEmail),
            Some(i) => {
                if self.users[i].hashed_pass.0 == req.password_hash {
                    Ok(self.users[i].uid)
                } else {
                    Err(LoginError::InvalidPassword)
                }
            },
        }
    }

    /// Persist a direct message: it gets the next message identity, the given
    /// server timestamp, and starts unread; the persisted echo is returned.
    pub fn new_message_u(
        &mut self,
        sender: UserId,
        receiver: UserId,
        msg: ClientMessage,
        now_millis: u64,
    ) -> (r: Option<PublicUserMessage>)
        requires
            old(self).wf(),
        ensures
            final(self).wf(),
            final(self).users_view() == old(self).users_view(),
            final(self).friends_view() == old(self).friends_view(),
            final(self).next_uid_spec() == old(self).next_uid_spec(),
            old(self).next_umid_spec() == u64::MAX ==> r is None && final(self).messages_view()
                == old(self).messages_view() && final(self).next_umid_spec() == old(self).next_umid_spec(),
            old(self).next_umid_spec() < u64::MAX ==> ({
                let m = final(self).messages_view().last();
                &&& r matches Some(p) && p == pum_of(m)
                &&& final(self).messages_view() == old(self).messages_view().push(m)
                &&& m.umid == UserMessageId(old(self).next_umid_spec())
                &&& m.from == sender
                &&& m.to == receiver
                &&& m.content == msg
                &&& m.time_posted == now_millis
                &&& m.read == false
                &&& final(self).next_umid_spec() == old(self).next_umid_spec() + 1
            }),
    {
        if self.next_umid == u64::MAX {
            proof {
                assert(self.wf());
            }
            return None;
        }
        let umid = UserMessageId(self.next_umid);
        let stored = StoredMessage {
            umid,
            from: sender,
            to: receiver,
            content: msg.clone(),
            time_posted: now_millis,
            read: false,
        };
        let echo = PublicUserMessage {
            umid,
            from: sender,
            to: receiver,
            time_posted: now_millis,
            content: msg,
        };
        self.messages.push(stored);
        self.next_umid = self.next_umid + 1;
        proof {
            let pre = old(self).messages_view();
            let now = self.messages_view();
            assert(now == pre.push(now.last()));
            assert(self.users_view() == old(self).users_view());
            assert forall|i: int, j: int| 0 <= i < j < now.len() implies now[i].umid
                != now[j].umid by {
                if j < now.len() - 1 {
                    assert(now[i] == pre[i] && now[j] == pre[j]);
                } else {
                    assert(now[i] == pre[i]);
                    assert(pre[i].umid.0 < old(self).next_umid_spec());
                }
            }
            assert forall|i: int| 0 <= i < now.len() implies (#[trigger] now[i]).umid.0
                < self.next_umid_spec() by {
                if i < now.len() - 1 {
                    assert(now[i] == pre[i]);
                }
            }
            assert(self.wf());
        }
        Some(echo)
    }

    /// Persist a group message; only the identity allocation is modelled
    /// beyond the append.
    pub fn new_message_g(
        &mut self,
        sender: UserId,
        group: GroupId,
        msg: ClientMessage,
    ) -> (r: Option<GroupMessageId>)
        requires
            old(self).wf(),
        ensures
            final(self).wf(),
            final(self).users_view() == old(self).users_view(),
            final(self).messages_view() == old(self).messages_view(),
            final(self).friends_view() == old(self).friends_view(),
            old(self).next_gmid_spec() == u64::MAX ==> r is None && final(self).group_messages_view()
                == old(self).group_messages_view(),
            old(self).next_gmid_spec() < u64::MAX ==> ({
                let gm = final(self).group_messages_view().last();
                &&& r == Some(GroupMessageId(old(self).next_gmid_spec()))
                &&& final(self).group_messages_view() == old(self).group_messages_view().push(gm)
                &&& gm.0 == GroupMessageId(old(self).next_gmid_spec())
                &&& gm.1 == sender
                &&& gm.2 == group
                &&& gm.3 == msg
                &&& final(self).next_gmid_spec() == old(self).next_gmid_spec() + 1
            }),
    {
        if self.next_gmid == u64::MAX {
            proof {
                assert(self.wf());
            }
            return None;
        }
        let gmid = GroupMessageId(self.next_gmid);
        self.group_messages.push((gmid, sender, group, msg));
        self.next_gmid = self.next_gmid + 1;
        proof {
            assert(self.users_view() == old(self).users_view());
            assert(self.messages_view() == old(self).messages_view());
            assert(self.wf());
        }
        Some(gmid)
    }

    /// Fetch a profile as the requester is allowed to see it: the stored
    /// record masked by ownership, friendship and visibility.
    pub fn get_user_data(&self, u: UserId, requester: Option<UserId>) -> (r: Option<
        PublicUserRecord,
    >)
        ensures
            user_by_uid(self.users_view(), u) is None ==> r is None,
            user_by_uid(self.users_view(), u) matches Some(rec) ==> r matches Some(p)
                && masked_matches(
                p,
                rec,
                mask_level_spec(
                    u,
                    requester,
                    are_friends_spec(self.friends_view(), u, requester),
                    rec.visibility,
                ),
            ),
    {
        let friends = self.are_friends_inner(u, &requester);
        match self.find_by_uid(u) {
            None => None,
            Some(i) => {
                let rec = self.users[i].clone();
                let lvl = select_mask_level(u, requester, friends, rec.visibility);
                Some(rec.mask(lvl))
            },
        }
    }

    /// Fetch a group profile. The group path is a stub in this release.
    pub fn get_group_data(&self, _g: GroupId) -> (r: Option<GroupRecord>)
        ensures
            r is None,
    {
        None
    }

    /// The unread messages from `s` to `r`, oldest first, in their
    /// client-facing form.
    pub fn get_user_user_unread(&self, s: UserId, r: UserId) -> (res: Option<
        Vec<PublicUserMessage>,
    >)
        ensures
            res matches Some(v) && v@.len() == unread_from_to(self.messages_view(), s, r).len()
                && (forall|k: int|
                0 <= k < v@.len() ==> v@[k] == pum_of(
                    #[trigger] unread_from_to(self.messages_view(), s, r)[k],
                )),
    {
        let mut out: Vec<PublicUserMessage> = Vec::new();
        let mut i: usize = 0;
        proof {
            assert(self.messages_view().take(0) =~= Seq::<StoredMessage>::empty());
        }
        while i < self.messages.len()
            invariant
                0 <= i <= self.messages_view().len(),
                out@.len() == unread_from_to(self.messages_view().take(i as int), s, r).len(),
                forall|k: int|
                    0 <= k < out@.len() ==> out@[k] == pum_of(
                        #[trigger] unread_from_to(self.messages_view().take(i as int), s, r)[k],
                    ),
            decreases self.messages_view().len() - i,
        {
            let ghost pre = unread_from_to(self.messages_view().take(i as int), s, r);
            let m = &self.messages[i];
            proof {
                assert(self.messages_view().take(i + 1).drop_last() =~= self.messages_view().take(
                    i as int,
                ));
                assert(self.messages_view().take(i + 1).last() == self.messages_view()[i as int]);
            }
            if m.from.0 == s.0 && m.to.0 == r.0 && !m.read {
                let p = PublicUserMessage {
                    umid: m.umid,
                    from: m.from,
                    to: m.to,
                    time_posted: m.time_posted,
                    content: m.content.clone(),
                };
                out.push(p);
            }
            i = i + 1;
        }
        proof {
            assert(self.messages_view().take(self.messages_view().len() as int)
                =~= self.messages_view());
        }
        Some(out)
    }

    /// Unread messages from a group: the group path is a stub in this
    /// release.
    pub fn get_user_group_unread(&self, _s: UserId, _g: GroupId) -> (r: Option<
        Vec<PublicUserMessage>,
    >)
        ensures
            r is None,
    {
        None
    }

    /// Flag the direct message with this identity as read; everything else is
    /// untouched.
    pub fn flag_u_read(&mut self, umid: UserMessageId) -> (r: Option<()>)
        requires
            old(self).wf(),
        ensures
            final(self).wf(),
            r == Some(()),
            final(self).users_view() == old(self).users_view(),
            final(self).friends_view() == old(self).friends_view(),
            final(self).next_umid_spec() == old(self).next_umid_spec(),
            final(self).messages_view().len() == old(self).messages_view().len(),
            forall|i: int|
                0 <= i < old(self).messages_view().len() ==> ({
                    let m0 = old(self).messages_view()[i];
                    let m1 = #[trigger] final(self).messages_view()[i];
                    if m0.umid == umid {
                        m1.umid == m0.umid && m1.from == m0.from && m1.to == m0.to && m1.content
                            == m0.content && m1.time_posted == m0.time_posted && m1.read
                    } else {
                        m1 == m0
                    }
                }),
    {
        let mut i: usize = 0;
        while i < self.messages.len()
            invariant
                old(self).wf(),
                0 <= i <= self.messages.len(),
                self.users@ == old(self).users@,
                self.friends@ == old(self).friends@,
                self.next_uid == old(self).next_uid,
                self.next_umid == old(self).next_umid,
                self.next_gmid == old(self).next_gmid,
                self.group_messages@ == old(self).group_messages@,
                self.messages@.len() == old(self).messages@.len(),
                forall|k: int|
                    0 <= k < i ==> ({
                        let m0 = old(self).messages@[k];
                        let m1 = #[trigger] self.messages@[k];
                        if m0.umid == umid {
                            m1.umid == m0.umid && m1.from == m0.from && m1.to == m0.to
                                && m1.content == m0.content && m1.time_posted == m0.time_posted
                                && m1.read
                        } else {
                            m1 == m0
                        }
                    }),
                forall|k: int| i <= k < self.messages@.len() ==> self.messages@[k] == old(self).messages@[k],
            decreases self.messages.len() - i,
        {
            if self.messages[i].umid.0 == umid.0 {
                let updated = StoredMessage {
                    umid: self.messages[i].umid,
                    from: self.messages[i].from,
                    to: self.messages[i].to,
                    content: self.messages[i].content.clone(),
                    time_posted: self.messages[i].time_posted,
                    read: true,
                };
                self.messages.set(i, updated);
            }
            i = i + 1;
        }
        Some(())
    }

    /// Flag a group message as read: the group path is a stub in this
    /// release.
    pub fn flag_g_read(&mut self, _gmid: GroupMessageId) -> (r: Option<()>)
        ensures
            r is None,
            *final(self) == *old(self),
    {
        None
    }

    fn are_friends_inner(&self, l: UserId, r: &Option<UserId>) -> (res: bool)
        ensures
            res == are_friends_spec(self.friends_view(), l, *r),
    {
        match r {
            None => false,
            Some(ru) => {
                let mut i: usize = 0;
                while i < self.friends.len()
                    invariant
                        0 <= i <= self.friends_view().len(),
                        *r == Some(*ru),
                        forall|k: int|
                            0 <= k < i ==> !((#[trigger] self.friends_view()[k]).0 == l
                                && self.friends_view()[k].1 == *ru),
                    decreases self.friends_view().len() - i,
                {
                    if self.friends[i].0.0 == l.0 && self.friends[i].1.0 == ru.0 {
                        proof {
                            assert(self.friends_view()[i as int].0 == l
                                && self.friends_view()[i as int].1 == *ru);
                            assert(is_friend_pair(self.friends_view(), l, *ru));
                        }
                        return true;
                    }
                    i = i + 1;
                }
                false
            },
        }
    }

    /// Whether `l` and the (optional) requester stand in the friend
    /// relation; an absent requester is nobody's friend.
    pub fn are_friends(&self, l: UserId, r: Option<UserId>) -> (res: Option<bool>)
        ensures
            res == Some(are_friends_spec(self.friends_view(), l, r)),
    {
        Some(self.are_friends_inner(l, &r))
    }

    /// Record `l` and `r` as friends, in both directions.
    pub fn add_friend(&mut self, l: UserId, r: UserId) -> (res: Option<()>)
        requires
            old(self).wf(),
        ensures
            final(self).wf(),
            res == Some(()),
            final(self).users_view() == old(self).users_view(),
            final(self).messages_view() == old(self).messages_view(),
            final(self).friends_view() == old(self).friends_view().push((l, r)).push((r, l)),
    {
        self.friends.push((l, r));
        self.friends.push((r, l));
        proof {
            assert(self.users_view() == old(self).users_view());
            assert(self.messages_view() == old(self).messages_view());
            assert(self.wf());
        }
        Some(())
    }

    /// Remove a friend pairing: a stub in this release.
    pub fn remove_friend(&mut self, _l: UserId, _r: UserId) -> (res: Option<()>)
        ensures
            res is None,
            *final(self) == *old(self),
    {
        None
    }
}

/// If an email is absent from a user table, a record appended with that email
/// is exactly what a lookup then finds.
pub proof fn lemma_user_by_email_push(users: Seq<UserRecord>, rec: UserRecord)
    requires
        user_by_email(users, rec.email@) is None,
    ensures
        user_by_email(users.push(rec), rec.email@) == Some(rec),
    decreases users.len(),
{
    if users.len() == 0 {
        assert(users.push(rec)[0] == rec);
    } else {
        assert(users.push(rec)[0] == users[0]);
        assert(users.push(rec).drop_first() =~= users.drop_first().push(rec));
        lemma_user_by_email_push(users.drop_first(), rec);
    }
}

/// Registering an account and then immediately authenticating with the same
/// credentials yields exactly the identity that registration returned: after
/// a registration that appended `rec` to a table where its email was free,
/// a login with `rec`'s email and password hash answers `rec.uid`.
pub proof fn lemma_register_then_login(users: Seq<UserRecord>, rec: UserRecord)
    requires
        user_by_email(users, rec.email@) is None,
    ensures
        login_spec(users.push(rec), rec.email@, rec.hashed_pass.0@) == Ok::<UserId, LoginError>(
            rec.uid,
        ),
{
    lemma_user_by_email_push(users, rec);
}

} // verus!
