//! Account records, their public-facing masked form, and persisted messages.

use vstd::prelude::*;

use crate::ids::{GroupId, UserId, UserMessageId};

verus! {

/// Raw row shape of an account record, as the backing store hands it over:
/// the friend, group, status and visibility columns are stored in their text
/// encodings.
pub type SqlUserRecord = (
    u32,  // uid
    String,  // email
    String,  // pubkey
    String,  // hashed_pass
    Option<String>,  // alias
    String,  // friends, a bracketed list of numbers
    String,  // groups, a bracketed list of numbers
    Option<String>,  // motd
    String,  // status, a quoted variant name
    String,  // visibility, a quoted variant name
);

/// Raw row shape of a persisted direct message; the timestamp column is
/// milliseconds since the epoch.
pub type SqlUserMessage = (
    u64,  // umid
    u32,  // sender
    u32,  // receiver
    String,  // content
    u64,  // time posted
    bool,  // read
);

/// Conversion from a raw row.
pub trait FromSqlTup<T> where Self: Sized {
    fn from_sql_tup(tup: T) -> Option<Self>;
}

/// Presence state of an account.
#[derive(Debug, Clone, Copy, PartialEq, Eq, Structural)]
pub enum UserStatus {
    Online,
    Offline,
    Invisible,
}

impl Default for UserStatus {
    fn default() -> (r: Self)
        ensures
            r == UserStatus::Offline,
    {
        UserStatus::Offline
    }
}

/// Who may see the membership details of a profile.
#[derive(Debug, Clone, Copy, PartialEq, Eq, Structural)]
pub enum UserVisibility {
    Private,
    FriendsOnly,
    Public,
}

impl Default for UserVisibility {
    fn default() -> (r: Self)
        ensures
            r == UserVisibility::FriendsOnly,
    {
        UserVisibility::FriendsOnly
    }
}

/// How much information is omitted when sending a record to a client.
#[derive(Debug, Clone, Copy, PartialEq, Eq, Structural)]
pub enum UserMaskLevel {
    /// Allow everything through, including the hashed password.
    SelfUse,
    /// Allow everything except the hashed password.
    HidePass,
    /// Allow everything except the hashed password and email.
    HidePassEmail,
    /// Allow everything except hashed password, email, friends, and groups.
    HidePassEmailMembership,
}

/// Public key for message signing. The server performs no validation.
#[derive(Debug)]
pub struct Pubkey(pub String);

impl Clone for Pubkey {
    fn clone(&self) -> (r: Self)
        ensures
            r == *self,
    {
        Pubkey(self.0.clone())
    }
}

/// Hashed password. The server performs no validation.
#[derive(Debug)]
pub struct HashedPassword(pub String);

impl Clone for HashedPassword {
    fn clone(&self) -> (r: Self)
        ensures
            r == *self,
    {
        HashedPassword(self.0.clone())
    }
}

/// Opaque client-authored message content.
#[derive(Debug)]
pub struct ClientMessage(pub String);

impl Clone for ClientMessage {
    fn clone(&self) -> (r: Self)
        ensures
            r == *self,
    {
        ClientMessage(self.0.clone())
    }
}

/// Copy a vector of user identifiers element by element.
pub fn copy_uids(v: &Vec<UserId>) -> (r: Vec<UserId>)
    ensures
        r@ == v@,
{
    let mut r: Vec<UserId> = Vec::new();
    let mut i: usize = 0;
    while i < v.len()
        invariant
            0 <= i <= v@.len(),
            r@ == v@.subrange(0, i as int),
        decreases v@.len() - i,
    {
        r.push(v[i]);
        i = i + 1;
        assert(r@ == v@.subrange(0, i as int));
    }
    assert(v@.subrange(0, v@.len() as int) == v@);
    r
}

/// Copy a vector of group identifiers element by element.
pub fn copy_gids(v: &Vec<GroupId>) -> (r: Vec<GroupId>)
    ensures
        r@ == v@,
{
    let mut r: Vec<GroupId> = Vec::new();
    let mut i: usize = 0;
    while i < v.len()
        invariant
            0 <= i <= v@.len(),
            r@ == v@.subrange(0, i as int),
        decreases v@.len() - i,
    {
        r.push(v[i]);
        i = i + 1;
        assert(r@ == v@.subrange(0, i as int));
    }
    assert(v@.subrange(0, v@.len() as int) == v@);
    r
}

fn clone_opt_string(v: &Option<String>) -> (r: Option<String>)
    ensures
        r == *v,
{
    match v {
        Some(s) => Some(s.clone()),
        None => None,
    }
}

/// Internal account record. Intentionally kept apart from anything that could
/// be sent to a client verbatim.
#[derive(Debug)]
pub struct UserRecord {
    pub uid: UserId,
    pub email: String,
    pub pubkey: Pubkey,
    pub hashed_pass: HashedPassword,
    pub alias: Option<String>,
    pub friends: Vec<UserId>,
    pub groups: Vec<GroupId>,
    pub motd: Option<String>,
    pub status: UserStatus,
    pub visibility: UserVisibility,
}

impl Clone for UserRecord {
    fn clone(&self) -> (r: Self)
        ensures
            r.uid == self.uid,
            r.email == self.email,
            r.pubkey == self.pubkey,
            r.hashed_pass == self.hashed_pass,
            r.alias == self.alias,
            r.friends@ == self.friends@,
            r.groups@ == self.groups@,
            r.motd == self.motd,
            r.status == self.status,
            r.visibility == self.visibility,
    {
        UserRecord {
            uid: self.uid,
            email: self.email.clone(),
            pubkey: self.pubkey.clone(),
            hashed_pass: self.hashed_pass.clone(),
            alias: clone_opt_string(&self.alias),
            friends: copy_uids(&self.friends),
            groups: copy_gids(&self.groups),
            motd: clone_opt_string(&self.motd),
            status: self.status,
            visibility: self.visibility,
        }
    }
}

/// Public-facing version of [`UserRecord`]: fields hidden by the mask level
/// are absent.
#[derive(Debug)]
pub struct PublicUserRecord {
    pub uid: UserId,
    pub email: Option<String>,
    pub pubkey: Pubkey,
    pub hashed_pass: Option<HashedPassword>,
    pub alias: Option<String>,
    pub friends: Option<Vec<UserId>>,
    pub groups: Option<Vec<GroupId>>,
    pub motd: Option<String>,
    pub online: bool,
}

/// The masking rule: what a [`UserRecord`] looks like through a given mask
/// level. The owner sees everything including the password hash; a friend
/// loses the password hash; a stranger also loses the email; a stranger on a
/// private profile additionally loses the friend and group lists.
pub open spec fn mask_spec(rec: UserRecord, m: UserMaskLevel) -> PublicUserRecord {
    PublicUserRecord {
        uid: rec.uid,
        email: match m {
            UserMaskLevel::HidePassEmail | UserMaskLevel::HidePassEmailMembership => None,
            _ => Some(rec.email),
        },
        pubkey: rec.pubkey,
        hashed_pass: match m {
            UserMaskLevel::SelfUse => Some(rec.hashed_pass),
            _ => None,
        },
        alias: rec.alias,
        friends: match m {
            UserMaskLevel::HidePassEmailMembership => None,
            _ => Some(rec.friends),
        },
        groups: match m {
            UserMaskLevel::HidePassEmailMembership => None,
            _ => Some(rec.groups),
        },
        motd: rec.motd,
        online: match m {
            UserMaskLevel::SelfUse => !(rec.status matches UserStatus::Offline),
            _ => rec.status matches UserStatus::Online,
        },
    }
}

impl UserRecord {
    /// Convert to the public-facing form, hiding what the mask level hides.
    pub fn mask(self, mask: UserMaskLevel) -> (r: PublicUserRecord)
        ensures
            r == mask_spec(self, mask),
    {
        PublicUserRecord {
            uid: self.uid,
            email: match mask {
                UserMaskLevel::HidePassEmail | UserMaskLevel::HidePassEmailMembership => None,
                _ => Some(self.email),
            },
            pubkey: self.pubkey,
            hashed_pass: match mask {
                UserMaskLevel::SelfUse => Some(self.hashed_pass),
                _ => None,
            },
            alias: self.alias,
            friends: match mask {
                UserMaskLevel::HidePassEmailMembership => None,
                _ => Some(self.friends),
            },
            groups: match mask {
                UserMaskLevel::HidePassEmailMembership => None,
                _ => Some(self.groups),
            },
            motd: self.motd,
            online: match mask {
                UserMaskLevel::SelfUse => match self.status {
                    UserStatus::Offline => false,
                    _ => true,
                },
                _ => match self.status {
                    UserStatus::Online => true,
                    _ => false,
                },
            },
        }
    }
}

/// Which mask level a requester gets on a profile: the owner sees everything;
/// a friend loses only the password hash; anyone else is treated as public,
/// where a private profile additionally hides membership.
pub open spec fn mask_level_spec(
    lookup: UserId,
    requester: Option<UserId>,
    are_friends: bool,
    visibility: UserVisibility,
) -> UserMaskLevel {
    match requester {
        Some(r) => if lookup == r {
            UserMaskLevel::SelfUse
        } else if are_friends {
            UserMaskLevel::HidePass
        } else {
            match visibility {
                UserVisibility::Private => UserMaskLevel::HidePassEmailMembership,
                _ => UserMaskLevel::HidePassEmail,
            }
        },
        None => match visibility {
            UserVisibility::Private => UserMaskLevel::HidePassEmailMembership,
            _ => UserMaskLevel::HidePassEmail,
        },
    }
}

/// Select the mask level for a profile request.
pub fn select_mask_level(
    lookup: UserId,
    requester: Option<UserId>,
    are_friends: bool,
    visibility: UserVisibility,
) -> (r: UserMaskLevel)
    ensures
        r == mask_level_spec(lookup, requester, are_friends, visibility),
{
    match requester {
        Some(req) => {
            if lookup == req {
                UserMaskLevel::SelfUse
            } else if are_friends {
                UserMaskLevel::HidePass
            } else {
                match visibility {
                    UserVisibility::Private => UserMaskLevel::HidePassEmailMembership,
                    _ => UserMaskLevel::HidePassEmail,
                }
            }
        },
        None => match visibility {
            UserVisibility::Private => UserMaskLevel::HidePassEmailMembership,
            _ => UserMaskLevel::HidePassEmail,
        },
    }
}

/// The stored text encoding of each presence state: the quoted variant name.
pub open spec fn status_parse(s: Seq<char>) -> Option<UserStatus> {
    if s == "\"Online\""@ {
        Some(UserStatus::Online)
    } else if s == "\"Offline\""@ {
        Some(UserStatus::Offline)
    } else if s == "\"Invisible\""@ {
        Some(UserStatus::Invisible)
    } else {
        None
    }
}

/// The stored text encoding of each visibility setting: the quoted variant
/// name.
pub open spec fn visibility_parse(s: Seq<char>) -> Option<UserVisibility> {
    if s == "\"Private\""@ {
        Some(UserVisibility::Private)
    } else if s == "\"FriendsOnly\""@ {
        Some(UserVisibility::FriendsOnly)
    } else if s == "\"Public\""@ {
        Some(UserVisibility::Public)
    } else {
        None
    }
}

/// Read a presence state from its stored text encoding.
pub fn parse_user_status(s: &str) -> (r: Option<UserStatus>)
    ensures
        r == status_parse(s@),
{
    if crate::token::str_eq(s, "\"Online\"") {
        Some(UserStatus::Online)
    } else if crate::token::str_eq(s, "\"Offline\"") {
        Some(UserStatus::Offline)
    } else if crate::token::str_eq(s, "\"Invisible\"") {
        Some(UserStatus::Invisible)
    } else {
        None
    }
}

/// Read a visibility setting from its stored text encoding.
pub fn parse_user_visibility(s: &str) -> (r: Option<UserVisibility>)
    ensures
        r == visibility_parse(s@),
{
    if crate::token::str_eq(s, "\"Private\"") {
        Some(UserVisibility::Private)
    } else if crate::token::str_eq(s, "\"FriendsOnly\"") {
        Some(UserVisibility::FriendsOnly)
    } else if crate::token::str_eq(s, "\"Public\"") {
        Some(UserVisibility::Public)
    } else {
        None
    }
}

impl UserRecord {
    /// Read an account record out of a raw row: the list and variant columns
    /// must hold their canonical text encodings.
    pub fn parse_sql_record(tup: SqlUserRecord) -> (r: Option<UserRecord>)
        ensures
            ({
                match (
                    crate::codec::list_parse(tup.5@),
                    crate::codec::list_parse(tup.6@),
                    status_parse(tup.8@),
                    visibility_parse(tup.9@),
                ) {
                    (Some(fr), Some(gr), Some(st), Some(vis)) => r matches Some(rec)
                        && rec.uid == UserId(tup.0) && rec.email == tup.1 && rec.pubkey.0 == tup.2
                        && rec.hashed_pass.0 == tup.3 && rec.alias == tup.4 && rec.friends@.len()
                        == fr.len() && (forall|k: int|
                        0 <= k < fr.len() ==> rec.friends@[k] == UserId(#[trigger] fr[k]))
                        && rec.groups@.len() == gr.len() && (forall|k: int|
                        0 <= k < gr.len() ==> rec.groups@[k] == GroupId(#[trigger] gr[k]))
                        && rec.motd == tup.7 && rec.status == st && rec.visibility == vis,
                    _ => r is None,
                }
            }),
    {
        let friends_raw = match crate::codec::parse_u32_list(tup.5.as_str()) {
            Some(v) => v,
            None => {
                return None;
            },
        };
        let groups_raw = match crate::codec::parse_u32_list(tup.6.as_str()) {
            Some(v) => v,
            None => {
                return None;
            },
        };
        let status = match parse_user_status(tup.8.as_str()) {
            Some(st) => st,
            None => {
                return None;
            },
        };
        let visibility = match parse_user_visibility(tup.9.as_str()) {
            Some(vis) => vis,
            None => {
                return None;
            },
        };
        let mut friends: Vec<UserId> = Vec::new();
        let mut i: usize = 0;
        while i < friends_raw.len()
            invariant
                0 <= i <= friends_raw@.len(),
                friends@.len() == i,
                forall|k: int| 0 <= k < i ==> friends@[k] == UserId(#[trigger] friends_raw@[k]),
            decreases friends_raw@.len() - i,
        {
            friends.push(UserId(friends_raw[i]));
            i = i + 1;
        }
        let mut groups: Vec<GroupId> = Vec::new();
        let mut j: usize = 0;
        while j < groups_raw.len()
            invariant
                0 <= j <= groups_raw@.len(),
                groups@.len() == j,
                forall|k: int| 0 <= k < j ==> groups@[k] == GroupId(#[trigger] groups_raw@[k]),
            decreases groups_raw@.len() - j,
        {
            groups.push(GroupId(groups_raw[j]));
            j = j + 1;
        }
        Some(
            UserRecord {
                uid: UserId(tup.0),
                email: tup.1,
                pubkey: Pubkey(tup.2),
                hashed_pass: HashedPassword(tup.3),
                alias: tup.4,
                friends,
                groups,
                motd: tup.7,
                status,
                visibility,
            },
        )
    }
}

impl FromSqlTup<SqlUserRecord> for UserRecord {
    fn from_sql_tup(tup: SqlUserRecord) -> Option<UserRecord> {
        UserRecord::parse_sql_record(tup)
    }
}

impl PublicUserMessage {
    /// Read a persisted message out of a raw row.
    pub fn parse_sql_message(tup: SqlUserMessage) -> (r: Option<PublicUserMessage>)
        ensures
            r matches Some(m) && m.umid == UserMessageId(tup.0) && m.from == UserId(tup.1) && m.to
                == UserId(tup.2) && m.content.0 == tup.3 && m.time_posted == tup.4,
    {
        Some(
            PublicUserMessage {
                umid: UserMessageId(tup.0),
                from: UserId(tup.1),
                to: UserId(tup.2),
                content: ClientMessage(tup.3),
                time_posted: tup.4,
            },
        )
    }
}

impl FromSqlTup<SqlUserMessage> for PublicUserMessage {
    fn from_sql_tup(tup: SqlUserMessage) -> Option<PublicUserMessage> {
        PublicUserMessage::parse_sql_message(tup)
    }
}

/// `p` is the masked form of `rec` under mask level `lvl`, comparing vector
/// contents by value.
pub open spec fn masked_matches(p: PublicUserRecord, rec: UserRecord, lvl: UserMaskLevel) -> bool {
    &&& p.uid == rec.uid
    &&& p.email == (match lvl {
        UserMaskLevel::HidePassEmail | UserMaskLevel::HidePassEmailMembership => None::<String>,
        _ => Some(rec.email),
    })
    &&& p.pubkey == rec.pubkey
    &&& p.hashed_pass == (match lvl {
        UserMaskLevel::SelfUse => Some(rec.hashed_pass),
        _ => None::<HashedPassword>,
    })
    &&& p.alias == rec.alias
    &&& (match lvl {
        UserMaskLevel::HidePassEmailMembership => p.friends is None,
        _ => p.friends matches Some(f) && f@ == rec.friends@,
    })
    &&& (match lvl {
        UserMaskLevel::HidePassEmailMembership => p.groups is None,
        _ => p.groups matches Some(g) && g@ == rec.groups@,
    })
    &&& p.motd == rec.motd
    &&& p.online == (match lvl {
        UserMaskLevel::SelfUse => !(rec.status matches UserStatus::Offline),
        _ => rec.status matches UserStatus::Online,
    })
}

/// One persisted direct message, in the form echoed to clients.
#[derive(Debug)]
pub struct PublicUserMessage {
    pub umid: UserMessageId,
    pub from: UserId,
    pub to: UserId,
    /// Milliseconds since the epoch, assigned by the server at persistence.
    pub time_posted: u64,
    pub content: ClientMessage,
}

impl Clone for PublicUserMessage {
    fn clone(&self) -> (r: Self)
        ensures
            r == *self,
    {
        PublicUserMessage {
            umid: self.umid,
            from: self.from,
            to: self.to,
            time_posted: self.time_posted,
            content: self.content.clone(),
        }
    }
}

/// Profile of a chat group.
#[derive(Debug)]
pub struct GroupRecord {
    pub gid: GroupId,
    pub motd: Option<String>,
}

/// One side of a conversation: a direct-message peer or a group.
#[derive(Debug, Clone, Copy, PartialEq, Eq, Structural)]
pub enum MessageActor {
    Dm(UserId),
    Group(GroupId),
}

/// A history query over past messages; times are milliseconds since the
/// epoch. The history paths are stubs in this release.
#[derive(Debug, Clone, Copy, PartialEq, Eq, Structural)]
pub enum HistoryQuery {
    Unseen,
    Interval { from: u64, to: u64 },
    Since(u64),
}

/// An account-creation request, as handed in by the HTTP surface.
#[derive(Debug)]
pub struct RegisterRequest {
    pub email: String,
    pub password_hash: String,
    pub pubkey: String,
}

/// A login request, as handed in by the HTTP surface.
#[derive(Debug)]
pub struct LoginRequest {
    pub email: String,
    pub password_hash: String,
}

} // verus!
