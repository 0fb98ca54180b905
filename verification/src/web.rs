//! Decisions of the HTTP surface: the session registry of minted login
//! tokens, the login path that hands a fresh token to the hub, and the
//! profile-lookup request builder. The transport glue around these lives
//! outside the library.

use vstd::prelude::*;

use crate::actor::CoreRequest;
use crate::errors::WebInvalidLoginToken;
use crate::hub::token_user;
use crate::ids::UserId;
use crate::msg::WebToWs;
use crate::token::{str_eq, token_wf, LoginToken};

verus! {

/// The HTTP surface's own table of minted tokens, consulted when a request
/// arrives with a credential header.
pub struct SessionRegistry {
    sessions: Vec<(LoginToken, UserId)>,
}

impl SessionRegistry {
    /// The recorded sessions, newest first.
    pub closed spec fn sessions_view(&self) -> Seq<(LoginToken, UserId)> {
        self.sessions@
    }

    /// The user a presented token stands for.
    pub open spec fn user_of(&self, tk: Seq<char>) -> Option<UserId> {
        token_user(self.sessions_view(), tk)
    }

    pub fn new() -> (r: SessionRegistry)
        ensures
            r.sessions_view() == Seq::<(LoginToken, UserId)>::empty(),
    {
        let r = SessionRegistry { sessions: Vec::new() };
        proof {
            assert(r.sessions_view() =~= Seq::<(LoginToken, UserId)>::empty());
        }
        r
    }

    /// Record a token for a user; the newest recording of a token wins.
    pub fn insert(&mut self, token: LoginToken, u: UserId)
        ensures
            final(self).user_of(token.tk@) == Some(u),
            forall|t: Seq<char>|
                t != token.tk@ ==> #[trigger] final(self).user_of(t) == old(self).user_of(t),
    {
        let ghost tk0 = token.tk@;
        self.sessions.insert(0, (token, u));
        proof {
            assert(self.sessions_view()[0].0.tk@ == tk0);
            assert(self.sessions_view().drop_first() =~= old(self).sessions_view());
            assert forall|t: Seq<char>| t != tk0 implies #[trigger] self.user_of(t) == old(
                self,
            ).user_of(t) by {
                assert(token_user(self.sessions_view(), t) == token_user(
                    self.sessions_view().drop_first(),
                    t,
                ));
            }
        }
    }

    /// Resolve a presented token string.
    pub fn lookup(&self, s: &str) -> (r: Option<UserId>)
        ensures
            r == self.user_of(s@),
    {
        let mut i: usize = 0;
        while i < self.sessions.len()
            invariant
                0 <= i <= self.sessions_view().len(),
                forall|k: int| 0 <= k < i ==> (#[trigger] self.sessions_view()[k]).0.tk@ != s@,
            decreases self.sessions_view().len() - i,
        {
            if str_eq(self.sessions[i].0.tk.as_str(), s) {
                proof {
                    crate::hub::lemma_token_user_at(self.sessions_view(), s@, i as int);
                }
                return Some(self.sessions[i].1);
            }
            i = i + 1;
        }
        proof {
            crate::hub::lemma_token_user_at(
                self.sessions_view(),
                s@,
                self.sessions_view().len() as int,
            );
        }
        None
    }
}

/// The HTTP surface's decision logic.
pub struct Web {}

impl Web {
    /// A successful login: mint a fresh token, record it in the session
    /// registry, and build the instruction that tells the hub to expect it.
    pub fn handle_login(reg: &mut SessionRegistry, uid: UserId) -> (r: (LoginToken, WebToWs))
        ensures
            token_wf(r.0),
            final(reg).user_of(r.0.tk@) == Some(uid),
            forall|t: Seq<char>|
                t != r.0.tk@ ==> #[trigger] final(reg).user_of(t) == old(reg).user_of(t),
            r.1 matches WebToWs::AddToken(u2, t2) && u2 == uid && t2.tk@ == r.0.tk@,
    {
        let lt = LoginToken::new();
        let lt2 = lt.clone();
        reg.insert(lt.clone(), uid);
        (lt, WebToWs::AddToken(uid, lt2))
    }

    /// Build the profile-lookup request for an incoming read: an absent
    /// credential asks as the public, a recorded token asks as its user, and
    /// an unrecorded token is refused.
    pub fn handle_userinfo(reg: &SessionRegistry, access_uid: UserId, auth: Option<&LoginToken>)
        -> (r: Result<CoreRequest, WebInvalidLoginToken>)
        ensures
            auth is None ==> (r matches Ok(CoreRequest::GetUserData { lookup, asker }) && lookup
                == access_uid && asker is None),
            auth matches Some(lt) ==> ({
                match reg.user_of(lt.tk@) {
                    Some(u) => r matches Ok(CoreRequest::GetUserData { lookup, asker }) && lookup
                        == access_uid && asker == Some(u),
                    None => r is Err,
                }
            }),
    {
        match auth {
            None => Ok(CoreRequest::GetUserData { lookup: access_uid, asker: None }),
            Some(lt) => {
                match reg.lookup(lt.tk.as_str()) {
                    Some(u) => Ok(CoreRequest::GetUserData { lookup: access_uid, asker: Some(u) }),
                    None => Err(WebInvalidLoginToken),
                }
            },
        }
    }
}

} // verus!
