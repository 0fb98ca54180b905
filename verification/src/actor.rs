//! The core actor: the single owner of the storage gateway. It serializes
//! every business operation — the typed requests of the HTTP surface and the
//! routed client traffic of the hub — into one ordered stream of storage
//! calls.

use vstd::prelude::*;

use crate::errors::{LoginError, RegisterError};
use crate::ids::{GroupId, GroupMessageId, UserId, UserMessageId};
use crate::msg::{CoreToWs, WsClientboundPayload, WsClientboundTx, WsServerboundPayload, WsToCore};
use crate::records::{
    mask_level_spec, masked_matches, ClientMessage, GroupRecord, LoginRequest, PublicUserMessage,
    PublicUserRecord, RegisterRequest, UserStatus, UserVisibility,
};
use crate::storage::{
    are_friends_spec, login_spec, pum_of, unread_from_to, user_by_email, user_by_uid, Storage,
};

verus! {

/// A typed business request, as the request/reply bridge carries it.
#[derive(Debug)]
pub enum CoreRequest {
    Login(LoginRequest),
    Register(RegisterRequest),
    GetUserData { lookup: UserId, asker: Option<UserId> },
    GetGroupData(GroupId),
    GetUserUserUnread { s: UserId, r: UserId },
    GetUserGroupUnread { s: UserId, g: GroupId },
    GetUserLast { s: UserId, r: UserId, amt: u16 },
    GetGroupLast { s: UserId, g: GroupId, amt: u16 },
    NewUserMessage { u: UserId, d: UserId, c: ClientMessage },
    NewGroupMessage { u: UserId, g: GroupId, c: ClientMessage },
}

/// A reply to a typed business request. Login and registration answer with
/// the identity or with the typed business failure, so the HTTP surface can
/// map each rejection reason to its own transport status.
#[derive(Debug)]
pub enum CoreReply {
    Login(Result<UserId, LoginError>),
    Register(Result<UserId, RegisterError>),
    GetUserData(PublicUserRecord),
    GetGroupData(GroupRecord),
    ClientboundTx(WsClientboundTx),
    ClientboundTxs(Vec<WsClientboundTx>),
    NewUserMessage(PublicUserMessage),
    NewGroupMessage(GroupMessageId),
}

/// The core actor.
pub struct Core {}

impl Core {
    /// Answer one typed business request against the store. A login or
    /// registration refusal is returned as its typed business error through
    /// the reply, never a crash; any other storage refusal becomes an absent
    /// reply; the history-query and group paths are stubs in this release
    /// and answer nothing.
    pub fn handle_corereqs(creq: CoreRequest, store: &mut Storage, now_millis: u64) -> (r: Option<
        CoreReply,
    >)
        requires
            old(store).wf(),
        ensures
            final(store).wf(),
            creq matches CoreRequest::Login(req) ==> *final(store) == *old(store) && r == Some(
                CoreReply::Login(
                    login_spec(old(store).users_view(), req.email@, req.password_hash@),
                ),
            ),
            creq matches CoreRequest::Register(req) ==> ({
                if user_by_email(old(store).users_view(), req.email@) is Some {
                    &&& r == Some(
                        CoreReply::Register(
                            Err::<UserId, RegisterError>(RegisterError::UserAlreadyExists),
                        ),
                    )
                    &&& final(store).users_view() == old(store).users_view()
                    &&& final(store).messages_view() == old(store).messages_view()
                } else if old(store).next_uid_spec() == u32::MAX {
                    &&& r == Some(
                        CoreReply::Register(Err::<UserId, RegisterError>(RegisterError::Unknown)),
                    )
                    &&& final(store).users_view() == old(store).users_view()
                    &&& final(store).messages_view() == old(store).messages_view()
                } else {
                    &&& r == Some(
                        CoreReply::Register(
                            Ok::<UserId, RegisterError>(UserId(old(store).next_uid_spec())),
                        ),
                    )
                    &&& final(store).users_view() == old(store).users_view().push(
                        final(store).users_view().last(),
                    )
                    &&& final(store).users_view().last().email == req.email
                    &&& final(store).users_view().last().uid == UserId(old(store).next_uid_spec())
                    &&& final(store).users_view().last().pubkey.0 == req.pubkey
                    &&& final(store).users_view().last().hashed_pass.0 == req.password_hash
                    &&& final(store).users_view().last().status == UserStatus::Offline
                    &&& final(store).users_view().last().visibility == UserVisibility::FriendsOnly
                    &&& final(store).messages_view() == old(store).messages_view()
                }
            }),
            creq matches CoreRequest::GetUserData { lookup, asker } ==> *final(store) == *old(store) && ({
                match user_by_uid(old(store).users_view(), lookup) {
                    None => r is None,
                    Some(rec) => r matches Some(CoreReply::GetUserData(p)) && masked_matches(
                        p,
                        rec,
                        mask_level_spec(
                            lookup,
                            asker,
                            are_friends_spec(old(store).friends_view(), lookup, asker),
                            rec.visibility,
                        ),
                    ),
                }
            }),
            creq matches CoreRequest::GetGroupData(g) ==> r is None && *final(store) == *old(store),
            creq matches CoreRequest::GetUserUserUnread { s, r: rcpt } ==> *final(store) == *old(store) && ({
                let unread = unread_from_to(old(store).messages_view(), s, rcpt);
                r matches Some(CoreReply::ClientboundTx(tx)) && (
                tx.payload() matches WsClientboundPayload::NewMessages(v) && v@.len()
                    == unread.len() && (forall|k: int|
                    0 <= k < v@.len() ==> v@[k] == pum_of(#[trigger] unread[k])))
            }),
            creq matches CoreRequest::GetUserGroupUnread { s, g } ==> r is None && *final(store)
                == *old(store),
            creq matches CoreRequest::GetUserLast { s, r: rcpt, amt } ==> r is None && *final(store) == *old(store),
            creq matches CoreRequest::GetGroupLast { s, g, amt } ==> r is None && *final(store)
                == *old(store),
            creq matches CoreRequest::NewUserMessage { u, d, c } ==> ({
                if old(store).next_umid_spec() < u64::MAX {
                    &&& r matches Some(CoreReply::NewUserMessage(p)) && p == pum_of(
                        final(store).messages_view().last(),
                    )
                    &&& final(store).messages_view() == old(store).messages_view().push(
                        final(store).messages_view().last(),
                    )
                    &&& final(store).messages_view().last().umid == UserMessageId(
                        old(store).next_umid_spec(),
                    )
                    &&& final(store).messages_view().last().from == u
                    &&& final(store).messages_view().last().to == d
                    &&& final(store).messages_view().last().content == c
                    &&& final(store).messages_view().last().time_posted == now_millis
                    &&& final(store).messages_view().last().read == false
                    &&& final(store).users_view() == old(store).users_view()
                } else {
                    r is None && final(store).messages_view() == old(store).messages_view()
                        && final(store).users_view() == old(store).users_view()
                }
            }),
            creq matches CoreRequest::NewGroupMessage { u, g, c } ==> final(store).users_view()
                == old(store).users_view() && final(store).messages_view() == old(store).messages_view() && ({
                if old(store).next_gmid_spec() < u64::MAX {
                    r == Some(CoreReply::NewGroupMessage(GroupMessageId(old(store).next_gmid_spec())))
                } else {
                    r is None
                }
            }),
    {
        match creq {
            CoreRequest::Login(req) => Some(CoreReply::Login(store.try_login(&req))),
            CoreRequest::Register(req) => Some(CoreReply::Register(store.try_register(req))),
            CoreRequest::GetUserData { lookup, asker } => {
                match store.get_user_data(lookup, asker) {
                    Some(p) => Some(CoreReply::GetUserData(p)),
                    None => None,
                }
            },
            CoreRequest::GetGroupData(g) => {
                match store.get_group_data(g) {
                    Some(gr) => Some(CoreReply::GetGroupData(gr)),
                    None => None,
                }
            },
            CoreRequest::GetUserUserUnread { s, r } => {
                match store.get_user_user_unread(s, r) {
                    Some(v) => Some(
                        CoreReply::ClientboundTx(
                            WsClientboundTx::new(WsClientboundPayload::NewMessages(v)),
                        ),
                    ),
                    None => None,
                }
            },
            CoreRequest::GetUserGroupUnread { s, g } => {
                match store.get_user_group_unread(s, g) {
                    Some(v) => Some(
                        CoreReply::ClientboundTx(
                            WsClientboundTx::new(WsClientboundPayload::NewMessages(v)),
                        ),
                    ),
                    None => None,
                }
            },
            CoreRequest::GetUserLast { .. } => None,
            CoreRequest::GetGroupLast { .. } => None,
            CoreRequest::NewUserMessage { u, d, c } => {
                match store.new_message_u(u, d, c, now_millis) {
                    Some(p) => Some(CoreReply::NewUserMessage(p)),
                    None => None,
                }
            },
            CoreRequest::NewGroupMessage { u, g, c } => {
                match store.new_message_g(u, g, c) {
                    Some(gmid) => Some(CoreReply::NewGroupMessage(gmid)),
                    None => None,
                }
            },
        }
    }

    /// Process one routed client envelope: persist a direct message and hand
    /// back the outbound envelope for its recipient, or flag a confirmed
    /// message read. Storage refusals produce no outbound delivery.
    pub fn handle_ws(m: WsToCore, store: &mut Storage, now_millis: u64) -> (r: Option<CoreToWs>)
        requires
            old(store).wf(),
        ensures
            final(store).wf(),
            m matches WsToCore::Tx(tx) ==> ({
                let sender = tx.sender_spec();
                match tx.inner_spec() {
                    WsServerboundPayload::NewUserMessage { to, content } => ({
                        if old(store).next_umid_spec() < u64::MAX {
                            &&& r matches Some(CoreToWs::SendDirect { dest, tx: out }) && dest
                                == to && (
                            out.payload() matches WsClientboundPayload::NewMessage(p) && p
                                == pum_of(final(store).messages_view().last()))
                            &&& final(store).messages_view() == old(store).messages_view().push(
                                final(store).messages_view().last(),
                            )
                            &&& final(store).messages_view().last().umid == UserMessageId(
                                old(store).next_umid_spec(),
                            )
                            &&& final(store).messages_view().last().from == sender
                            &&& final(store).messages_view().last().to == to
                            &&& final(store).messages_view().last().content == content
                            &&& final(store).messages_view().last().time_posted == now_millis
                            &&& final(store).messages_view().last().read == false
                            &&& final(store).users_view() == old(store).users_view()
                        } else {
                            r is None && final(store).messages_view() == old(store).messages_view() && final(store).users_view() == old(store).users_view()
                        }
                    }),
                }
            }),
            m matches WsToCore::ReadAck { from, umid } ==> ({
                &&& r is None
                &&& final(store).users_view() == old(store).users_view()
                &&& final(store).messages_view().len() == old(store).messages_view().len()
                &&& (forall|i: int|
                    0 <= i < old(store).messages_view().len() ==> ({
                        let m0 = old(store).messages_view()[i];
                        let m1 = #[trigger] final(store).messages_view()[i];
                        if m0.umid == umid {
                            m1.umid == m0.umid && m1.from == m0.from && m1.to == m0.to
                                && m1.content == m0.content && m1.time_posted == m0.time_posted
                                && m1.read
                        } else {
                            m1 == m0
                        }
                    }))
            }),
    {
        match m {
            WsToCore::Tx(tx) => {
                let (uid, payload) = tx.extract();
                match payload {
                    WsServerboundPayload::NewUserMessage { to, content } => {
                        match store.new_message_u(uid, to, content, now_millis) {
                            Some(p_msg) => {
                                let out = WsClientboundTx::new(
                                    WsClientboundPayload::NewMessage(p_msg),
                                );
                                Some(CoreToWs::from_tx_u(to, out))
                            },
                            None => None,
                        }
                    },
                }
            },
            WsToCore::ReadAck { from: _, umid } => {
                // best effort: the flagging outcome does not propagate
                let _ = store.flag_u_read(umid);
                None
            },
        }
    }
}

} // verus!
