//! The message vocabulary exchanged between the HTTP surface, the hub, the
//! core actor and the connection workers, and the two stream transmission
//! wrappers.

use vstd::prelude::*;

use crate::codec;
use crate::ids::{ConnectionId, UserId, UserMessageId};
use crate::records::{ClientMessage, PublicUserMessage};
use crate::token::LoginToken;

verus! {

/// Client-bound payload: what the server pushes over a live stream.
#[derive(Debug)]
pub enum WsClientboundPayload {
    NewMessage(PublicUserMessage),
    NewMessages(Vec<PublicUserMessage>),
    MessageSent(UserMessageId),
}

/// Deep equality of client-bound payloads, comparing vector contents by
/// value.
pub open spec fn payload_eq(a: WsClientboundPayload, b: WsClientboundPayload) -> bool {
    match (a, b) {
        (WsClientboundPayload::NewMessage(m1), WsClientboundPayload::NewMessage(m2)) => m1 == m2,
        (WsClientboundPayload::NewMessages(v1), WsClientboundPayload::NewMessages(v2)) => v1@
            == v2@,
        (WsClientboundPayload::MessageSent(u1), WsClientboundPayload::MessageSent(u2)) => u1 == u2,
        _ => false,
    }
}

/// Copy a vector of persisted messages element by element.
fn clone_pums(v: &Vec<PublicUserMessage>) -> (r: Vec<PublicUserMessage>)
    ensures
        r@ == v@,
{
    let mut r: Vec<PublicUserMessage> = Vec::new();
    let mut i: usize = 0;
    while i < v.len()
        invariant
            0 <= i <= v@.len(),
            r@ == v@.subrange(0, i as int),
        decreases v@.len() - i,
    {
        r.push(v[i].clone());
        i = i + 1;
        assert(r@ == v@.subrange(0, i as int));
    }
    assert(v@.subrange(0, v@.len() as int) == v@);
    r
}

impl Clone for WsClientboundPayload {
    fn clone(&self) -> (r: Self)
        ensures
            payload_eq(*self, r),
    {
        match self {
            WsClientboundPayload::NewMessage(m) => WsClientboundPayload::NewMessage(m.clone()),
            WsClientboundPayload::NewMessages(v) => WsClientboundPayload::NewMessages(
                clone_pums(v),
            ),
            WsClientboundPayload::MessageSent(u) => WsClientboundPayload::MessageSent(*u),
        }
    }
}

/// Anything the server can wrap up for a client.
pub trait ClientboundPayload where Self: Sized {
    fn make_payload(self) -> WsClientboundPayload;
}

impl ClientboundPayload for PublicUserMessage {
    fn make_payload(self) -> WsClientboundPayload {
        WsClientboundPayload::NewMessage(self)
    }
}

impl ClientboundPayload for Vec<PublicUserMessage> {
    fn make_payload(self) -> WsClientboundPayload {
        WsClientboundPayload::NewMessages(self)
    }
}

/// A transmission bound for a connection worker's stream. The server does not
/// interfere with its contents; the worker encodes it verbatim onto the wire.
#[derive(Debug)]
pub struct WsClientboundTx {
    inner: WsClientboundPayload,
}

impl WsClientboundTx {
    /// The payload this transmission carries.
    pub closed spec fn payload(&self) -> WsClientboundPayload {
        self.inner
    }

    /// Wrap a payload for transmission.
    pub fn new(pl: WsClientboundPayload) -> (r: Self)
        ensures
            r.payload() == pl,
    {
        WsClientboundTx { inner: pl }
    }

    /// The wire text of this transmission.
    pub fn extract(&self) -> (r: String)
        ensures
            r@ == codec::clientbound_enc(self.payload()),
    {
        codec::encode_clientbound(&self.inner)
    }

    /// A value-equal copy, for fan-out to several connections.
    pub fn duplicate(&self) -> (r: Self)
        ensures
            payload_eq(self.payload(), r.payload()),
    {
        WsClientboundTx { inner: self.inner.clone() }
    }

    /// The message identity whose delivery a worker confirms after
    /// transmitting this payload, if it is a fresh direct message.
    pub fn confirm_id(&self) -> (r: Option<UserMessageId>)
        ensures
            r == (match self.payload() {
                WsClientboundPayload::NewMessage(m) => Some(m.umid),
                _ => None::<UserMessageId>,
            }),
    {
        match &self.inner {
            WsClientboundPayload::NewMessage(m) => Some(m.umid),
            _ => None,
        }
    }
}

/// Server-bound payload: what a client asks over a live stream.
#[derive(Debug)]
pub enum WsServerboundPayload {
    NewUserMessage { to: UserId, content: ClientMessage },
}

/// A parsed client transmission, stamped with the originating user.
#[derive(Debug)]
pub struct WsServerboundTx {
    sender: UserId,
    inner: WsServerboundPayload,
}

impl WsServerboundTx {
    /// The user this transmission came from.
    pub closed spec fn sender_spec(&self) -> UserId {
        self.sender
    }

    /// The request it carries.
    pub closed spec fn inner_spec(&self) -> WsServerboundPayload {
        self.inner
    }

    /// Parse a raw text frame into a transmission from `sender`. Accepts
    /// exactly the canonical wire encodings.
    pub fn new(sender: UserId, text: &str) -> (r: Option<WsServerboundTx>)
        ensures
            ({
                match codec::sb_parse(text@) {
                    Some(q) => r matches Some(tx) && tx.sender_spec() == sender
                        && (tx.inner_spec() matches WsServerboundPayload::NewUserMessage {
                        to,
                        content,
                    } && to.0 == q.0 && content.0@ == q.1),
                    None => r is None,
                }
            }),
    {
        match codec::parse_serverbound(text) {
            Some((to, content)) => Some(
                WsServerboundTx {
                    sender,
                    inner: WsServerboundPayload::NewUserMessage {
                        to: UserId(to),
                        content: ClientMessage(content),
                    },
                },
            ),
            None => None,
        }
    }

    /// Take the transmission apart.
    pub fn extract(self) -> (r: (UserId, WsServerboundPayload))
        ensures
            r.0 == self.sender_spec(),
            r.1 == self.inner_spec(),
    {
        (self.sender, self.inner)
    }
}

/// What the HTTP surface tells the hub.
#[derive(Debug)]
pub enum WebToWs {
    /// Expect this freshly minted token for this user.
    AddToken(UserId, LoginToken),
    /// Drop the user's session: tokens and live connections.
    ClearTokens(UserId),
}

/// What the core actor tells the hub to deliver.
#[derive(Debug)]
#[allow(inconsistent_fields)]
pub enum CoreToWs {
    SendDirect { dest: UserId, tx: WsClientboundTx },
    SendMultiple { dest: Vec<UserId>, tx: WsClientboundTx },
}

impl CoreToWs {
    /// Wrap a transmission for one destination user.
    pub fn from_tx_u(dest: UserId, tx: WsClientboundTx) -> (r: Self)
        ensures
            r matches CoreToWs::SendDirect { dest: d, tx: t } && d == dest && t == tx,
    {
        CoreToWs::SendDirect { dest, tx }
    }

    /// Wrap a transmission for a set of destination users.
    pub fn from_tx_us(dest: Vec<UserId>, tx: WsClientboundTx) -> (r: Self)
        ensures
            r matches CoreToWs::SendMultiple { dest: d, tx: t } && d@ == dest@ && t == tx,
    {
        CoreToWs::SendMultiple { dest, tx }
    }
}

/// What the hub forwards to the core actor.
#[derive(Debug)]
pub enum WsToCore {
    /// A parsed client transmission.
    Tx(WsServerboundTx),
    /// A connection worker confirmed transmitting this message to this user's
    /// device; the message may be flagged read-eligible.
    ReadAck { from: UserId, umid: UserMessageId },
}

/// What a connection worker reports to the hub.
#[derive(Debug)]
pub enum WorkerToWs {
    /// A raw text frame to be parsed and forwarded to the core actor.
    ForwardToCore(ConnectionId, String),
    /// The stream is gone; the hub drops the connection's table entries.
    Disconnected(ConnectionId),
    /// The worker transmitted this message successfully.
    ConfirmTransmittedUserMsg(ConnectionId, UserMessageId),
}

/// What the hub tells a connection worker.
#[derive(Debug)]
pub enum WsToWorker {
    Tx(WsClientboundTx),
    Disconnect,
}

/// Every entry of a fan-out carries the very message that was persisted:
/// when the routed transmission wraps a fresh direct message, each entry
/// value-equal to it wraps a fresh direct message with the same message
/// identity. With the routing contract, a recipient with no live connections
/// gets no entry, and one with two live connections gets exactly two, both
/// with the persisted identity.
pub proof fn lemma_fanout_same_message(
    entries: Seq<(crate::ids::ConnectionId, WsToWorker)>,
    tx: WsClientboundTx,
    p: PublicUserMessage,
)
    requires
        tx.payload() matches WsClientboundPayload::NewMessage(m) && m == p,
        forall|k: int|
            0 <= k < entries.len() ==> ((#[trigger] entries[k]).1 matches WsToWorker::Tx(t)
                && payload_eq(t.payload(), tx.payload())),
    ensures
        forall|k: int|
            0 <= k < entries.len() ==> ((#[trigger] entries[k]).1 matches WsToWorker::Tx(t) && (
            t.payload() matches WsClientboundPayload::NewMessage(m2) && m2.umid == p.umid)),
{
    assert forall|k: int|
        0 <= k < entries.len() implies ((#[trigger] entries[k]).1 matches WsToWorker::Tx(t) && (
    t.payload() matches WsClientboundPayload::NewMessage(m2) && m2.umid == p.umid)) by {
        assert(entries[k].1 matches WsToWorker::Tx(t) && payload_eq(t.payload(), tx.payload()));
    }
}

} // verus!
