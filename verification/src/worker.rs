//! The connection worker's decisions: one worker owns one live stream and
//! bridges its framing to the hub's vocabulary. The transport itself lives
//! outside the library; the worker logic here says, for each event, what to
//! transmit, what to report, and whether to keep going.

use vstd::prelude::*;

use crate::codec::clientbound_enc;
use crate::ids::UserMessageId;
use crate::msg::{WsClientboundPayload, WsToWorker};

verus! {

/// What the transport hands the worker.
#[derive(Debug)]
pub enum TransportEvent {
    /// A text frame from the client, to be forwarded verbatim for parsing
    /// upstream.
    Text(String),
    /// A non-text frame; the direct-message path carries text only.
    Binary(Vec<u8>),
    /// A close frame or a read error.
    ClosedOrError,
}

/// One event at the worker: an instruction from the hub or a transport
/// event.
#[derive(Debug)]
pub enum WorkerEvent {
    FromHub(WsToWorker),
    FromTransport(TransportEvent),
}

/// What the worker does in response to one event.
#[derive(Debug)]
pub enum WorkerAction {
    /// Put this text on the wire; on success, report the confirmation if one
    /// is owed.
    Transmit { text: String, confirm: Option<UserMessageId> },
    /// Hand this raw frame to the hub.
    ForwardFrame(String),
    /// Close the transport and report the disconnection to the hub.
    CloseAndReport,
}

/// The per-connection worker.
pub struct Ws {}

impl Ws {
    /// Decide one worker step: the actions to perform and whether the worker
    /// stays alive. A disconnect instruction and a transport failure both
    /// end the worker after it closes and reports; an outbound payload is
    /// encoded and transmitted, with a delivery confirmation owed exactly
    /// for a fresh direct message; a text frame is forwarded verbatim.
    pub fn worker_step(ev: WorkerEvent) -> (r: (Vec<WorkerAction>, bool))
        ensures
            ev matches WorkerEvent::FromHub(WsToWorker::Disconnect) ==> r.1 == false && r.0@.len()
                == 1 && r.0@[0] == WorkerAction::CloseAndReport,
            ev matches WorkerEvent::FromHub(WsToWorker::Tx(tx)) ==> r.1 == true && r.0@.len() == 1
                && (r.0@[0] matches WorkerAction::Transmit { text, confirm } && text@
                == clientbound_enc(tx.payload()) && confirm == (match tx.payload() {
                WsClientboundPayload::NewMessage(m) => Some(m.umid),
                _ => None::<UserMessageId>,
            })),
            ev matches WorkerEvent::FromTransport(TransportEvent::Text(s)) ==> r.1 == true
                && r.0@.len() == 1 && (r.0@[0] matches WorkerAction::ForwardFrame(f) && f@ == s@),
            ev matches WorkerEvent::FromTransport(TransportEvent::Binary(b)) ==> r.1 == true
                && r.0@.len() == 0,
            ev matches WorkerEvent::FromTransport(TransportEvent::ClosedOrError) ==> r.1 == false
                && r.0@.len() == 1 && r.0@[0] == WorkerAction::CloseAndReport,
    {
        let mut actions: Vec<WorkerAction> = Vec::new();
        match ev {
            WorkerEvent::FromHub(WsToWorker::Disconnect) => {
                actions.push(WorkerAction::CloseAndReport);
                (actions, false)
            },
            WorkerEvent::FromHub(WsToWorker::Tx(tx)) => {
                let confirm = tx.confirm_id();
                let text = tx.extract();
                actions.push(WorkerAction::Transmit { text, confirm });
                (actions, true)
            },
            WorkerEvent::FromTransport(TransportEvent::Text(s)) => {
                actions.push(WorkerAction::ForwardFrame(s));
                (actions, true)
            },
            WorkerEvent::FromTransport(TransportEvent::Binary(_)) => (actions, true),
            WorkerEvent::FromTransport(TransportEvent::ClosedOrError) => {
                actions.push(WorkerAction::CloseAndReport);
                (actions, false)
            },
        }
    }
}

} // verus!
