//! Gateway-side messages and the per-connection decisions of the
//! WebSocket server: which bus messages reach a client's socket, and how
//! a client's frame enters the bus.

use vstd::prelude::*;
use crate::str_eq;

verus! {

/// One address-tagged message on the gateway bus: `Send` travels bridge to
/// client, `Receive` travels client to bridge. The payload is an opaque
/// string — a raw keyword or a JSON document.
#[derive(Clone, Debug)]
pub enum WSMessage {
    Send { address: String, message: String },
    Receive { address: String, message: String },
}

/// Mathematical value of a [`WSMessage`].
pub enum WSMessageView {
    Send { address: Seq<char>, message: Seq<char> },
    Receive { address: Seq<char>, message: Seq<char> },
}

impl View for WSMessage {
    type V = WSMessageView;

    open spec fn view(&self) -> WSMessageView {
        match self {
            WSMessage::Send { address, message } => WSMessageView::Send {
                address: address@,
                message: message@,
            },
            WSMessage::Receive { address, message } => WSMessageView::Receive {
                address: address@,
                message: message@,
            },
        }
    }
}

/// What a connection's outbound loop writes to its socket for one bus
/// message: the payload of a `Send` tagged with this gateway's own
/// address, and nothing else — never a message for another address, never
/// a `Receive`.
pub fn ws_outbound_payload(local: &str, msg: &WSMessage) -> (r: Option<String>)
    ensures
        match msg@ {
            WSMessageView::Send { address, message } => if address == local@ {
                r matches Some(p) && p@ == message
            } else {
                r is None
            },
            WSMessageView::Receive { .. } => r is None,
        },
{
    match msg {
        WSMessage::Send { address, message } => {
            if str_eq(address.as_str(), local) {
                Some(message.clone())
            } else {
                None
            }
        },
        WSMessage::Receive { .. } => None,
    }
}

/// How a text frame read from a client's socket enters the gateway bus:
/// wrapped as a `Receive` tagged with this gateway's own address.
pub fn ws_wrap_inbound(local: &str, text: String) -> (m: WSMessage)
    ensures
        m@ == (WSMessageView::Receive { address: local@, message: text@ }),
{
    WSMessage::Receive { address: local.to_owned(), message: text }
}

} // verus!
