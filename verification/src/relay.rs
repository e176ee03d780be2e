//! Relay orchestrator decisions: what one message from either bus does to
//! the store and what, if anything, goes out on the other bus. The
//! surrounding process runs the two loops; each loop iteration is one call
//! here.

use vstd::prelude::*;
use crate::encode::{make_jmri_request, request_text};
use crate::jmri::{JmriMessage, JmriMessageView};
use crate::json::{json_decode, json_of_throttle, json_of_update, throttle_to_json,
    update_from_json, update_to_json};
use crate::parse::{parse, wire_decode, Update, UpdateView};
use crate::server::{WSMessage, WSMessageView};
use crate::store::{apply_rel, find_addr, lemma_find_addr_stable, lemma_find_from_props, Store};
use crate::str_eq;

verus! {

/// Why a bus subscription yielded no message: the bus is closed for good,
/// or this subscriber lagged and lost a stretch of messages.
#[derive(Clone, Copy, PartialEq, Eq, Structural, Debug)]
pub enum RecvFailure {
    Closed,
    Lagged,
}

/// What a loop does about it.
#[derive(Clone, Copy, PartialEq, Eq, Structural, Debug)]
pub enum LoopAction {
    Stop,
    Skip,
}

/// Every relay loop treats its bus the same way: a closed bus ends the
/// loop; a lagged subscription is accepted data loss, and the loop goes
/// on with the next message.
pub fn recv_failure_action(f: &RecvFailure) -> (a: LoopAction)
    ensures
        a == (match f {
            RecvFailure::Closed => LoopAction::Stop,
            RecvFailure::Lagged => LoopAction::Skip,
        }),
{
    match f {
        RecvFailure::Closed => LoopAction::Stop,
        RecvFailure::Lagged => LoopAction::Skip,
    }
}

/// One step of the upstream-to-gateway loop. A `Send` echo is ignored; a
/// received line that decodes is applied to the store and re-published,
/// serialized, as a gateway `Send` for the known address; a line that
/// does not decode changes nothing and is dropped.
pub fn handle_upstream_message(store: &mut Store, msg: &JmriMessage, address: &str) -> (r:
    Option<WSMessage>)
    requires
        old(store).wf(),
        find_addr(old(store)@.throttles, address@) is Some,
    ensures
        final(store).wf(),
        find_addr(final(store)@.throttles, address@) is Some,
        match msg@ {
            JmriMessageView::Send(_) => final(store)@ == old(store)@ && r is None,
            JmriMessageView::Receive(line) => match wire_decode(line) {
                None => final(store)@ == old(store)@ && r is None,
                Some(u) => apply_rel(old(store)@, final(store)@, u, address@) && (r matches Some(m)
                    && m@ == (WSMessageView::Send {
                    address: address@,
                    message: json_of_update(u),
                })),
            },
        },
{
    let line = match msg {
        JmriMessage::Send(_) => {
            return None;
        },
        JmriMessage::Receive(line) => line,
    };
    let update = match parse(line.as_str()) {
        Some(u) => u,
        None => {
            return None;
        },
    };
    store.apply(&update, address);
    proof {
        let i = find_addr(old(store)@.throttles, address@)->Some_0;
        lemma_find_from_props(old(store)@.throttles, address@, 0);
        lemma_find_addr_stable(old(store)@.throttles, store@.throttles, address@);
    }
    let message = update_to_json(&update);
    Some(WSMessage::Send { address: address.to_owned(), message })
}

/// What the gateway-to-upstream loop answers with.
pub enum GatewayReply {
    /// Nothing: the message was an echo, unrecognized, or not forwarded.
    Nothing,
    /// Messages to publish back on the gateway bus.
    ToGateway(Vec<WSMessage>),
    /// A command to publish on the upstream bus.
    ToUpstream(JmriMessage),
}

/// One step of the gateway-to-upstream loop. A `Send` echo is ignored.
/// A received `update` keyword answers with the serialized snapshot of
/// the known throttle; `test-update` answers with three canned updates;
/// any other payload is read as a JSON update and, when it encodes to a
/// command, forwarded upstream; everything else is dropped.
pub fn handle_gateway_message(store: &Store, msg: &WSMessage, address: &str) -> (r: GatewayReply)
    requires
        store.wf(),
        find_addr(store@.throttles, address@) is Some,
    ensures
        ({
            let i = find_addr(store@.throttles, address@)->Some_0;
            match msg@ {
                WSMessageView::Send { .. } => r is Nothing,
                WSMessageView::Receive { message, .. } => if message == "update"@ {
                    r matches GatewayReply::ToGateway(v) && v@.len() == 1 && v@[0]@
                        == (WSMessageView::Send {
                        address: address@,
                        message: json_of_throttle(store@.throttles[i]),
                    })
                } else if message == "test-update"@ {
                    r matches GatewayReply::ToGateway(v) && v@.len() == 3 && v@[0]@
                        == (WSMessageView::Send {
                        address: address@,
                        message: json_of_update(
                            UpdateView::Function { num: 12, is_on: true },
                        ),
                    }) && v@[1]@ == (WSMessageView::Send {
                        address: address@,
                        message: json_of_update(
                            UpdateView::Direction(crate::dcc::Direction::Forward),
                        ),
                    }) && v@[2]@ == (WSMessageView::Send {
                        address: address@,
                        message: json_of_update(UpdateView::Velocity(20)),
                    })
                } else {
                    match json_decode(message) {
                        Some(u) => match request_text(address@, u) {
                            Some(t) => r matches GatewayReply::ToUpstream(m) && m@
                                == JmriMessageView::Send(t),
                            None => r is Nothing,
                        },
                        None => r is Nothing,
                    }
                },
            }
        }),
{
    let message = match msg {
        WSMessage::Send { .. } => {
            return GatewayReply::Nothing;
        },
        WSMessage::Receive { message, .. } => message,
    };
    if str_eq(message.as_str(), "update") {
        let snapshot = store.snapshot(address);
        let reply = WSMessage::Send {
            address: address.to_owned(),
            message: throttle_to_json(&snapshot),
        };
        let mut v: Vec<WSMessage> = Vec::new();
        v.push(reply);
        return GatewayReply::ToGateway(v);
    }
    if str_eq(message.as_str(), "test-update") {
        let update_func = Update::Function { num: 12, is_on: true };
        let update_dir = Update::Direction(crate::dcc::Direction::Forward);
        let update_vel = Update::Velocity(20);
        let mut v: Vec<WSMessage> = Vec::new();
        v.push(
            WSMessage::Send {
                address: address.to_owned(),
                message: update_to_json(&update_func),
            },
        );
        v.push(
            WSMessage::Send { address: address.to_owned(), message: update_to_json(&update_dir) },
        );
        v.push(
            WSMessage::Send { address: address.to_owned(), message: update_to_json(&update_vel) },
        );
        return GatewayReply::ToGateway(v);
    }
    let update = match update_from_json(message.as_str()) {
        Some(u) => u,
        None => {
            return GatewayReply::Nothing;
        },
    };
    match make_jmri_request(address, &update) {
        Some(m) => GatewayReply::ToUpstream(m),
        None => GatewayReply::Nothing,
    }
}

} // verus!
