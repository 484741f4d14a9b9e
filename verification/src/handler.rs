//! The per-stream protocol handler. Each inbound stream on the relay protocol
//! gets one handler, bound to the authenticated remote peer. A frame is
//! decoded, the service consulted, and the status answered on the same stream
//! — to be written and flushed before any payload is relayed, so the peer can
//! tell a granted circuit from garbage. A request is processed and its answer
//! produced within one call; between calls the handler awaits the next
//! request, relays payload for a granted circuit, or is closed. A malformed
//! or oversized frame terminates the stream at once, with no retry.

use vstd::prelude::*;

use crate::codec::encode_status;
use crate::codec::spec_decode_request;
use crate::codec::spec_encode_status;
use crate::codec::Request;
use crate::service::close_transition;
use crate::service::connect_transition;
use crate::service::reserve_transition;
use crate::service::same_config;
use crate::service::unchanged_state;
use crate::service::RelayService;
use crate::types::CircuitId;
use crate::types::CloseReason;
use crate::types::PeerId;
use crate::types::Status;

verus! {

/// Where a handler rests between calls.
#[derive(Clone, Copy, PartialEq, Eq, Structural, Debug)]
pub enum HandlerState {
    /// Awaiting the next request frame.
    AwaitRequest,
    /// A circuit was granted on this stream; payload is being relayed.
    Forwarding(CircuitId),
    /// The stream is done; nothing more is accepted.
    Closed,
}

/// What the host should do with the stream after a call.
#[derive(Clone, Copy, PartialEq, Eq, Structural, Debug)]
pub enum StreamAction {
    /// Keep the stream open for further requests.
    Continue,
    /// Splice payload between the two streams of this circuit.
    StartForwarding(CircuitId),
    /// Terminate the stream.
    CloseStream,
}

/// A call's outcome: the encoded status to write and flush first, and what to
/// do with the stream afterwards.
pub struct HandlerOutput {
    pub response: Vec<u8>,
    pub action: StreamAction,
}

/// One protocol handler per inbound stream.
pub struct ProtocolHandler {
    /// The authenticated remote peer the stream belongs to.
    pub peer: PeerId,
    pub state: HandlerState,
}

/// The status a frame is answered with: malformed outside `AwaitRequest` or
/// when it decodes to no request, else what the service answers.
pub open spec fn frame_status(
    relay: RelayService,
    h: ProtocolHandler,
    payload: Seq<u8>,
    now: u64,
) -> Status {
    if !(h.state is AwaitRequest) {
        Status::MalformedRequest
    } else {
        match spec_decode_request(payload) {
            Option::None => Status::MalformedRequest,
            Option::Some(Request::Reserve { ttl }) => relay.reserve_status(
                h.peer,
                ttl as u64,
                now,
            ),
            Option::Some(Request::Connect { dst, duration: _ }) => {
                match relay.connect_decision(h.peer, dst, now) {
                    Result::Ok(_) => Status::Accepted,
                    Result::Err(re) => Status::Denied(re),
                }
            },
        }
    }
}

impl ProtocolHandler {
    /// A fresh handler for a stream of `peer`, awaiting its first request.
    pub fn new(peer: PeerId) -> (h: ProtocolHandler)
        ensures
            h.peer == peer,
            h.state is AwaitRequest,
    {
        ProtocolHandler { peer, state: HandlerState::AwaitRequest }
    }

    /// Process one frame payload. `addrs` are the addresses the transport
    /// observed for the peer; they are recorded if the frame reserves. The
    /// status answered is exactly `frame_status`; a reserve keeps the stream
    /// open, a granted connect moves to forwarding, a refused connect keeps
    /// the stream open, and anything malformed — or any frame outside
    /// `AwaitRequest` — terminates the stream, tearing down a circuit that
    /// was forwarding on it.
    pub fn on_frame(
        &mut self,
        relay: &mut RelayService,
        payload: &Vec<u8>,
        addrs: Vec<String>,
        now: u64,
    ) -> (out: HandlerOutput)
        requires
            old(relay).wf(),
        ensures
            final(relay).wf(),
            final(self).peer == old(self).peer,
            out.response@ == spec_encode_status(frame_status(*old(relay), *old(self), payload@, now)),
            match old(self).state {
                HandlerState::AwaitRequest => match spec_decode_request(payload@) {
                    Option::None => final(self).state is Closed && out.action is CloseStream
                        && unchanged_state(*old(relay), *final(relay)) && same_config(
                        *old(relay),
                        *final(relay),
                    ),
                    Option::Some(Request::Reserve { ttl }) => final(self).state is AwaitRequest
                        && out.action is Continue && reserve_transition(
                        *old(relay),
                        *final(relay),
                        frame_status(*old(relay), *old(self), payload@, now),
                        old(self).peer,
                        ttl as u64,
                        addrs,
                        now,
                    ),
                    Option::Some(Request::Connect { dst, duration }) => {
                        let d = old(relay).connect_decision(old(self).peer, dst, now);
                        &&& connect_transition(
                            *old(relay),
                            *final(relay),
                            d,
                            old(self).peer,
                            dst,
                            duration as u64,
                            now,
                        )
                        &&& d matches Result::Ok(id) ==> final(self).state
                            == HandlerState::Forwarding(id) && out.action
                            == StreamAction::StartForwarding(id)
                        &&& d matches Result::Err(_) ==> final(self).state is AwaitRequest
                            && out.action is Continue
                    },
                },
                HandlerState::Forwarding(cid) => final(self).state is Closed && out.action
                    is CloseStream && close_transition(
                    *old(relay),
                    *final(relay),
                    cid,
                    CloseReason::PeerClosed,
                ),
                HandlerState::Closed => final(self).state is Closed && out.action is CloseStream
                    && unchanged_state(*old(relay), *final(relay)) && same_config(
                    *old(relay),
                    *final(relay),
                ),
            },
    {
        match self.state {
            HandlerState::AwaitRequest => {
                match crate::codec::decode_request(payload) {
                    Option::None => {
                        self.state = HandlerState::Closed;
                        HandlerOutput {
                            response: encode_status(&Status::MalformedRequest),
                            action: StreamAction::CloseStream,
                        }
                    },
                    Option::Some(Request::Reserve { ttl }) => {
                        let st = relay.handle_reserve(self.peer, ttl as u64, addrs, now);
                        HandlerOutput {
                            response: encode_status(&st),
                            action: StreamAction::Continue,
                        }
                    },
                    Option::Some(Request::Connect { dst, duration }) => {
                        match relay.handle_connect(self.peer, dst, duration as u64, now) {
                            Result::Ok(id) => {
                                self.state = HandlerState::Forwarding(id);
                                HandlerOutput {
                                    response: encode_status(&Status::Accepted),
                                    action: StreamAction::StartForwarding(id),
                                }
                            },
                            Result::Err(re) => {
                                HandlerOutput {
                                    response: encode_status(&Status::Denied(re)),
                                    action: StreamAction::Continue,
                                }
                            },
                        }
                    },
                }
            },
            HandlerState::Forwarding(cid) => {
                let _was_live = relay.close_circuit(cid, CloseReason::PeerClosed);
                self.state = HandlerState::Closed;
                HandlerOutput {
                    response: encode_status(&Status::MalformedRequest),
                    action: StreamAction::CloseStream,
                }
            },
            HandlerState::Closed => {
                HandlerOutput {
                    response: encode_status(&Status::MalformedRequest),
                    action: StreamAction::CloseStream,
                }
            },
        }
    }

    /// The transport saw the peer's side of the stream close: a circuit still
    /// forwarding on it is torn down with cause `PeerClosed`, and the handler
    /// is done.
    pub fn on_peer_closed(&mut self, relay: &mut RelayService)
        requires
            old(relay).wf(),
        ensures
            final(relay).wf(),
            final(self).peer == old(self).peer,
            final(self).state is Closed,
            match old(self).state {
                HandlerState::Forwarding(cid) => close_transition(
                    *old(relay),
                    *final(relay),
                    cid,
                    CloseReason::PeerClosed,
                ),
                _ => unchanged_state(*old(relay), *final(relay)) && same_config(
                    *old(relay),
                    *final(relay),
                ),
            },
    {
        match self.state {
            HandlerState::Forwarding(cid) => {
                let _was_live = relay.close_circuit(cid, CloseReason::PeerClosed);
            },
            _ => {},
        }
        self.state = HandlerState::Closed;
    }

    /// The framing layer refused the stream's bytes (an oversized frame): the
    /// wire contract is violated, answer malformed and terminate the stream.
    pub fn on_protocol_violation(&mut self) -> (out: HandlerOutput)
        ensures
            final(self).peer == old(self).peer,
            final(self).state is Closed,
            out.action is CloseStream,
            out.response@ == spec_encode_status(Status::MalformedRequest),
    {
        self.state = HandlerState::Closed;
        HandlerOutput {
            response: encode_status(&Status::MalformedRequest),
            action: StreamAction::CloseStream,
        }
    }
}

} // verus!
