//! Application-level peer RPC: call results and inbound calls and
//! notifications as the application sees them.

use vstd::prelude::*;

verus! {

/// The result of a request-response call: its status (see
/// `app_rpc_status`), error message and reply payload.
pub struct AppCallResultC {
    pub status: i32,
    pub error_msg: String,
    pub payload: Vec<u8>,
}

/// Whether an inbound event is a call that awaits a reply or a notification.
#[derive(Clone, Copy, Debug, PartialEq, Eq, Structural)]
pub enum AppInboundKindC {
    /// A request that expects a reply through its `token`.
    Call,
    /// A fire-and-forget notification; its request id and token are 0.
    Notify,
}

/// An inbound call or notification, flat for the application.
pub struct AppInboundEventC {
    pub kind: AppInboundKindC,
    pub from_peer_id: u32,
    pub channel: String,
    /// The caller's request id (0 for a notification).
    pub request_id: u64,
    /// The token to reply with (0 for a notification).
    pub token: u64,
    pub payload: Vec<u8>,
}

/// An inbound event as the RPC service delivers it.
pub enum AppInboundEvent {
    Call { from_peer_id: u32, channel: String, request_id: u64, token: u64, payload: Vec<u8> },
    Notify { from_peer_id: u32, channel: String, payload: Vec<u8> },
}

/// Flattens an inbound event: a notification gets request id and token 0.
pub fn inbound_event_to_c(evt: AppInboundEvent) -> (c: AppInboundEventC)
    ensures
        match evt {
            AppInboundEvent::Call { from_peer_id, channel, request_id, token, payload } => c.kind
                == AppInboundKindC::Call && c.from_peer_id == from_peer_id && c.channel@
                == channel@ && c.request_id == request_id && c.token == token && c.payload@
                == payload@,
            AppInboundEvent::Notify { from_peer_id, channel, payload } => c.kind
                == AppInboundKindC::Notify && c.from_peer_id == from_peer_id && c.channel@
                == channel@ && c.request_id == 0 && c.token == 0 && c.payload@ == payload@,
        },
{
    match evt {
        AppInboundEvent::Call { from_peer_id, channel, request_id, token, payload } =>
            AppInboundEventC {
            kind: AppInboundKindC::Call,
            from_peer_id,
            channel,
            request_id,
            token,
            payload,
        },
        AppInboundEvent::Notify { from_peer_id, channel, payload } => AppInboundEventC {
            kind: AppInboundKindC::Notify,
            from_peer_id,
            channel,
            request_id: 0,
            token: 0,
            payload,
        },
    }
}

/// What the inbound subscription receives from the RPC service.
pub enum InboundReceive {
    Event(AppInboundEvent),
    /// The service's channel closed (the instance shut down).
    Closed,
    /// The subscriber fell behind and this many events were skipped.
    Lagged(u64),
    /// The last event could not be handed to the application (its stream
    /// is gone).
    DeliveryFailed,
}

/// What the inbound subscription does with one receive.
pub enum InboundAction {
    /// Hand this event to the application.
    Deliver(AppInboundEventC),
    /// Note the skipped events and go on receiving.
    ReportLag(u64),
    /// End the subscription.
    Finish,
}

/// Decides the subscription's reaction to one receive.
pub fn inbound_step(r: InboundReceive) -> (a: InboundAction)
    ensures
        match r {
            InboundReceive::Event(e) => a matches InboundAction::Deliver(c) && match e {
                AppInboundEvent::Call { from_peer_id, channel, request_id, token, payload } =>
                    c.kind == AppInboundKindC::Call && c.from_peer_id == from_peer_id && c.channel@
                    == channel@ && c.request_id == request_id && c.token == token && c.payload@
                    == payload@,
                AppInboundEvent::Notify { from_peer_id, channel, payload } => c.kind
                    == AppInboundKindC::Notify && c.from_peer_id == from_peer_id && c.channel@
                    == channel@ && c.request_id == 0 && c.token == 0 && c.payload@ == payload@,
            },
            InboundReceive::Closed => a is Finish,
            InboundReceive::Lagged(n) => a == InboundAction::ReportLag(n),
            InboundReceive::DeliveryFailed => a is Finish,
        },
{
    match r {
        InboundReceive::Event(e) => InboundAction::Deliver(inbound_event_to_c(e)),
        InboundReceive::Closed => InboundAction::Finish,
        InboundReceive::Lagged(n) => InboundAction::ReportLag(n),
        InboundReceive::DeliveryFailed => InboundAction::Finish,
    }
}

} // verus!
