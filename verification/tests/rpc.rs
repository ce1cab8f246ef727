use astral_rust_core::app_rpc_status::{NO_SUBSCRIBER, OK, REPLY_TIMEOUT, SERVICE_DROPPED};
use astral_rust_core::rpc::{
    inbound_event_to_c, inbound_step, AppInboundEvent, AppInboundKindC, InboundAction,
    InboundReceive,
};

#[test]
fn status_codes() {
    assert_eq!((OK, NO_SUBSCRIBER, REPLY_TIMEOUT, SERVICE_DROPPED), (0, -1, -2, -3));
}

#[test]
fn call_events_keep_request_and_token() {
    let c = inbound_event_to_c(AppInboundEvent::Call {
        from_peer_id: 5,
        channel: "chat".to_string(),
        request_id: 9,
        token: 77,
        payload: vec![1],
    });
    assert_eq!(c.kind, AppInboundKindC::Call);
    assert_eq!((c.from_peer_id, c.request_id, c.token), (5, 9, 77));
    assert_eq!(c.channel, "chat");
    assert_eq!(c.payload, vec![1]);
}

#[test]
fn notify_events_have_zero_request_and_token() {
    let c = inbound_event_to_c(AppInboundEvent::Notify {
        from_peer_id: 6,
        channel: "ping".to_string(),
        payload: vec![],
    });
    assert_eq!(c.kind, AppInboundKindC::Notify);
    assert_eq!((c.request_id, c.token), (0, 0));
}

#[test]
fn inbound_steps() {
    assert!(matches!(inbound_step(InboundReceive::Closed), InboundAction::Finish));
    assert!(matches!(inbound_step(InboundReceive::DeliveryFailed), InboundAction::Finish));
    assert!(matches!(inbound_step(InboundReceive::Lagged(3)), InboundAction::ReportLag(3)));
    match inbound_step(InboundReceive::Event(AppInboundEvent::Notify {
        from_peer_id: 1,
        channel: "c".to_string(),
        payload: vec![],
    })) {
        InboundAction::Deliver(c) => assert_eq!(c.from_peer_id, 1),
        _ => panic!("expected a delivery"),
    }
}
