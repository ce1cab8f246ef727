use astral_rust_core::events::{
    emit_core_log, event_to_message, forward_event_step, peer_conn_info_to_string,
    subscribe_core_logs, CoreEvent, CoreLogHub, ForwardEvent, PeerConnSummary,
};

fn conn() -> PeerConnSummary {
    PeerConnSummary { my_peer_id: 10, peer_id: 20, tunnel: "Some(TunnelInfo)".to_string() }
}

#[test]
fn conn_info_text() {
    assert_eq!(
        peer_conn_info_to_string(&conn()),
        "my_peer_id: 10, dst_peer_id: 20, tunnel_info: Some(TunnelInfo)"
    );
}

#[test]
fn peer_events() {
    assert_eq!(event_to_message(&CoreEvent::PeerAdded(0)), Some("peer added. peer_id: 0".to_string()));
    assert_eq!(
        event_to_message(&CoreEvent::PeerRemoved(4294967295)),
        Some("peer removed. peer_id: 4294967295".to_string())
    );
    assert_eq!(
        event_to_message(&CoreEvent::PeerConnAdded(conn())),
        Some("peer connection added. conn_info: my_peer_id: 10, dst_peer_id: 20, tunnel_info: Some(TunnelInfo)".to_string())
    );
    assert_eq!(
        event_to_message(&CoreEvent::PeerConnRemoved(conn())),
        Some("peer connection removed. conn_info: my_peer_id: 10, dst_peer_id: 20, tunnel_info: Some(TunnelInfo)".to_string())
    );
}

#[test]
fn ring_listener_is_not_logged() {
    let e = CoreEvent::ListenerAdded { scheme: "ring".to_string(), listener: "ring://x".to_string() };
    assert_eq!(event_to_message(&e), None);
    let e = CoreEvent::ListenerAdded { scheme: "tcp".to_string(), listener: "tcp://0.0.0.0:11010".to_string() };
    assert_eq!(event_to_message(&e), Some("listener added. listener: tcp://0.0.0.0:11010".to_string()));
}

#[test]
fn unlogged_events() {
    assert_eq!(event_to_message(&CoreEvent::ConfigPatched), None);
    assert_eq!(event_to_message(&CoreEvent::ProxyCidrsUpdated), None);
    assert_eq!(event_to_message(&CoreEvent::CredentialChanged), Some("credential changed".to_string()));
}

#[test]
fn three_field_events() {
    let e = CoreEvent::ConnectError {
        dst: "tcp://1.2.3.4:11010".to_string(),
        ip_version: "v4".to_string(),
        err: "refused".to_string(),
    };
    assert_eq!(
        event_to_message(&e),
        Some("connect error. dst: tcp://1.2.3.4:11010, ip_version: v4, err: refused".to_string())
    );
    let e = CoreEvent::ListenerPortMappingEstablished {
        local_listener: "a".to_string(),
        mapped_listener: "b".to_string(),
        backend: "c".to_string(),
    };
    assert_eq!(
        event_to_message(&e),
        Some("listener port mapping established. local: a, mapped: b, backend: c".to_string())
    );
    let e = CoreEvent::UdpBroadcastRelayStartResult {
        capture_backend: "Some(\"pcap\")".to_string(),
        error: "None".to_string(),
    };
    assert_eq!(
        event_to_message(&e),
        Some("udp broadcast relay start result. backend: Some(\"pcap\"), error: None".to_string())
    );
}

#[test]
fn forwarder_steps() {
    let a = forward_event_step(&ForwardEvent::Closed);
    assert!(a.stop);
    assert_eq!(a.log, Some("event channel closed; stop handling events".to_string()));
    let a = forward_event_step(&ForwardEvent::Lagged(12));
    assert!(!a.stop);
    assert_eq!(a.log, Some("event lagged, dropped 12 events".to_string()));
    let a = forward_event_step(&ForwardEvent::Event(CoreEvent::ConfigPatched));
    assert!(!a.stop);
    assert_eq!(a.log, None);
    let a = forward_event_step(&ForwardEvent::Event(CoreEvent::TunDeviceReady("tun0".to_string())));
    assert_eq!(a.log, Some("tun device ready. dev: tun0".to_string()));
}

#[test]
fn core_logs_go_to_latest_subscriber() {
    let mut hub: CoreLogHub<u32> = CoreLogHub::new();
    assert!(emit_core_log(&hub, "id", "msg").is_none());
    subscribe_core_logs(&mut hub, 1);
    subscribe_core_logs(&mut hub, 2);
    let (sink, ev) = emit_core_log(&hub, "id", "msg").unwrap();
    assert_eq!(*sink, 2);
    assert_eq!(ev.instance_id, "id");
    assert_eq!(ev.message, "msg");
}
