use astral_rust_core::network::{
    collect_relay_hops, local_route, network_status_from_info, peer_route_pairs_from_info, ConnStats,
    LatencySource, MyNodeOutline, PairSource, PeerConnInfo, PeerRoutePairInfo, RouteInfo, RunningInfoOutline,
};

fn route(peer_id: u32, next_hop: u32, cost: i32, hostname: &str) -> RouteInfo {
    RouteInfo {
        peer_id,
        ipv4_addr: Some(format!("10.0.0.{}", peer_id)),
        ipv6_addr: None,
        next_hop_peer_id: next_hop,
        cost,
        path_latency_latency_first: 7,
        hostname: hostname.to_string(),
        inst_id: format!("inst-{}", peer_id),
        version: "2.4.0".to_string(),
    }
}

fn pair(route: Option<RouteInfo>) -> PeerRoutePairInfo {
    PeerRoutePairInfo {
        route,
        conns: Vec::new(),
        conn_protos: None,
        udp_nat_type: "FullCone".to_string(),
        rx_bytes: None,
        tx_bytes: None,
    }
}

#[test]
fn relay_hops_follow_next_hops() {
    let routes = vec![route(2, 3, 2, "b"), route(3, 4, 1, "c"), route(4, 4, 1, "d")];
    let hops = collect_relay_hops(&routes, 3, 2);
    let ids: Vec<u32> = hops.iter().map(|h| h.peer_id).collect();
    assert_eq!(ids, vec![3, 4]);
    assert_eq!(hops[0].target_ip, "10.0.0.3");
    assert_eq!(hops[0].node_name, "c");
}

#[test]
fn relay_hops_stop_at_target_zero_and_loops() {
    let routes = vec![route(5, 6, 2, "e"), route(6, 5, 2, "f")];
    assert_eq!(collect_relay_hops(&routes, 0, 9).len(), 0);
    assert_eq!(collect_relay_hops(&routes, 9, 9).len(), 0);
    // 5 -> 6 -> 5 is a loop: each peer once.
    let ids: Vec<u32> = collect_relay_hops(&routes, 5, 9).iter().map(|h| h.peer_id).collect();
    assert_eq!(ids, vec![5, 6]);
    // a peer without a route ends the walk
    assert_eq!(collect_relay_hops(&routes, 8, 9).len(), 0);
}

#[test]
fn relay_hops_use_last_route_for_a_peer() {
    let routes = vec![route(3, 3, 1, "first"), route(3, 3, 1, "second")];
    let hops = collect_relay_hops(&routes, 3, 1);
    assert_eq!(hops.len(), 1);
    assert_eq!(hops[0].node_name, "second");
}

#[test]
fn status_sorts_and_keeps_first_pair_per_peer() {
    let mut p1 = pair(Some(route(9, 9, 1, "nine")));
    p1.conn_protos = Some(vec!["udp".to_string(), "tcp".to_string()]);
    p1.rx_bytes = Some(100);
    let p2 = pair(Some(route(3, 3, 1, "three")));
    let p3 = pair(Some(route(9, 9, 1, "nine again")));
    let p4 = pair(None);
    let s = network_status_from_info(&vec![p1, p2, p3, p4]);
    assert_eq!(s.total_nodes, 2);
    assert_eq!(s.nodes[0].peer_id, 3);
    assert_eq!(s.nodes[1].peer_id, 9);
    assert_eq!(s.nodes[1].hostname, "nine");
    assert_eq!(s.nodes[1].pair_index, 0);
    assert_eq!(s.nodes[1].tunnel_proto, "udp,tcp");
    assert_eq!(s.nodes[1].conn_type, "udp");
    assert_eq!(s.nodes[1].rx_bytes, 100);
    assert_eq!(s.nodes[1].tx_bytes, 0);
    assert_eq!(s.nodes[1].latency, LatencySource::PeerMeasured);
    assert_eq!(s.nodes[0].conn_type, "FullCone");
    assert_eq!(s.nodes[0].ipv4, "10.0.0.3");
    assert_eq!(s.nodes[0].ipv6, "");
}

#[test]
fn status_of_relayed_peer_has_hops_and_path_latency() {
    let pairs = vec![
        pair(Some(route(2, 3, 2, "far"))),
        pair(Some(route(3, 3, 1, "relay"))),
    ];
    let s = network_status_from_info(&pairs);
    assert_eq!(s.nodes[0].peer_id, 2);
    assert_eq!(s.nodes[0].latency, LatencySource::PathLatency(7));
    let ids: Vec<u32> = s.nodes[0].hops.iter().map(|h| h.peer_id).collect();
    assert_eq!(ids, vec![3]);
    assert_eq!(s.nodes[1].hops.len(), 0);
}

#[test]
fn status_of_local_node() {
    let mut local = route(0, 0, 0, "me");
    local.inst_id = "local".to_string();
    local.version = String::new();
    let s = network_status_from_info(&vec![pair(Some(local))]);
    assert_eq!(s.nodes[0].conn_type, "Local");
    assert_eq!(s.nodes[0].tunnel_proto, "-");
    assert_eq!(s.nodes[0].version, "unknown");
    assert_eq!(s.nodes[0].cost, 0);
}

#[test]
fn status_connections_need_stats() {
    let mut p = pair(Some(route(4, 4, 1, "d")));
    p.conns = vec![
        PeerConnInfo {
            tunnel_type: Some("tcp".to_string()),
            stats: Some(ConnStats { rx_bytes: 1, tx_bytes: 2, rx_packets: 3, tx_packets: 4 }),
        },
        PeerConnInfo { tunnel_type: Some("udp".to_string()), stats: None },
        PeerConnInfo {
            tunnel_type: None,
            stats: Some(ConnStats { rx_bytes: 5, tx_bytes: 6, rx_packets: 7, tx_packets: 8 }),
        },
    ];
    let s = network_status_from_info(&vec![p]);
    let c = &s.nodes[0].connections;
    assert_eq!(c.len(), 2);
    assert_eq!(c[0].conn_type, "tcp");
    assert_eq!(c[0].tx_packets, 4);
    assert_eq!(c[1].conn_type, "unknown");
    assert_eq!(c[1].rx_bytes, 5);
}

#[test]
fn empty_status() {
    let s = network_status_from_info(&Vec::new());
    assert_eq!(s.total_nodes, 0);
    assert!(s.nodes.is_empty());
}

#[test]
fn pair_plan_adds_unrouted_peers_and_local() {
    let info = RunningInfoOutline {
        pair_route_peers: vec![Some(2), None],
        listed_route_peers: vec![Some(7)],
        peer_ids: vec![2, 3, 3, 4],
        route_peer_ids: vec![5, 1, 1],
        my_peer_id: Some(1),
    };
    let plan = peer_route_pairs_from_info(&info);
    assert_eq!(
        plan,
        vec![
            PairSource::Base { from_listed: false, index: 0 },
            PairSource::Base { from_listed: false, index: 1 },
            PairSource::PeerOnly(1),
            PairSource::PeerOnly(3),
            PairSource::Local(Some(1)),
        ]
    );
}

#[test]
fn pair_plan_uses_listed_pairs_when_none_given() {
    let info = RunningInfoOutline {
        pair_route_peers: vec![],
        listed_route_peers: vec![Some(7)],
        peer_ids: vec![7],
        route_peer_ids: vec![],
        my_peer_id: Some(1),
    };
    let plan = peer_route_pairs_from_info(&info);
    assert_eq!(
        plan,
        vec![PairSource::Base { from_listed: true, index: 0 }, PairSource::Local(None)]
    );
    let info = RunningInfoOutline { my_peer_id: None, ..info };
    assert_eq!(peer_route_pairs_from_info(&info).len(), 1);
}

#[test]
fn local_route_takes_first_route_ipv6() {
    let my = MyNodeOutline {
        peer_id: 5,
        hostname: "me".to_string(),
        version: "2.4.1".to_string(),
        virtual_ipv4: Some("10.0.0.5".to_string()),
    };
    let mut a = route(5, 5, 1, "x");
    a.ipv6_addr = Some("fd00::5/64".to_string());
    let mut b = route(5, 5, 1, "y");
    b.ipv6_addr = Some("fd00::99/64".to_string());
    let r = local_route(&my, &vec![route(2, 2, 1, "b"), a, b]);
    assert_eq!(r.peer_id, 0);
    assert_eq!(r.next_hop_peer_id, 0);
    assert_eq!(r.cost, 0);
    assert_eq!(r.path_latency_latency_first, 0);
    assert_eq!(r.inst_id, "local");
    assert_eq!(r.hostname, "me");
    assert_eq!(r.version, "2.4.1");
    assert_eq!(r.ipv4_addr, Some("10.0.0.5".to_string()));
    assert_eq!(r.ipv6_addr, Some("fd00::5/64".to_string()));
    let r = local_route(&my, &vec![route(2, 2, 1, "b")]);
    assert_eq!(r.ipv6_addr, None);
}
