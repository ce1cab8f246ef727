//! Network status of an EasyTier instance: which peer and route pairs are
//! shown, the relay path to each peer, and one node summary per peer.

use vstd::prelude::*;
use vstd::seq_lib::seq_to_set_is_finite;
use vstd::set_lib::lemma_len_subset;
use crate::text::{chars_equal, chars_of, join, join_strings, strings_view};

verus! {

/// A route of the EasyTier route table, with its addresses already rendered
/// as text.
pub struct RouteInfo {
    pub peer_id: u32,
    /// The virtual IPv4 address, when the route carries one.
    pub ipv4_addr: Option<String>,
    /// The virtual IPv6 address with its prefix length, when assigned.
    pub ipv6_addr: Option<String>,
    pub next_hop_peer_id: u32,
    pub cost: i32,
    pub path_latency_latency_first: i32,
    pub hostname: String,
    pub inst_id: String,
    pub version: String,
}

/// The plain values of an optional string.
pub open spec fn opt_view(o: Option<String>) -> Option<Seq<char>> {
    match o {
        Some(s) => Some(s@),
        None => None,
    }
}

/// The text of an optional string, empty when absent.
pub open spec fn text_or_empty(o: Option<Seq<char>>) -> Seq<char> {
    match o {
        Some(s) => s,
        None => Seq::empty(),
    }
}

/// The plain values of a `RouteInfo`.
pub struct RouteView {
    pub peer_id: u32,
    pub ipv4_addr: Option<Seq<char>>,
    pub ipv6_addr: Option<Seq<char>>,
    pub next_hop_peer_id: u32,
    pub cost: i32,
    pub path_latency_latency_first: i32,
    pub hostname: Seq<char>,
    pub inst_id: Seq<char>,
    pub version: Seq<char>,
}

impl View for RouteInfo {
    type V = RouteView;

    open spec fn view(&self) -> RouteView {
        RouteView {
            peer_id: self.peer_id,
            ipv4_addr: opt_view(self.ipv4_addr),
            ipv6_addr: opt_view(self.ipv6_addr),
            next_hop_peer_id: self.next_hop_peer_id,
            cost: self.cost,
            path_latency_latency_first: self.path_latency_latency_first,
            hostname: self.hostname@,
            inst_id: self.inst_id@,
            version: self.version@,
        }
    }
}

/// A copy of an optional string.
pub fn copy_opt_string(o: &Option<String>) -> (r: Option<String>)
    ensures
        opt_view(r) == opt_view(*o),
{
    match o {
        Some(s) => Some(s.clone()),
        None => None,
    }
}

/// The text of an optional string, empty when absent.
pub fn string_or_empty(o: &Option<String>) -> (r: String)
    ensures
        r@ == text_or_empty(opt_view(*o)),
{
    match o {
        Some(s) => s.clone(),
        None => String::new(),
    }
}

/// One step of a relay path: the relaying peer, its virtual IPv4 address
/// and its host name.
pub struct RelayHop {
    pub peer_id: u32,
    pub target_ip: String,
    pub node_name: String,
}

pub struct RelayHopView {
    pub peer_id: u32,
    pub target_ip: Seq<char>,
    pub node_name: Seq<char>,
}

impl View for RelayHop {
    type V = RelayHopView;

    open spec fn view(&self) -> RelayHopView {
        RelayHopView { peer_id: self.peer_id, target_ip: self.target_ip@, node_name: self.node_name@ }
    }
}

/// The route that the table gives for `peer_id`: the last route listed for
/// it, as a map built from the routes in order keeps it.
pub open spec fn route_for(rs: Seq<RouteView>, peer_id: u32) -> Option<RouteView>
    decreases rs.len(),
{
    if rs.len() == 0 {
        None
    } else if rs.last().peer_id == peer_id {
        Some(rs.last())
    } else {
        route_for(rs.drop_last(), peer_id)
    }
}

/// The relay hops from `next` towards `target`: each hop is a peer with a
/// route, and the walk follows next hops until it reaches peer 0, the
/// target, a peer without route, a peer seen before, or a route that names
/// itself as next hop. `fuel` bounds the walk; a walk never takes more steps
/// than there are routes.
pub open spec fn relay_hops(
    rs: Seq<RouteView>,
    next: u32,
    target: u32,
    visited: Seq<u32>,
    fuel: nat,
) -> Seq<RelayHopView>
    decreases fuel,
{
    if fuel == 0 || next == 0 || next == target || visited.contains(next) {
        Seq::empty()
    } else {
        match route_for(rs, next) {
            None => Seq::empty(),
            Some(r) => {
                let hop = RelayHopView {
                    peer_id: next,
                    target_ip: text_or_empty(r.ipv4_addr),
                    node_name: r.hostname,
                };
                if r.next_hop_peer_id == next {
                    seq![hop]
                } else {
                    seq![hop] + relay_hops(
                        rs,
                        r.next_hop_peer_id,
                        target,
                        visited.push(next),
                        (fuel - 1) as nat,
                    )
                }
            },
        }
    }
}

/// The relay path from `next` to `target` over the routes `rs`.
pub open spec fn relay_path(rs: Seq<RouteView>, next: u32, target: u32) -> Seq<RelayHopView> {
    relay_hops(rs, next, target, Seq::empty(), (rs.len() + 1) as nat)
}

proof fn lemma_relay_hops_simple(
    rs: Seq<RouteView>,
    next: u32,
    target: u32,
    visited: Seq<u32>,
    fuel: nat,
)
    ensures
        ({
            let h = relay_hops(rs, next, target, visited, fuel);
            &&& forall|i: int, j: int| 0 <= i < j < h.len() ==> h[i].peer_id != h[j].peer_id
            &&& forall|i: int|
                0 <= i < h.len() ==> {
                    &&& (#[trigger] h[i]).peer_id != 0
                    &&& h[i].peer_id != target
                    &&& !visited.contains(h[i].peer_id)
                    &&& route_for(rs, h[i].peer_id) is Some
                }
        }),
    decreases fuel,
{
    if fuel == 0 || next == 0 || next == target || visited.contains(next) {
    } else {
        match route_for(rs, next) {
            None => {},
            Some(r) => {
                if r.next_hop_peer_id != next {
                    let v2 = visited.push(next);
                    lemma_relay_hops_simple(rs, r.next_hop_peer_id, target, v2, (fuel - 1) as nat);
                    let tail = relay_hops(rs, r.next_hop_peer_id, target, v2, (fuel - 1) as nat);
                    let h = relay_hops(rs, next, target, visited, fuel);
                    assert forall|i: int| 0 <= i < tail.len() implies (#[trigger] tail[i]).peer_id != next && !visited.contains(tail[i].peer_id) by {
                        assert(v2[v2.len() - 1] == next);
                        if visited.contains(tail[i].peer_id) {
                            let k = choose|k: int| 0 <= k < visited.len() && visited[k] == tail[i].peer_id;
                            assert(v2[k] == visited[k]);
                        }
                    }
                    assert forall|i: int| 0 < i < h.len() implies h[i] == tail[i - 1] by {}
                }
            },
        }
    }
}

/// A relay path is simple: no peer appears twice, none is peer 0 or the
/// target, and every peer on it has a route.
pub proof fn law_relay_path_is_simple(rs: Seq<RouteView>, next: u32, target: u32)
    ensures
        ({
            let h = relay_path(rs, next, target);
            &&& forall|i: int, j: int| 0 <= i < j < h.len() ==> h[i].peer_id != h[j].peer_id
            &&& forall|i: int|
                0 <= i < h.len() ==> {
                    &&& (#[trigger] h[i]).peer_id != 0
                    &&& h[i].peer_id != target
                    &&& route_for(rs, h[i].peer_id) is Some
                }
        }),
{
    lemma_relay_hops_simple(rs, next, target, Seq::empty(), (rs.len() + 1) as nat);
}

pub open spec fn route_views(rs: Seq<RouteInfo>) -> Seq<RouteView> {
    rs.map_values(|r: RouteInfo| r@)
}

pub open spec fn hop_views(hs: Seq<RelayHop>) -> Seq<RelayHopView> {
    hs.map_values(|h: RelayHop| h@)
}

proof fn lemma_route_for_found(rs: Seq<RouteView>, peer_id: u32)
    ensures
        route_for(rs, peer_id) matches Some(r) ==> r.peer_id == peer_id && exists|i: int|
            0 <= i < rs.len() && rs[i] == r,
    decreases rs.len(),
{
    if rs.len() > 0 && rs.last().peer_id != peer_id {
        lemma_route_for_found(rs.drop_last(), peer_id);
        if route_for(rs.drop_last(), peer_id) is Some {
            let r = route_for(rs.drop_last(), peer_id)->0;
            let i = choose|i: int| 0 <= i < rs.drop_last().len() && rs.drop_last()[i] == r;
            assert(rs[i] == r);
        }
    }
    if rs.len() > 0 && rs.last().peer_id == peer_id {
        assert(rs[rs.len() - 1] == rs.last());
    }
}

proof fn lemma_distinct_within(a: Seq<u32>, b: Seq<u32>)
    requires
        a.no_duplicates(),
        forall|i: int| 0 <= i < a.len() ==> b.contains(#[trigger] a[i]),
    ensures
        a.len() <= b.len(),
{
    a.unique_seq_to_set();
    b.lemma_cardinality_of_set();
    seq_to_set_is_finite(b);
    assert(a.to_set().subset_of(b.to_set()));
    lemma_len_subset(a.to_set(), b.to_set());
}

/// Whether `x` is one of `v`.
pub fn contains_u32(v: &Vec<u32>, x: u32) -> (b: bool)
    ensures
        b == v@.contains(x),
{
    let mut i: usize = 0;
    while i < v.len()
        invariant
            i <= v.len(),
            forall|k: int| 0 <= k < i ==> v@[k] != x,
        decreases v.len() - i,
    {
        if v[i] == x {
            assert(v@[i as int] == x);
            return true;
        }
        i = i + 1;
    }
    false
}

/// Looks up the route for `peer_id`: the last one listed for it.
fn find_route(routes: &Vec<RouteInfo>, peer_id: u32) -> (r: Option<usize>)
    ensures
        match r {
            Some(i) => i < routes.len() && route_for(route_views(routes@), peer_id) == Some(
                routes@[i as int]@,
            ),
            None => route_for(route_views(routes@), peer_id) is None,
        },
{
    let mut i: usize = routes.len();
    assert(route_views(routes@).take(routes@.len() as int) =~= route_views(routes@));
    while i > 0
        invariant
            i <= routes.len(),
            route_for(route_views(routes@), peer_id) == route_for(
                route_views(routes@).take(i as int),
                peer_id,
            ),
        decreases i,
    {
        let ghost t = route_views(routes@).take(i as int);
        assert(t.drop_last() =~= route_views(routes@).take(i - 1));
        assert(t.last() == routes@[i - 1]@);
        if routes[i - 1].peer_id == peer_id {
            return Some(i - 1);
        }
        i = i - 1;
    }
    None
}

/// The relay hops from `next` to `target`, following the route table.
pub fn collect_relay_hops(routes: &Vec<RouteInfo>, next: u32, target: u32) -> (hops: Vec<RelayHop>)
    ensures
        hop_views(hops@) == relay_path(route_views(routes@), next, target),
{
    let ghost rs = route_views(routes@);
    let ghost ids = rs.map_values(|r: RouteView| r.peer_id);
    assert(route_views(routes@).take(routes@.len() as int) =~= route_views(routes@));
    let mut hops: Vec<RelayHop> = Vec::new();
    let mut visited: Vec<u32> = Vec::new();
    let ghost start = next;
    let mut cur = next;
    let ghost fuel: nat = (rs.len() + 1) as nat;
    loop
        invariant
            start == next,
            rs == route_views(routes@),
            ids == rs.map_values(|r: RouteView| r.peer_id),
            visited@.no_duplicates(),
            forall|i: int| 0 <= i < visited@.len() ==> ids.contains(#[trigger] visited@[i]),
            fuel + visited@.len() == rs.len() + 1,
            relay_path(rs, start, target) == hop_views(hops@) + relay_hops(rs, cur, target, visited@, fuel),
        decreases fuel,
    {
        proof {
            lemma_distinct_within(visited@, ids);
        }
        if cur == 0 || cur == target || contains_u32(&visited, cur) {
            assert(relay_hops(rs, cur, target, visited@, fuel) =~= Seq::<RelayHopView>::empty());
            assert(hop_views(hops@) =~= hop_views(hops@) + Seq::<RelayHopView>::empty());
            return hops;
        }
        let ri = match find_route(routes, cur) {
            Some(ri) => ri,
            None => {
                assert(relay_hops(rs, cur, target, visited@, fuel) =~= Seq::<RelayHopView>::empty());
                assert(hop_views(hops@) =~= hop_views(hops@) + Seq::<RelayHopView>::empty());
                return hops;
            },
        };
        let hop = RelayHop {
            peer_id: cur,
            target_ip: string_or_empty(&routes[ri].ipv4_addr),
            node_name: routes[ri].hostname.clone(),
        };
        let step = routes[ri].next_hop_peer_id;
        let ghost old_hops = hops@;
        hops.push(hop);
        assert(hop_views(hops@) =~= hop_views(old_hops).push(hop@));
        if step == cur {
            assert(hop_views(hops@) =~= hop_views(old_hops) + seq![hop@]);
            return hops;
        }
        proof {
            lemma_route_for_found(rs, cur);
            let k = choose|k: int| 0 <= k < rs.len() && rs[k] == rs[ri as int];
            assert(ids[ri as int] == cur);
            assert(hop_views(old_hops) + (seq![hop@] + relay_hops(rs, step, target, visited@.push(cur), (fuel - 1) as nat)) =~= hop_views(hops@) + relay_hops(rs, step, target, visited@.push(cur), (fuel - 1) as nat));
            fuel = (fuel - 1) as nat;
        }
        visited.push(cur);
        cur = step;
    }
}


impl RouteInfo {
    /// A copy of this route.
    pub fn duplicate(&self) -> (r: RouteInfo)
        ensures
            r@ == self@,
    {
        RouteInfo {
            peer_id: self.peer_id,
            ipv4_addr: copy_opt_string(&self.ipv4_addr),
            ipv6_addr: copy_opt_string(&self.ipv6_addr),
            next_hop_peer_id: self.next_hop_peer_id,
            cost: self.cost,
            path_latency_latency_first: self.path_latency_latency_first,
            hostname: self.hostname.clone(),
            inst_id: self.inst_id.clone(),
            version: self.version.clone(),
        }
    }
}

/// Traffic counters of one connection.
#[derive(Clone, Copy)]
pub struct ConnStats {
    pub rx_bytes: u64,
    pub tx_bytes: u64,
    pub rx_packets: u64,
    pub tx_packets: u64,
}

/// A connection to a peer: the tunnel type when known, and its counters
/// when reported.
pub struct PeerConnInfo {
    pub tunnel_type: Option<String>,
    pub stats: Option<ConnStats>,
}

pub struct PeerConnView {
    pub tunnel_type: Option<Seq<char>>,
    pub stats: Option<ConnStats>,
}

impl View for PeerConnInfo {
    type V = PeerConnView;

    open spec fn view(&self) -> PeerConnView {
        PeerConnView { tunnel_type: opt_view(self.tunnel_type), stats: self.stats }
    }
}

/// A peer and route pair of the status report, with what EasyTier derives
/// from it: the connections of its peer (none when it has no peer), the
/// protocols of those connections, the UDP NAT type, and the byte counters.
pub struct PeerRoutePairInfo {
    pub route: Option<RouteInfo>,
    pub conns: Vec<PeerConnInfo>,
    pub conn_protos: Option<Vec<String>>,
    pub udp_nat_type: String,
    pub rx_bytes: Option<u64>,
    pub tx_bytes: Option<u64>,
}

pub struct PairView {
    pub route: Option<RouteView>,
    pub conns: Seq<PeerConnView>,
    pub conn_protos: Option<Seq<Seq<char>>>,
    pub udp_nat_type: Seq<char>,
    pub rx_bytes: Option<u64>,
    pub tx_bytes: Option<u64>,
}

impl View for PeerRoutePairInfo {
    type V = PairView;

    open spec fn view(&self) -> PairView {
        PairView {
            route: match self.route {
                Some(r) => Some(r@),
                None => None,
            },
            conns: self.conns@.map_values(|c: PeerConnInfo| c@),
            conn_protos: match self.conn_protos {
                Some(v) => Some(strings_view(v@)),
                None => None,
            },
            udp_nat_type: self.udp_nat_type@,
            rx_bytes: self.rx_bytes,
            tx_bytes: self.tx_bytes,
        }
    }
}

pub open spec fn pair_views(ps: Seq<PeerRoutePairInfo>) -> Seq<PairView> {
    ps.map_values(|p: PeerRoutePairInfo| p@)
}

/// Traffic counters of one connection, labelled with its tunnel type.
pub struct KVNodeConnectionStats {
    pub conn_type: String,
    pub rx_bytes: u64,
    pub tx_bytes: u64,
    pub rx_packets: u64,
    pub tx_packets: u64,
}

pub struct ConnStatsView {
    pub conn_type: Seq<char>,
    pub rx_bytes: u64,
    pub tx_bytes: u64,
    pub rx_packets: u64,
    pub tx_packets: u64,
}

impl View for KVNodeConnectionStats {
    type V = ConnStatsView;

    open spec fn view(&self) -> ConnStatsView {
        ConnStatsView {
            conn_type: self.conn_type@,
            rx_bytes: self.rx_bytes,
            tx_bytes: self.tx_bytes,
            rx_packets: self.rx_packets,
            tx_packets: self.tx_packets,
        }
    }
}

/// Where a node's latency comes from: the pair's measured latency, or the
/// route's path latency.
#[derive(Clone, Copy, Debug, PartialEq, Eq, Structural)]
pub enum LatencySource {
    PeerMeasured,
    PathLatency(i32),
}

/// One node of the network status. `pair_index` names the pair it was made
/// from, which holds its latency and loss measurements.
pub struct NodeSummary {
    pub pair_index: usize,
    pub peer_id: u32,
    pub hostname: String,
    pub ipv4: String,
    pub ipv6: String,
    pub latency: LatencySource,
    pub nat: String,
    pub hops: Vec<RelayHop>,
    pub connections: Vec<KVNodeConnectionStats>,
    pub tunnel_proto: String,
    pub conn_type: String,
    pub rx_bytes: u64,
    pub tx_bytes: u64,
    pub version: String,
    pub cost: i32,
}

pub struct NodeView {
    pub pair_index: int,
    pub peer_id: u32,
    pub hostname: Seq<char>,
    pub ipv4: Seq<char>,
    pub ipv6: Seq<char>,
    pub latency: LatencySource,
    pub nat: Seq<char>,
    pub hops: Seq<RelayHopView>,
    pub connections: Seq<ConnStatsView>,
    pub tunnel_proto: Seq<char>,
    pub conn_type: Seq<char>,
    pub rx_bytes: u64,
    pub tx_bytes: u64,
    pub version: Seq<char>,
    pub cost: i32,
}

impl View for NodeSummary {
    type V = NodeView;

    open spec fn view(&self) -> NodeView {
        NodeView {
            pair_index: self.pair_index as int,
            peer_id: self.peer_id,
            hostname: self.hostname@,
            ipv4: self.ipv4@,
            ipv6: self.ipv6@,
            latency: self.latency,
            nat: self.nat@,
            hops: hop_views(self.hops@),
            connections: self.connections@.map_values(|c: KVNodeConnectionStats| c@),
            tunnel_proto: self.tunnel_proto@,
            conn_type: self.conn_type@,
            rx_bytes: self.rx_bytes,
            tx_bytes: self.tx_bytes,
            version: self.version@,
            cost: self.cost,
        }
    }
}

pub open spec fn node_views(ns: Seq<NodeSummary>) -> Seq<NodeView> {
    ns.map_values(|n: NodeSummary| n@)
}

/// The routes of the pairs that have one, in pair order.
pub open spec fn pair_routes(ps: Seq<PairView>) -> Seq<RouteView>
    decreases ps.len(),
{
    if ps.len() == 0 {
        Seq::empty()
    } else {
        match ps.last().route {
            Some(r) => pair_routes(ps.drop_last()).push(r),
            None => pair_routes(ps.drop_last()),
        }
    }
}

/// The counters of the connections that report them, labelled with their
/// tunnel type (`unknown` when it is not known).
pub open spec fn connection_stats(conns: Seq<PeerConnView>) -> Seq<ConnStatsView>
    decreases conns.len(),
{
    if conns.len() == 0 {
        Seq::empty()
    } else {
        let c = conns.last();
        match c.stats {
            Some(st) => connection_stats(conns.drop_last()).push(
                ConnStatsView {
                    conn_type: match c.tunnel_type {
                        Some(t) => t,
                        None => "unknown"@,
                    },
                    rx_bytes: st.rx_bytes,
                    tx_bytes: st.tx_bytes,
                    rx_packets: st.rx_packets,
                    tx_packets: st.tx_packets,
                },
            ),
            None => connection_stats(conns.drop_last()),
        }
    }
}

/// The route belongs to this node itself: the synthetic local route.
pub open spec fn is_local_route(r: RouteView) -> bool {
    r.inst_id == "local"@ || r.peer_id == 0
}

/// The node that pair `j` shows; `rs` are the routes of all pairs.
pub open spec fn node_of(ps: Seq<PairView>, rs: Seq<RouteView>, j: int) -> NodeView {
    let p = ps[j];
    let r = p.route->0;
    let protos = match p.conn_protos {
        Some(v) => v,
        None => Seq::empty(),
    };
    let tunnel_proto = join(protos, ","@);
    let conn_type = if protos.len() > 0 { protos[0] } else { p.udp_nat_type };
    NodeView {
        pair_index: j,
        peer_id: r.peer_id,
        hostname: r.hostname,
        ipv4: text_or_empty(r.ipv4_addr),
        ipv6: text_or_empty(r.ipv6_addr),
        latency: if r.cost == 1 { LatencySource::PeerMeasured } else { LatencySource::PathLatency(r.path_latency_latency_first) },
        nat: p.udp_nat_type,
        hops: if r.cost <= 1 || is_local_route(r) { Seq::empty() } else { relay_path(rs, r.next_hop_peer_id, r.peer_id) },
        connections: connection_stats(p.conns),
        tunnel_proto: if is_local_route(r) && tunnel_proto.len() == 0 { "-"@ } else { tunnel_proto },
        conn_type: if is_local_route(r) { "Local"@ } else { conn_type },
        rx_bytes: match p.rx_bytes { Some(b) => b, None => 0 },
        tx_bytes: match p.tx_bytes { Some(b) => b, None => 0 },
        version: if r.version.len() == 0 { "unknown"@ } else { r.version },
        cost: r.cost,
    }
}


/// Whether the route is the synthetic local route.
pub fn is_local(r: &RouteInfo) -> (b: bool)
    ensures
        b == is_local_route(r@),
{
    let local = vec!['l', 'o', 'c', 'a', 'l'];
    proof {
        reveal_strlit("local");
    }
    assert(local@ == "local"@);
    let inst = chars_of(r.inst_id.as_str());
    chars_equal(&inst, &local) || r.peer_id == 0
}

/// The routes of the pairs that have one, in pair order.
pub fn collect_pair_routes(pairs: &Vec<PeerRoutePairInfo>) -> (rs: Vec<RouteInfo>)
    ensures
        route_views(rs@) == pair_routes(pair_views(pairs@)),
{
    let mut rs: Vec<RouteInfo> = Vec::new();
    let mut i: usize = 0;
    while i < pairs.len()
        invariant
            i <= pairs.len(),
            route_views(rs@) == pair_routes(pair_views(pairs@).take(i as int)),
        decreases pairs.len() - i,
    {
        let ghost t = pair_views(pairs@).take(i + 1);
        assert(t.drop_last() =~= pair_views(pairs@).take(i as int));
        assert(t.last() == pairs@[i as int]@);
        let ghost before = rs@;
        match &pairs[i].route {
            Some(r) => {
                rs.push(r.duplicate());
                assert(route_views(rs@) =~= route_views(before).push(r@));
            },
            None => {},
        }
        i = i + 1;
    }
    assert(pair_views(pairs@).take(pairs.len() as int) =~= pair_views(pairs@));
    rs
}

/// The labelled counters of the connections that report them.
pub fn collect_connection_stats(conns: &Vec<PeerConnInfo>) -> (r: Vec<KVNodeConnectionStats>)
    ensures
        r@.map_values(|c: KVNodeConnectionStats| c@) == connection_stats(
            conns@.map_values(|c: PeerConnInfo| c@),
        ),
{
    let ghost cv = conns@.map_values(|c: PeerConnInfo| c@);
    let mut r: Vec<KVNodeConnectionStats> = Vec::new();
    let mut i: usize = 0;
    while i < conns.len()
        invariant
            i <= conns.len(),
            cv == conns@.map_values(|c: PeerConnInfo| c@),
            r@.map_values(|c: KVNodeConnectionStats| c@) == connection_stats(cv.take(i as int)),
        decreases conns.len() - i,
    {
        let ghost t = cv.take(i + 1);
        assert(t.drop_last() =~= cv.take(i as int));
        assert(t.last() == conns@[i as int]@);
        let ghost before = r@;
        match conns[i].stats {
            Some(st) => {
                let conn_type = match &conns[i].tunnel_type {
                    Some(t) => t.clone(),
                    None => String::from_str("unknown"),
                };
                let c = KVNodeConnectionStats {
                    conn_type,
                    rx_bytes: st.rx_bytes,
                    tx_bytes: st.tx_bytes,
                    rx_packets: st.rx_packets,
                    tx_packets: st.tx_packets,
                };
                let ghost cview = c@;
                r.push(c);
                assert(r@.map_values(|c: KVNodeConnectionStats| c@) =~= before.map_values(
                    |c: KVNodeConnectionStats| c@,
                ).push(cview));
            },
            None => {},
        }
        i = i + 1;
    }
    assert(cv.take(conns.len() as int) =~= cv);
    r
}

/// The node that pair `j` shows.
pub fn node_of_pair(pairs: &Vec<PeerRoutePairInfo>, routes: &Vec<RouteInfo>, j: usize) -> (n:
    NodeSummary)
    requires
        j < pairs.len(),
        pairs@[j as int].route is Some,
        route_views(routes@) == pair_routes(pair_views(pairs@)),
    ensures
        n@ == node_of(pair_views(pairs@), pair_routes(pair_views(pairs@)), j as int),
{
    let p = &pairs[j];
    assert(pair_views(pairs@)[j as int] == p@);
    let r = match &p.route {
        Some(r) => r,
        None => {
            assert(false);
            return NodeSummary {
                pair_index: j,
                peer_id: 0,
                hostname: String::new(),
                ipv4: String::new(),
                ipv6: String::new(),
                latency: LatencySource::PeerMeasured,
                nat: String::new(),
                hops: Vec::new(),
                connections: Vec::new(),
                tunnel_proto: String::new(),
                conn_type: String::new(),
                rx_bytes: 0,
                tx_bytes: 0,
                version: String::new(),
                cost: 0,
            };
        },
    };
    let local = is_local(r);
    let latency = if r.cost == 1 {
        LatencySource::PeerMeasured
    } else {
        LatencySource::PathLatency(r.path_latency_latency_first)
    };
    let empty: Vec<String> = Vec::new();
    let protos: &Vec<String> = match &p.conn_protos {
        Some(v) => v,
        None => &empty,
    };
    assert(strings_view(empty@) =~= Seq::<Seq<char>>::empty());
    let mut tunnel_proto = join_strings(protos, ",");
    let mut conn_type = if protos.len() > 0 {
        protos[0].clone()
    } else {
        p.udp_nat_type.clone()
    };
    let hops = if r.cost <= 1 || local {
        let h: Vec<RelayHop> = Vec::new();
        assert(hop_views(h@) =~= Seq::<RelayHopView>::empty());
        h
    } else {
        collect_relay_hops(routes, r.next_hop_peer_id, r.peer_id)
    };
    if local {
        conn_type = String::from_str("Local");
        if tunnel_proto.as_str().is_empty() {
            tunnel_proto = String::from_str("-");
        }
    }
    let version = if r.version.as_str().is_empty() {
        String::from_str("unknown")
    } else {
        r.version.clone()
    };
    let n = NodeSummary {
        pair_index: j,
        peer_id: r.peer_id,
        hostname: r.hostname.clone(),
        ipv4: string_or_empty(&r.ipv4_addr),
        ipv6: string_or_empty(&r.ipv6_addr),
        latency,
        nat: p.udp_nat_type.clone(),
        hops,
        connections: collect_connection_stats(&p.conns),
        tunnel_proto,
        conn_type,
        rx_bytes: match p.rx_bytes {
            Some(b) => b,
            None => 0,
        },
        tx_bytes: match p.tx_bytes {
            Some(b) => b,
            None => 0,
        },
        version,
        cost: r.cost,
    };
    assert(n@ =~= node_of(pair_views(pairs@), pair_routes(pair_views(pairs@)), j as int));
    n
}


/// Pair `j` has a route to peer `id`.
pub open spec fn routes_to(ps: Seq<PairView>, j: int, id: u32) -> bool {
    ps[j].route matches Some(r) && r.peer_id == id
}

/// Pair `j` has a route, and no earlier pair has a route to the same peer.
pub open spec fn first_for_its_peer(ps: Seq<PairView>, j: int) -> bool {
    &&& ps[j].route is Some
    &&& forall|k: int| 0 <= k < j ==> !routes_to(ps, k, ps[j].route->0.peer_id)
}

/// The nodes of a status report: one per peer that some pair routes to,
/// made from the first such pair, in increasing peer id order.
pub open spec fn status_nodes(ps: Seq<PairView>, nodes: Seq<NodeView>) -> bool {
    &&& forall|t: int, u: int| 0 <= t < u < nodes.len() ==> nodes[t].peer_id < nodes[u].peer_id
    &&& forall|t: int|
        0 <= t < nodes.len() ==> {
            let j = #[trigger] nodes[t].pair_index;
            &&& 0 <= j < ps.len()
            &&& first_for_its_peer(ps, j)
            &&& nodes[t] == node_of(ps, pair_routes(ps), j)
        }
    &&& forall|j: int|
        0 <= j < ps.len() && (#[trigger] ps[j]).route is Some ==> exists|t: int|
            0 <= t < nodes.len() && nodes[t].peer_id == ps[j].route->0.peer_id
}

/// Every node of a status report carries the peer id, host name, cost and
/// version of the route of the pair it was made from; a route without a
/// version is reported as `unknown`.
pub proof fn law_status_node_fields(ps: Seq<PairView>, nodes: Seq<NodeView>, t: int)
    requires
        status_nodes(ps, nodes),
        0 <= t < nodes.len(),
    ensures
        0 <= nodes[t].pair_index < ps.len(),
        ps[nodes[t].pair_index].route is Some,
        ({
            let r = ps[nodes[t].pair_index].route->0;
            &&& nodes[t].peer_id == r.peer_id
            &&& nodes[t].hostname == r.hostname
            &&& nodes[t].cost == r.cost
            &&& nodes[t].ipv4 == text_or_empty(r.ipv4_addr)
            &&& nodes[t].ipv6 == text_or_empty(r.ipv6_addr)
            &&& nodes[t].nat == ps[nodes[t].pair_index].udp_nat_type
            &&& is_local_route(r) ==> nodes[t].conn_type == "Local"@
            &&& r.version.len() > 0 ==> nodes[t].version == r.version
            &&& r.version.len() == 0 ==> nodes[t].version == "unknown"@
        }),
{
    let j = nodes[t].pair_index;
    assert(first_for_its_peer(ps, j));
}

/// The network status: the number of nodes and the nodes.
pub struct NetworkSummary {
    pub total_nodes: usize,
    pub nodes: Vec<NodeSummary>,
}

/// The status report for a list of peer and route pairs: one node per peer
/// that a pair routes to, taken from the first such pair, ordered by peer id.
pub fn network_status_from_info(pairs: &Vec<PeerRoutePairInfo>) -> (r: NetworkSummary)
    ensures
        r.total_nodes == r.nodes.len(),
        status_nodes(pair_views(pairs@), node_views(r.nodes@)),
        forall|t: int|
            0 <= t < r.nodes@.len() ==> {
                let j = #[trigger] r.nodes@[t].pair_index as int;
                &&& 0 <= j < pairs@.len()
                &&& pairs@[j].route matches Some(rt) && {
                    &&& r.nodes@[t].peer_id == rt.peer_id
                    &&& r.nodes@[t].hostname@ == rt.hostname@
                    &&& r.nodes@[t].cost == rt.cost
                    &&& r.nodes@[t].ipv4@ == text_or_empty(opt_view(rt.ipv4_addr))
                    &&& r.nodes@[t].ipv6@ == text_or_empty(opt_view(rt.ipv6_addr))
                    &&& r.nodes@[t].nat@ == pairs@[j].udp_nat_type@
                    &&& is_local_route(rt@) ==> r.nodes@[t].conn_type@ == "Local"@
                    &&& rt.version@.len() > 0 ==> r.nodes@[t].version@ == rt.version@
                    &&& rt.version@.len() == 0 ==> r.nodes@[t].version@ == "unknown"@
                }
            },
{
    let ghost ps = pair_views(pairs@);
    let routes = collect_pair_routes(pairs);
    let mut nodes: Vec<NodeSummary> = Vec::new();
    let mut j: usize = 0;
    while j < pairs.len()
        invariant
            j <= pairs.len(),
            ps == pair_views(pairs@),
            route_views(routes@) == pair_routes(ps),
            forall|t: int, u: int|
                0 <= t < u < nodes@.len() ==> node_views(nodes@)[t].peer_id < node_views(
                    nodes@,
                )[u].peer_id,
            forall|t: int|
                0 <= t < nodes@.len() ==> {
                    let i = #[trigger] node_views(nodes@)[t].pair_index;
                    &&& 0 <= i < j
                    &&& first_for_its_peer(ps, i)
                    &&& node_views(nodes@)[t] == node_of(ps, pair_routes(ps), i)
                },
            forall|k: int|
                0 <= k < j && (#[trigger] ps[k]).route is Some ==> exists|t: int|
                    0 <= t < nodes@.len() && node_views(nodes@)[t].peer_id
                        == ps[k].route->0.peer_id,
        decreases pairs.len() - j,
    {
        assert(ps[j as int] == pairs@[j as int]@);
        let ghost nv = node_views(nodes@);
        let id = match &pairs[j].route {
            Some(r) => r.peer_id,
            None => {
                j = j + 1;
                continue;
            },
        };
        let mut p: usize = 0;
        while p < nodes.len() && nodes[p].peer_id < id
            invariant
                p <= nodes@.len(),
                nv == node_views(nodes@),
                forall|t: int| 0 <= t < p ==> nv[t].peer_id < id,
            decreases nodes@.len() - p,
        {
            p = p + 1;
        }
        if p < nodes.len() && nodes[p].peer_id == id {
            assert(nv[p as int].peer_id == id);
            j = j + 1;
            continue;
        }
        proof {
            assert forall|k: int| 0 <= k < j implies !routes_to(ps, k, id) by {
                if routes_to(ps, k, id) {
                    let t = choose|t: int| 0 <= t < nv.len() && nv[t].peer_id == ps[k].route->0.peer_id;
                    if t < p {
                    } else if t == p {
                    } else {
                        assert(nv[p as int].peer_id < nv[t].peer_id);
                    }
                }
            }
        }
        let n = node_of_pair(pairs, &routes, j);
        let ghost n_view = n@;
        nodes.insert(p, n);
        proof {
            let nv2 = node_views(nodes@);
            assert(nv2 =~= nv.insert(p as int, n_view));
            assert forall|k: int| 0 <= k < j + 1 && (#[trigger] ps[k]).route is Some implies exists|t: int|
                0 <= t < nv2.len() && nv2[t].peer_id == ps[k].route->0.peer_id by {
                if k == j {
                    assert(nv2[p as int].peer_id == id);
                } else {
                    let t = choose|t: int| 0 <= t < nv.len() && nv[t].peer_id == ps[k].route->0.peer_id;
                    if t < p {
                        assert(nv2[t] == nv[t]);
                    } else {
                        assert(nv2[t + 1] == nv[t]);
                    }
                }
            }
        }
        j = j + 1;
    }
    proof {
        assert forall|t: int| 0 <= t < nodes@.len() implies {
            let j = #[trigger] nodes@[t].pair_index as int;
            &&& 0 <= j < pairs@.len()
            &&& pairs@[j].route matches Some(rt) && {
                &&& nodes@[t].peer_id == rt.peer_id
                &&& nodes@[t].hostname@ == rt.hostname@
                &&& nodes@[t].cost == rt.cost
                &&& nodes@[t].ipv4@ == text_or_empty(opt_view(rt.ipv4_addr))
                &&& nodes@[t].ipv6@ == text_or_empty(opt_view(rt.ipv6_addr))
                &&& nodes@[t].nat@ == pairs@[j].udp_nat_type@
                &&& is_local_route(rt@) ==> nodes@[t].conn_type@ == "Local"@
                &&& rt.version@.len() > 0 ==> nodes@[t].version@ == rt.version@
                &&& rt.version@.len() == 0 ==> nodes@[t].version@ == "unknown"@
            }
        } by {
            let nv = node_views(nodes@);
            assert(nv[t] == nodes@[t]@);
            law_status_node_fields(ps, nv, t);
            let j = nodes@[t].pair_index as int;
            assert(ps[j] == pairs@[j]@);
        }
    }
    let total = nodes.len();
    NetworkSummary { total_nodes: total, nodes }
}


/// Where each peer and route pair of a status report comes from.
#[derive(Clone, Copy, Debug, PartialEq, Eq, Structural)]
pub enum PairSource {
    /// The pair at this index of the running info's pairs (`from_listed`
    /// false), or of the pairs built from its peers and routes (true).
    Base { from_listed: bool, index: usize },
    /// A pair made of the peer at this index alone, which no route names.
    PeerOnly(usize),
    /// The synthetic pair of this node's own route, with the IPv6 address of
    /// the route at this index, if any.
    Local(Option<usize>),
}

/// The parts of an instance's running info that decide which pairs a status
/// report shows: the route peer of each of its pairs (`None` for a pair
/// without route), the same for the pairs built from its peers and routes,
/// the ids of its peers and of its routes, and this node's id if known.
pub struct RunningInfoOutline {
    pub pair_route_peers: Vec<Option<u32>>,
    pub listed_route_peers: Vec<Option<u32>>,
    pub peer_ids: Vec<u32>,
    pub route_peer_ids: Vec<u32>,
    pub my_peer_id: Option<u32>,
}

/// The route peers of the base pairs: the running info's own pairs, or
/// the listed ones when it has none.
pub open spec fn base_route_peers(info: RunningInfoOutline) -> Seq<Option<u32>> {
    if info.pair_route_peers@.len() == 0 {
        info.listed_route_peers@
    } else {
        info.pair_route_peers@
    }
}

/// A base pair routes to `id`.
pub open spec fn base_routes_to(base: Seq<Option<u32>>, id: u32) -> bool {
    exists|i: int| 0 <= i < base.len() && base[i] == Some(id)
}

/// The indices, among the first `n` peers, of those that no base pair routes
/// to and that no earlier peer shares an id with.
pub open spec fn peer_only_indices(base: Seq<Option<u32>>, peers: Seq<u32>, n: int) -> Seq<usize>
    decreases n,
{
    if n <= 0 {
        Seq::empty()
    } else {
        let prev = peer_only_indices(base, peers, n - 1);
        let id = peers[n - 1];
        if !base_routes_to(base, id) && !peers.take(n - 1).contains(id) {
            prev.push((n - 1) as usize)
        } else {
            prev
        }
    }
}

/// The first route of this node's id, if any.
pub open spec fn first_route_of(route_ids: Seq<u32>, id: u32) -> Option<usize>
    decreases route_ids.len(),
{
    if route_ids.len() == 0 {
        None
    } else {
        match first_route_of(route_ids.drop_last(), id) {
            Some(i) => Some(i),
            None => if route_ids.last() == id {
                Some((route_ids.len() - 1) as usize)
            } else {
                None
            },
        }
    }
}

/// The pairs a status report shows: every base pair, then a pair for each
/// peer that no base pair routes to (once per id), then this node's own
/// pair when its id is known.
pub open spec fn pair_plan(info: RunningInfoOutline) -> Seq<PairSource> {
    let base = base_route_peers(info);
    let from_listed = info.pair_route_peers@.len() == 0;
    Seq::new(base.len(), |i: int| PairSource::Base { from_listed, index: i as usize }) + peer_only_indices(
        base,
        info.peer_ids@,
        info.peer_ids@.len() as int,
    ).map_values(|k: usize| PairSource::PeerOnly(k)) + match info.my_peer_id {
        Some(id) => seq![PairSource::Local(first_route_of(info.route_peer_ids@, id))],
        None => Seq::empty(),
    }
}

/// `plan` ends with this node's entry, which names the first route whose
/// peer is `my` among `route_ids`, or no route when none is.
pub open spec fn ends_with_local_entry(plan: Seq<PairSource>, route_ids: Seq<u32>, my: u32) -> bool {
    &&& plan.len() > 0
    &&& plan.last() is Local
    &&& match plan.last()->Local_0 {
        Some(i) => {
            &&& i < route_ids.len()
            &&& route_ids[i as int] == my
            &&& forall|k: int| 0 <= k < i ==> route_ids[k] != my
        },
        None => forall|k: int| 0 <= k < route_ids.len() ==> route_ids[k] != my,
    }
}

proof fn lemma_first_route_of(ids: Seq<u32>, id: u32)
    requires
        ids.len() <= usize::MAX,
    ensures
        match first_route_of(ids, id) {
            Some(i) => i < ids.len() && ids[i as int] == id && forall|k: int|
                0 <= k < i ==> ids[k] != id,
            None => forall|k: int| 0 <= k < ids.len() ==> ids[k] != id,
        },
    decreases ids.len(),
{
    if ids.len() > 0 {
        let t = ids.drop_last();
        lemma_first_route_of(t, id);
        match first_route_of(t, id) {
            Some(i) => {
                assert(t[i as int] == ids[i as int]);
                assert forall|k: int| 0 <= k < i implies ids[k] != id by {
                    assert(t[k] == ids[k]);
                }
            },
            None => {
                assert forall|k: int| 0 <= k < t.len() implies ids[k] != id by {
                    assert(t[k] == ids[k]);
                }
                if ids.last() == id {
                    assert(first_route_of(ids, id) == Some((ids.len() - 1) as usize));
                } else {
                    assert(first_route_of(ids, id) is None);
                    assert forall|k: int| 0 <= k < ids.len() implies ids[k] != id by {
                        if k < t.len() {
                            assert(t[k] == ids[k]);
                        }
                    }
                }
            },
        }
    }
}

/// The last entry of a status report's plan stands for this node when its
/// id is known, and carries the first route to this node: an index whose
/// route is this node's and before which no route is, or none when no
/// route is this node's.
pub proof fn law_local_entry(info: RunningInfoOutline)
    ensures
        info.my_peer_id matches Some(my) ==> ends_with_local_entry(pair_plan(info), info.route_peer_ids@, my),
        info.my_peer_id is None ==> forall|t: int|
            0 <= t < pair_plan(info).len() ==> !(#[trigger] pair_plan(info)[t] is Local),
{
    let base = base_route_peers(info);
    let from_listed = info.pair_route_peers@.len() == 0;
    let a = Seq::new(base.len(), |i: int| PairSource::Base { from_listed, index: i as usize });
    let b = peer_only_indices(base, info.peer_ids@, info.peer_ids@.len() as int).map_values(
        |k: usize| PairSource::PeerOnly(k),
    );
    match info.my_peer_id {
        Some(my) => {
            assert(info.route_peer_ids.len() == info.route_peer_ids@.len());
            lemma_first_route_of(info.route_peer_ids@, my);
            assert(pair_plan(info).last() == PairSource::Local(first_route_of(info.route_peer_ids@, my)));
        },
        None => {
            assert(pair_plan(info) =~= a + b);
            assert forall|t: int| 0 <= t < pair_plan(info).len() implies !(#[trigger] pair_plan(info)[t] is Local) by {
                if t < a.len() {
                    assert(pair_plan(info)[t] == a[t]);
                } else {
                    assert(pair_plan(info)[t] == b[t - a.len()]);
                }
            }
        },
    }
}

/// Plans the peer and route pairs of a status report.
pub fn peer_route_pairs_from_info(info: &RunningInfoOutline) -> (plan: Vec<PairSource>)
    ensures
        plan@ == pair_plan(*info),
        info.my_peer_id matches Some(my) ==> ends_with_local_entry(plan@, info.route_peer_ids@, my),
{
    let from_listed = info.pair_route_peers.len() == 0;
    let base: &Vec<Option<u32>> = if from_listed {
        &info.listed_route_peers
    } else {
        &info.pair_route_peers
    };
    let mut plan: Vec<PairSource> = Vec::new();
    let mut i: usize = 0;
    while i < base.len()
        invariant
            i <= base.len(),
            base@ == base_route_peers(*info),
            from_listed == (info.pair_route_peers@.len() == 0),
            plan@ == Seq::new(i as nat, |x: int| PairSource::Base { from_listed, index: x as usize }),
        decreases base.len() - i,
    {
        plan.push(PairSource::Base { from_listed, index: i });
        assert(plan@ =~= Seq::new((i + 1) as nat, |x: int| PairSource::Base { from_listed, index: x as usize }));
        i = i + 1;
    }
    let ghost base_part = plan@;
    let mut k: usize = 0;
    while k < info.peer_ids.len()
        invariant
            k <= info.peer_ids.len(),
            base@ == base_route_peers(*info),
            plan@ == base_part + peer_only_indices(base@, info.peer_ids@, k as int).map_values(
                |x: usize| PairSource::PeerOnly(x),
            ),
        decreases info.peer_ids.len() - k,
    {
        let id = info.peer_ids[k];
        let mut in_base = false;
        let mut b: usize = 0;
        while b < base.len()
            invariant
                b <= base.len(),
                in_base == exists|x: int| 0 <= x < b && base@[x] == Some(id),
            decreases base.len() - b,
        {
            if base[b] == Some(id) {
                in_base = true;
            }
            b = b + 1;
        }
        let mut seen = false;
        let mut e: usize = 0;
        while e < k
            invariant
                e <= k < info.peer_ids.len(),
                seen == exists|x: int| 0 <= x < e && info.peer_ids@[x] == id,
            decreases k - e,
        {
            if info.peer_ids[e] == id {
                seen = true;
            }
            e = e + 1;
        }
        proof {
            if seen {
                let x = choose|x: int| 0 <= x < k && info.peer_ids@[x] == id;
                assert(info.peer_ids@.take(k as int)[x] == id);
            }
            if info.peer_ids@.take(k as int).contains(id) {
                let x = choose|x: int| 0 <= x < k && info.peer_ids@.take(k as int)[x] == id;
                assert(info.peer_ids@[x] == id);
            }
        }
        let ghost before = plan@;
        if !in_base && !seen {
            plan.push(PairSource::PeerOnly(k));
            assert(plan@ =~= base_part + peer_only_indices(base@, info.peer_ids@, k + 1).map_values(
                |x: usize| PairSource::PeerOnly(x),
            ));
        } else {
            assert(plan@ =~= base_part + peer_only_indices(base@, info.peer_ids@, k + 1).map_values(
                |x: usize| PairSource::PeerOnly(x),
            ));
        }
        k = k + 1;
    }
    let ghost middle = plan@;
    match info.my_peer_id {
        Some(my) => {
            let mut found: Option<usize> = None;
            let mut r: usize = 0;
            while r < info.route_peer_ids.len() && found.is_none()
                invariant
                    r <= info.route_peer_ids.len(),
                    found is None ==> first_route_of(info.route_peer_ids@.take(r as int), my) is None,
                    found is Some ==> found == first_route_of(info.route_peer_ids@, my),
                decreases info.route_peer_ids.len() - r,
            {
                let ghost t = info.route_peer_ids@.take(r + 1);
                assert(t.drop_last() =~= info.route_peer_ids@.take(r as int));
                if info.route_peer_ids[r] == my {
                    found = Some(r);
                    proof {
                        lemma_first_route_prefix(info.route_peer_ids@, my, r + 1);
                    }
                }
                r = r + 1;
            }
            proof {
                if found is None {
                    assert(info.route_peer_ids@.take(r as int) =~= info.route_peer_ids@);
                }
            }
            plan.push(PairSource::Local(found));
        },
        None => {},
    }
    assert(plan@ =~= pair_plan(*info));
    proof {
        law_local_entry(*info);
    }
    plan
}

proof fn lemma_first_route_prefix(ids: Seq<u32>, id: u32, n: int)
    requires
        0 <= n <= ids.len(),
        first_route_of(ids.take(n), id) is Some,
    ensures
        first_route_of(ids, id) == first_route_of(ids.take(n), id),
    decreases ids.len() - n,
{
    if n < ids.len() {
        assert(ids.take(n + 1).drop_last() =~= ids.take(n));
        lemma_first_route_prefix(ids, id, n + 1);
    } else {
        assert(ids.take(n) =~= ids);
    }
}

/// The peer id of the synthetic route that stands for this node.
pub const LOCAL_SYNTHETIC_PEER_ID: u32 = 0;

/// This node as the running info describes it: its peer id, hostname,
/// version and virtual IPv4 address rendered as text.
pub struct MyNodeOutline {
    pub peer_id: u32,
    pub hostname: String,
    pub version: String,
    pub virtual_ipv4: Option<String>,
}

/// The first route of `rs` to `peer_id`, if any.
pub open spec fn first_route_for(rs: Seq<RouteView>, peer_id: u32) -> Option<RouteView>
    decreases rs.len(),
{
    if rs.len() == 0 {
        None
    } else if rs[0].peer_id == peer_id {
        Some(rs[0])
    } else {
        first_route_for(rs.drop_first(), peer_id)
    }
}

/// The synthetic route of this node: peer 0 reaching itself at cost 0 and
/// latency 0, instance `local`, with this node's hostname, version and
/// IPv4 address, and the IPv6 address of the first route to this node.
pub open spec fn local_route_view(my: MyNodeOutline, routes: Seq<RouteView>) -> RouteView {
    RouteView {
        peer_id: LOCAL_SYNTHETIC_PEER_ID,
        ipv4_addr: opt_view(my.virtual_ipv4),
        ipv6_addr: match first_route_for(routes, my.peer_id) {
            Some(r) => r.ipv6_addr,
            None => None,
        },
        next_hop_peer_id: LOCAL_SYNTHETIC_PEER_ID,
        cost: 0,
        path_latency_latency_first: 0,
        hostname: my.hostname@,
        inst_id: "local"@,
        version: my.version@,
    }
}

/// Builds the synthetic route of this node from its description and the
/// route table.
pub fn local_route(my: &MyNodeOutline, routes: &Vec<RouteInfo>) -> (r: RouteInfo)
    ensures
        r@ == local_route_view(*my, route_views(routes@)),
{
    let ghost v = route_views(routes@);
    let mut i: usize = 0;
    assert(v.subrange(0, v.len() as int) =~= v);
    while i < routes.len()
        invariant
            i <= routes.len(),
            v == route_views(routes@),
            first_route_for(v, my.peer_id) == first_route_for(
                v.subrange(i as int, v.len() as int),
                my.peer_id,
            ),
        decreases routes.len() - i,
    {
        let ghost rest = v.subrange(i as int, v.len() as int);
        assert(rest[0] == routes@[i as int]@);
        if routes[i].peer_id == my.peer_id {
            let ipv6_addr = copy_opt_string(&routes[i].ipv6_addr);
            let lr = RouteInfo {
                peer_id: LOCAL_SYNTHETIC_PEER_ID,
                ipv4_addr: copy_opt_string(&my.virtual_ipv4),
                ipv6_addr,
                next_hop_peer_id: LOCAL_SYNTHETIC_PEER_ID,
                cost: 0,
                path_latency_latency_first: 0,
                hostname: my.hostname.clone(),
                inst_id: String::from_str("local"),
                version: my.version.clone(),
            };
            return lr;
        }
        assert(rest.drop_first() =~= v.subrange(i + 1, v.len() as int));
        i = i + 1;
    }
    assert(v.subrange(i as int, v.len() as int) =~= Seq::<RouteView>::empty());
    RouteInfo {
        peer_id: LOCAL_SYNTHETIC_PEER_ID,
        ipv4_addr: copy_opt_string(&my.virtual_ipv4),
        ipv6_addr: None,
        next_hop_peer_id: LOCAL_SYNTHETIC_PEER_ID,
        cost: 0,
        path_latency_latency_first: 0,
        hostname: my.hostname.clone(),
        inst_id: String::from_str("local"),
        version: my.version.clone(),
    }
}

} // verus!
