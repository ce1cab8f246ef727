//! EasyTier instance events: how each is rendered as a log line, how the
//! event forwarder reacts to the event channel, and where core logs go.

use vstd::prelude::*;
use crate::text::{chars_equal, chars_of, decimal, push_decimal};

verus! {

/// A peer connection as an event reports it: both peer ids and the debug
/// rendering of its tunnel information.
pub struct PeerConnSummary {
    pub my_peer_id: u32,
    pub peer_id: u32,
    pub tunnel: String,
}

/// `my_peer_id: <id>, dst_peer_id: <id>, tunnel_info: <tunnel>`
pub open spec fn conn_info_text(c: PeerConnSummary) -> Seq<char> {
    "my_peer_id: "@ + decimal(c.my_peer_id as nat) + ", dst_peer_id: "@ + decimal(
        c.peer_id as nat,
    ) + ", tunnel_info: "@ + c.tunnel@
}

/// Renders a peer connection for the log.
pub fn peer_conn_info_to_string(c: &PeerConnSummary) -> (s: String)
    ensures
        s@ == conn_info_text(*c),
{
    let mut s = String::from_str("my_peer_id: ");
    push_decimal(&mut s, c.my_peer_id as u64);
    s.append(", dst_peer_id: ");
    push_decimal(&mut s, c.peer_id as u64);
    s.append(", tunnel_info: ");
    s.append(c.tunnel.as_str());
    s
}

/// An event of an EasyTier instance, with each value it carries already
/// rendered as text (addresses and URLs by `Display`, the others by
/// `Debug`), apart from peer ids.
pub enum CoreEvent {
    PeerAdded(u32),
    PeerRemoved(u32),
    PeerConnAdded(PeerConnSummary),
    PeerConnRemoved(PeerConnSummary),
    ListenerAddFailed { listener: String, msg: String },
    ListenerAcceptFailed { listener: String, msg: String },
    /// A listener was added; `scheme` is its URL's scheme.
    ListenerAdded { scheme: String, listener: String },
    ConnectionAccepted { local: String, remote: String },
    ConnectionError { local: String, remote: String, err: String },
    TunDeviceReady(String),
    TunDeviceError(String),
    Connecting(String),
    ConnectError { dst: String, ip_version: String, err: String },
    VpnPortalStarted(String),
    VpnPortalClientConnected { portal: String, client_addr: String },
    VpnPortalClientDisconnected { portal: String, client_addr: String },
    DhcpIpv4Changed { old: String, new: String },
    DhcpIpv4Conflicted(String),
    PortForwardAdded(String),
    ListenerPortMappingEstablished { local_listener: String, mapped_listener: String, backend: String },
    PublicIpv6Changed { old: String, new: String },
    PublicIpv6RoutesUpdated { added: String, removed: String },
    UdpBroadcastRelayStartResult { capture_backend: String, error: String },
    CredentialChanged,
    ConfigPatched,
    ProxyCidrsUpdated,
}

/// The log line for an event; `None` for the events that are not logged:
/// listeners on the `ring` scheme, configuration patches and proxy CIDR
/// updates.
pub open spec fn event_message(e: CoreEvent) -> Option<Seq<char>> {
    match e {
        CoreEvent::PeerAdded(p) => Some("peer added. peer_id: "@ + decimal(p as nat)),
        CoreEvent::PeerRemoved(p) => Some("peer removed. peer_id: "@ + decimal(p as nat)),
        CoreEvent::PeerConnAdded(c) => Some("peer connection added. conn_info: "@ + conn_info_text(c)),
        CoreEvent::PeerConnRemoved(c) => Some(
            "peer connection removed. conn_info: "@ + conn_info_text(c),
        ),
        CoreEvent::ListenerAddFailed { listener, msg } => Some(
            "listener add failed. listener: "@ + listener@ + ", msg: "@ + msg@,
        ),
        CoreEvent::ListenerAcceptFailed { listener, msg } => Some(
            "listener accept failed. listener: "@ + listener@ + ", msg: "@ + msg@,
        ),
        CoreEvent::ListenerAdded { scheme, listener } => if scheme@ == "ring"@ {
            None
        } else {
            Some("listener added. listener: "@ + listener@)
        },
        CoreEvent::ConnectionAccepted { local, remote } => Some(
            "connection accepted. local: "@ + local@ + ", remote: "@ + remote@,
        ),
        CoreEvent::ConnectionError { local, remote, err } => Some(
            "connection error. local: "@ + local@ + ", remote: "@ + remote@ + ", err: "@ + err@,
        ),
        CoreEvent::TunDeviceReady(dev) => Some("tun device ready. dev: "@ + dev@),
        CoreEvent::TunDeviceError(err) => Some("tun device error. err: "@ + err@),
        CoreEvent::Connecting(dst) => Some("connecting to peer. dst: "@ + dst@),
        CoreEvent::ConnectError { dst, ip_version, err } => Some(
            "connect error. dst: "@ + dst@ + ", ip_version: "@ + ip_version@ + ", err: "@ + err@,
        ),
        CoreEvent::VpnPortalStarted(portal) => Some("vpn portal started. portal: "@ + portal@),
        CoreEvent::VpnPortalClientConnected { portal, client_addr } => Some(
            "vpn portal client connected. portal: "@ + portal@ + ", client_addr: "@
                + client_addr@,
        ),
        CoreEvent::VpnPortalClientDisconnected { portal, client_addr } => Some(
            "vpn portal client disconnected. portal: "@ + portal@ + ", client_addr: "@
                + client_addr@,
        ),
        CoreEvent::DhcpIpv4Changed { old, new } => Some(
            "dhcp ip changed. old: "@ + old@ + ", new: "@ + new@,
        ),
        CoreEvent::DhcpIpv4Conflicted(ip) => Some("dhcp ip conflict. ip: "@ + ip@),
        CoreEvent::PortForwardAdded(cfg) => Some("port forward added. cfg: "@ + cfg@),
        CoreEvent::ListenerPortMappingEstablished { local_listener, mapped_listener, backend } =>
            Some(
            "listener port mapping established. local: "@ + local_listener@ + ", mapped: "@
                + mapped_listener@ + ", backend: "@ + backend@,
        ),
        CoreEvent::PublicIpv6Changed { old, new } => Some(
            "public ipv6 changed. old: "@ + old@ + ", new: "@ + new@,
        ),
        CoreEvent::PublicIpv6RoutesUpdated { added, removed } => Some(
            "public ipv6 routes updated. added: "@ + added@ + ", removed: "@ + removed@,
        ),
        CoreEvent::UdpBroadcastRelayStartResult { capture_backend, error } => Some(
            "udp broadcast relay start result. backend: "@ + capture_backend@ + ", error: "@
                + error@,
        ),
        CoreEvent::CredentialChanged => Some("credential changed"@),
        CoreEvent::ConfigPatched => None,
        CoreEvent::ProxyCidrsUpdated => None,
    }
}

/// `s` is `label_a`, then `a` in full, then `label_b`, then `b` in full: the
/// text right after `label_a` is `a` and the text after `label_b` is `b`.
pub open spec fn address_pair_line(
    s: Seq<char>,
    label_a: Seq<char>,
    a: Seq<char>,
    label_b: Seq<char>,
    b: Seq<char>,
) -> bool {
    let i = label_a.len() as int;
    let j = i + a.len();
    let k = j + label_b.len();
    &&& s.len() == k + b.len()
    &&& s.subrange(0, i) == label_a
    &&& s.subrange(i, j) == a
    &&& s.subrange(j, k) == label_b
    &&& s.subrange(k, s.len() as int) == b
}

proof fn lemma_address_pair_line(label_a: Seq<char>, a: Seq<char>, label_b: Seq<char>, b: Seq<char>)
    ensures
        address_pair_line(label_a + a + label_b + b, label_a, a, label_b, b),
{
    let s = label_a + a + label_b + b;
    let i = label_a.len() as int;
    let j = i + a.len();
    let k = j + label_b.len();
    assert(s.subrange(0, i) =~= label_a);
    assert(s.subrange(i, j) =~= a);
    assert(s.subrange(j, k) =~= label_b);
    assert(s.subrange(k, s.len() as int) =~= b);
}

/// For an event whose line reports two text fields: the text before the
/// first field, the first field, the text between them and the second field.
pub open spec fn two_field_parts(e: CoreEvent) -> Option<(Seq<char>, Seq<char>, Seq<char>, Seq<char>)> {
    match e {
        CoreEvent::ListenerAddFailed { listener, msg } => Some(
            ("listener add failed. listener: "@, listener@, ", msg: "@, msg@),
        ),
        CoreEvent::ListenerAcceptFailed { listener, msg } => Some(
            ("listener accept failed. listener: "@, listener@, ", msg: "@, msg@),
        ),
        CoreEvent::ConnectionAccepted { local, remote } => Some(
            ("connection accepted. local: "@, local@, ", remote: "@, remote@),
        ),
        CoreEvent::VpnPortalClientConnected { portal, client_addr } => Some(
            ("vpn portal client connected. portal: "@, portal@, ", client_addr: "@, client_addr@),
        ),
        CoreEvent::VpnPortalClientDisconnected { portal, client_addr } => Some(
            ("vpn portal client disconnected. portal: "@, portal@, ", client_addr: "@, client_addr@),
        ),
        CoreEvent::DhcpIpv4Changed { old, new } => Some(
            ("dhcp ip changed. old: "@, old@, ", new: "@, new@),
        ),
        CoreEvent::PublicIpv6Changed { old, new } => Some(
            ("public ipv6 changed. old: "@, old@, ", new: "@, new@),
        ),
        CoreEvent::PublicIpv6RoutesUpdated { added, removed } => Some(
            ("public ipv6 routes updated. added: "@, added@, ", removed: "@, removed@),
        ),
        CoreEvent::UdpBroadcastRelayStartResult { capture_backend, error } => Some(
            ("udp broadcast relay start result. backend: "@, capture_backend@, ", error: "@, error@),
        ),
        _ => None,
    }
}

/// The line of an event that reports two text fields gives each field in
/// full right after its label, the first before the second.
pub proof fn law_two_field_lines(e: CoreEvent)
    ensures
        two_field_parts(e) matches Some(q) ==> (event_message(e) matches Some(s)
            && address_pair_line(s, q.0, q.1, q.2, q.3)),
{
    if let Some(q) = two_field_parts(e) {
        lemma_address_pair_line(q.0, q.1, q.2, q.3);
    }
}

/// `s` is `l0`, `a`, `l1`, `b`, `l2`, `c` in turn, each field in full right
/// after its label.
pub open spec fn three_field_line(
    s: Seq<char>,
    l0: Seq<char>,
    a: Seq<char>,
    l1: Seq<char>,
    b: Seq<char>,
    l2: Seq<char>,
    c: Seq<char>,
) -> bool {
    let i = (l0.len() + a.len() + l1.len() + b.len()) as int;
    &&& s.len() >= i
    &&& address_pair_line(s.subrange(0, i), l0, a, l1, b)
    &&& s.subrange(i, i + l2.len()) == l2
    &&& s.subrange(i + l2.len(), s.len() as int) == c
    &&& s.len() == i + l2.len() + c.len()
}

/// For an event whose line reports three text fields: each field with the
/// text before it.
pub open spec fn three_field_parts(e: CoreEvent) -> Option<
    (Seq<char>, Seq<char>, Seq<char>, Seq<char>, Seq<char>, Seq<char>),
> {
    match e {
        CoreEvent::ConnectionError { local, remote, err } => Some(
            ("connection error. local: "@, local@, ", remote: "@, remote@, ", err: "@, err@),
        ),
        CoreEvent::ConnectError { dst, ip_version, err } => Some(
            ("connect error. dst: "@, dst@, ", ip_version: "@, ip_version@, ", err: "@, err@),
        ),
        CoreEvent::ListenerPortMappingEstablished { local_listener, mapped_listener, backend } =>
            Some(
            (
                "listener port mapping established. local: "@,
                local_listener@,
                ", mapped: "@,
                mapped_listener@,
                ", backend: "@,
                backend@,
            ),
        ),
        _ => None,
    }
}

/// The line of an event that reports three text fields gives each field in
/// full right after its label, in order.
pub proof fn law_three_field_lines(e: CoreEvent)
    ensures
        three_field_parts(e) matches Some(q) ==> (event_message(e) matches Some(s)
            && three_field_line(s, q.0, q.1, q.2, q.3, q.4, q.5)),
{
    if let Some(q) = three_field_parts(e) {
        let head = q.0 + q.1 + q.2 + q.3;
        let s = q.0 + q.1 + q.2 + q.3 + q.4 + q.5;
        let i = head.len() as int;
        lemma_address_pair_line(q.0, q.1, q.2, q.3);
        assert(s.subrange(0, i) =~= head);
        assert(s.subrange(i, i + q.4.len()) =~= q.4);
        assert(s.subrange(i + q.4.len(), s.len() as int) =~= q.5);
    }
}

/// The line of an accepted connection names its local address right after
/// `local: ` and its remote address right after `, remote: `, each in full.
pub proof fn law_connection_accepted_line(local: String, remote: String)
    ensures
        event_message(CoreEvent::ConnectionAccepted { local, remote }) matches Some(s)
            && address_pair_line(s, "connection accepted. local: "@, local@, ", remote: "@, remote@),
{
    lemma_address_pair_line("connection accepted. local: "@, local@, ", remote: "@, remote@);
}

/// The line of a connection error names its local address right after
/// `local: ` and its remote address right after `, remote: `, and ends with
/// `, err: ` and the error.
pub proof fn law_connection_error_line(local: String, remote: String, err: String)
    ensures
        event_message(CoreEvent::ConnectionError { local, remote, err }) matches Some(s) && {
            let tail = ", err: "@ + err@;
            &&& address_pair_line(s.subrange(0, s.len() - tail.len()), "connection error. local: "@, local@, ", remote: "@, remote@)
            &&& s.subrange(s.len() - tail.len(), s.len() as int) == tail
        },
{
    let head = "connection error. local: "@ + local@ + ", remote: "@ + remote@;
    let tail = ", err: "@ + err@;
    let s = "connection error. local: "@ + local@ + ", remote: "@ + remote@ + ", err: "@ + err@;
    assert(s =~= head + tail);
    assert(s.subrange(0, s.len() - tail.len()) =~= head);
    assert(s.subrange(s.len() - tail.len(), s.len() as int) =~= tail);
    lemma_address_pair_line("connection error. local: "@, local@, ", remote: "@, remote@);
}

/// `prefix` followed by the parts.
fn concat2(prefix: &str, a: &str) -> (s: String)
    ensures
        s@ == prefix@ + a@,
{
    let mut s = String::from_str(prefix);
    s.append(a);
    s
}

/// `prefix`, `a`, `mid`, `b` in turn.
fn concat4(prefix: &str, a: &str, mid: &str, b: &str) -> (s: String)
    ensures
        s@ == prefix@ + a@ + mid@ + b@,
{
    let mut s = String::from_str(prefix);
    s.append(a);
    s.append(mid);
    s.append(b);
    s
}

/// `prefix`, `a`, `mid1`, `b`, `mid2`, `c` in turn.
fn concat6(prefix: &str, a: &str, mid1: &str, b: &str, mid2: &str, c: &str) -> (s: String)
    ensures
        s@ == prefix@ + a@ + mid1@ + b@ + mid2@ + c@,
{
    let mut s = concat4(prefix, a, mid1, b);
    s.append(mid2);
    s.append(c);
    s
}

/// The log line for an event, or `None` for one that is not logged.
pub fn event_to_message(e: &CoreEvent) -> (m: Option<String>)
    ensures
        match m {
            Some(s) => event_message(*e) == Some(s@),
            None => event_message(*e) is None,
        },
        e matches CoreEvent::ConnectionAccepted { local, remote } ==> (m matches Some(s)
            && address_pair_line(s@, "connection accepted. local: "@, local@, ", remote: "@, remote@)),
        three_field_parts(*e) matches Some(q) ==> (m matches Some(s) && three_field_line(
            s@,
            q.0,
            q.1,
            q.2,
            q.3,
            q.4,
            q.5,
        )),
        two_field_parts(*e) matches Some(q) ==> (m matches Some(s) && address_pair_line(
            s@,
            q.0,
            q.1,
            q.2,
            q.3,
        )),
        e matches CoreEvent::ConnectionError { local, remote, err } ==> (m matches Some(s)
            && address_pair_line(s@.subrange(0, s@.len() - (", err: "@ + err@).len()), "connection error. local: "@, local@, ", remote: "@, remote@)
            && s@.subrange(s@.len() - (", err: "@ + err@).len(), s@.len() as int) == ", err: "@ + err@),
{
    proof {
        law_two_field_lines(*e);
        law_three_field_lines(*e);
        match e {
            CoreEvent::ConnectionAccepted { local, remote } => {
                law_connection_accepted_line(*local, *remote);
            },
            CoreEvent::ConnectionError { local, remote, err } => {
                law_connection_error_line(*local, *remote, *err);
            },
            _ => {},
        }
    }
    match e {
        CoreEvent::PeerAdded(p) => {
            let mut s = String::from_str("peer added. peer_id: ");
            push_decimal(&mut s, *p as u64);
            Some(s)
        },
        CoreEvent::PeerRemoved(p) => {
            let mut s = String::from_str("peer removed. peer_id: ");
            push_decimal(&mut s, *p as u64);
            Some(s)
        },
        CoreEvent::PeerConnAdded(c) => {
            let info = peer_conn_info_to_string(c);
            Some(concat2("peer connection added. conn_info: ", info.as_str()))
        },
        CoreEvent::PeerConnRemoved(c) => {
            let info = peer_conn_info_to_string(c);
            Some(concat2("peer connection removed. conn_info: ", info.as_str()))
        },
        CoreEvent::ListenerAddFailed { listener, msg } => Some(
            concat4("listener add failed. listener: ", listener.as_str(), ", msg: ", msg.as_str()),
        ),
        CoreEvent::ListenerAcceptFailed { listener, msg } => Some(
            concat4(
                "listener accept failed. listener: ",
                listener.as_str(),
                ", msg: ",
                msg.as_str(),
            ),
        ),
        CoreEvent::ListenerAdded { scheme, listener } => {
            let ring = vec!['r', 'i', 'n', 'g'];
            proof {
                reveal_strlit("ring");
            }
            assert(ring@ == "ring"@);
            let sc = chars_of(scheme.as_str());
            if chars_equal(&sc, &ring) {
                None
            } else {
                Some(concat2("listener added. listener: ", listener.as_str()))
            }
        },
        CoreEvent::ConnectionAccepted { local, remote } => Some(
            concat4("connection accepted. local: ", local.as_str(), ", remote: ", remote.as_str()),
        ),
        CoreEvent::ConnectionError { local, remote, err } => Some(
            concat6(
                "connection error. local: ",
                local.as_str(),
                ", remote: ",
                remote.as_str(),
                ", err: ",
                err.as_str(),
            ),
        ),
        CoreEvent::TunDeviceReady(dev) => Some(concat2("tun device ready. dev: ", dev.as_str())),
        CoreEvent::TunDeviceError(err) => Some(concat2("tun device error. err: ", err.as_str())),
        CoreEvent::Connecting(dst) => Some(concat2("connecting to peer. dst: ", dst.as_str())),
        CoreEvent::ConnectError { dst, ip_version, err } => Some(
            concat6(
                "connect error. dst: ",
                dst.as_str(),
                ", ip_version: ",
                ip_version.as_str(),
                ", err: ",
                err.as_str(),
            ),
        ),
        CoreEvent::VpnPortalStarted(portal) => Some(
            concat2("vpn portal started. portal: ", portal.as_str()),
        ),
        CoreEvent::VpnPortalClientConnected { portal, client_addr } => Some(
            concat4(
                "vpn portal client connected. portal: ",
                portal.as_str(),
                ", client_addr: ",
                client_addr.as_str(),
            ),
        ),
        CoreEvent::VpnPortalClientDisconnected { portal, client_addr } => Some(
            concat4(
                "vpn portal client disconnected. portal: ",
                portal.as_str(),
                ", client_addr: ",
                client_addr.as_str(),
            ),
        ),
        CoreEvent::DhcpIpv4Changed { old, new } => Some(
            concat4("dhcp ip changed. old: ", old.as_str(), ", new: ", new.as_str()),
        ),
        CoreEvent::DhcpIpv4Conflicted(ip) => Some(concat2("dhcp ip conflict. ip: ", ip.as_str())),
        CoreEvent::PortForwardAdded(cfg) => Some(concat2("port forward added. cfg: ", cfg.as_str())),
        CoreEvent::ListenerPortMappingEstablished { local_listener, mapped_listener, backend } =>
            Some(
            concat6(
                "listener port mapping established. local: ",
                local_listener.as_str(),
                ", mapped: ",
                mapped_listener.as_str(),
                ", backend: ",
                backend.as_str(),
            ),
        ),
        CoreEvent::PublicIpv6Changed { old, new } => Some(
            concat4("public ipv6 changed. old: ", old.as_str(), ", new: ", new.as_str()),
        ),
        CoreEvent::PublicIpv6RoutesUpdated { added, removed } => Some(
            concat4(
                "public ipv6 routes updated. added: ",
                added.as_str(),
                ", removed: ",
                removed.as_str(),
            ),
        ),
        CoreEvent::UdpBroadcastRelayStartResult { capture_backend, error } => Some(
            concat4(
                "udp broadcast relay start result. backend: ",
                capture_backend.as_str(),
                ", error: ",
                error.as_str(),
            ),
        ),
        CoreEvent::CredentialChanged => Some(String::from_str("credential changed")),
        CoreEvent::ConfigPatched => None,
        CoreEvent::ProxyCidrsUpdated => None,
    }
}


/// What the event forwarder receives from an instance's event channel.
pub enum ForwardEvent {
    Event(CoreEvent),
    /// The channel is closed.
    Closed,
    /// The receiver fell behind and this many events were dropped.
    Lagged(u64),
}

/// What the event forwarder does on one receive: the core log line to emit,
/// if any, and whether it stops.
pub struct ForwardAction {
    pub log: Option<String>,
    pub stop: bool,
}

/// The log line for a dropped-events notice.
pub open spec fn lagged_message(n: u64) -> Seq<char> {
    "event lagged, dropped "@ + decimal(n as nat) + " events"@
}

/// The log line when the event channel closes.
pub open spec fn closed_message() -> Seq<char> {
    "event channel closed; stop handling events"@
}

/// Decides the forwarder's reaction to one receive: an event is logged if
/// it has a log line, a lag is reported, and a closed channel is reported
/// and ends the forwarding.
pub fn forward_event_step(ev: &ForwardEvent) -> (a: ForwardAction)
    ensures
        match ev {
            ForwardEvent::Event(e) => !a.stop && match a.log {
                Some(s) => event_message(*e) == Some(s@),
                None => event_message(*e) is None,
            },
            ForwardEvent::Closed => a.stop && (a.log matches Some(s) && s@ == closed_message()),
            ForwardEvent::Lagged(n) => !a.stop && (a.log matches Some(s) && s@ == lagged_message(
                *n,
            )),
        },
{
    match ev {
        ForwardEvent::Event(e) => ForwardAction { log: event_to_message(e), stop: false },
        ForwardEvent::Closed => ForwardAction {
            log: Some(String::from_str("event channel closed; stop handling events")),
            stop: true,
        },
        ForwardEvent::Lagged(n) => {
            let mut s = String::from_str("event lagged, dropped ");
            push_decimal(&mut s, *n);
            s.append(" events");
            ForwardAction { log: Some(s), stop: false }
        },
    }
}

/// A core log line of an instance.
pub struct CoreLogEventC {
    pub instance_id: String,
    pub message: String,
}

/// Where core logs go: the sink of the latest subscriber, if any.
pub struct CoreLogHub<S> {
    sink: Option<S>,
}

impl<S> CoreLogHub<S> {
    /// The current subscriber's sink.
    pub closed spec fn view(&self) -> Option<S> {
        self.sink
    }

    /// A hub with no subscriber.
    pub fn new() -> (h: CoreLogHub<S>)
        ensures
            h.view() is None,
    {
        CoreLogHub { sink: None }
    }
}

/// Subscribes `sink` to the core logs; it replaces any earlier subscriber.
pub fn subscribe_core_logs<S>(hub: &mut CoreLogHub<S>, sink: S)
    ensures
        final(hub).view() == Some(sink),
{
    hub.sink = Some(sink);
}

/// The core log line to deliver for `message` of instance `instance_id`,
/// with the sink to deliver it to; nothing when no one subscribed.
pub fn emit_core_log<'a, S>(hub: &'a CoreLogHub<S>, instance_id: &str, message: &str) -> (r: Option<
    (&'a S, CoreLogEventC),
>)
    ensures
        r is Some <==> hub.view() is Some,
        r matches Some((sink, ev)) ==> hub.view() == Some(*sink) && ev.instance_id@
            == instance_id@ && ev.message@ == message@,
{
    match &hub.sink {
        Some(sink) => Some(
            (
                sink,
                CoreLogEventC {
                    instance_id: String::from_str(instance_id),
                    message: String::from_str(message),
                },
            ),
        ),
        None => None,
    }
}

} // verus!
