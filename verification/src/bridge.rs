//! Roles and schemes of a bridge between the router and a traversed socket,
//! and the decisions of the supervisor that watches over it.

use crate::address::{OverlayAddress, SocketAddress};
use crate::protocol::Header;
use crate::session::{PeerEntry, SessionEntry};
use crate::utils::timeout::Nanos;
use crate::text::{decimal, decimal_digits, find, position, same};
use vstd::prelude::*;

verus! {

/// Who opens the connection between the daemon and its router.
#[derive(Debug, Clone, Copy, PartialEq, Eq, Structural)]
pub enum ConnectionMode {
    /// Either way will do.
    Any,
    /// The daemon dials one of the router's listen addresses.
    ToEndpoint,
    /// The router dials a socket that the daemon opens for it.
    AsEndpoint,
}

impl ConnectionMode {
    pub open spec fn spec_to_endpoint(self) -> bool {
        self is Any || self is ToEndpoint
    }

    pub open spec fn spec_as_endpoint(self) -> bool {
        self is Any || self is AsEndpoint
    }

    /// Whether the daemon may dial the router.
    #[verifier::when_used_as_spec(spec_to_endpoint)]
    pub fn to_endpoint(self) -> (r: bool)
        ensures
            r == (self is Any || self is ToEndpoint),
    {
        match self {
            ConnectionMode::Any | ConnectionMode::ToEndpoint => true,
            ConnectionMode::AsEndpoint => false,
        }
    }

    /// Whether the router may dial the daemon.
    #[verifier::when_used_as_spec(spec_as_endpoint)]
    pub fn as_endpoint(self) -> (r: bool)
        ensures
            r == (self is Any || self is AsEndpoint),
    {
        match self {
            ConnectionMode::Any | ConnectionMode::AsEndpoint => true,
            ConnectionMode::ToEndpoint => false,
        }
    }
}

/// The releases of the router that differ in what they offer.
#[derive(Debug, Clone, Copy, PartialEq, Eq, Structural)]
pub enum RouterVersion {
    /// Up to 0.4.4.
    UpTo044,
    /// From 0.4.5 to 0.4.7.
    From045To047,
    /// 0.5.0 and later.
    From050,
}

/// A scheme by which two routers peer.
#[derive(Debug, Clone, Copy, PartialEq, Eq, Structural)]
pub enum PeeringProtocol {
    Tcp,
    Tls,
    Quic,
}

impl PeeringProtocol {
    /// The scheme as URIs write it.
    pub open spec fn spec_scheme(self) -> Seq<char> {
        match self {
            PeeringProtocol::Tcp => seq!['t', 'c', 'p'],
            PeeringProtocol::Tls => seq!['t', 'l', 's'],
            PeeringProtocol::Quic => seq!['q', 'u', 'i', 'c'],
        }
    }

    /// The scheme that `text` names, if it names one.
    pub open spec fn spec_from_scheme(text: Seq<char>) -> Option<PeeringProtocol> {
        if text == PeeringProtocol::Tcp.spec_scheme() {
            Some(PeeringProtocol::Tcp)
        } else if text == PeeringProtocol::Tls.spec_scheme() {
            Some(PeeringProtocol::Tls)
        } else if text == PeeringProtocol::Quic.spec_scheme() {
            Some(PeeringProtocol::Quic)
        } else {
            None
        }
    }

    /// Whether a router of the given release can peer by this scheme: QUIC
    /// came with 0.5.0.
    pub fn is_supported_by_router(&self, version: &RouterVersion) -> (r: bool)
        ensures
            r == (*self is Quic ==> *version is From050),
    {
        match self {
            PeeringProtocol::Tcp | PeeringProtocol::Tls => true,
            PeeringProtocol::Quic => match version {
                RouterVersion::From050 => true,
                _ => false,
            },
        }
    }

    /// The scheme as URIs write it: `tcp`, `tls` or `quic`.
    pub fn scheme(&self) -> (r: &'static str)
        ensures
            r@ == self.spec_scheme(),
    {
        proof {
            reveal_strlit("tcp");
            reveal_strlit("tls");
            reveal_strlit("quic");
        }
        let r = match self {
            PeeringProtocol::Tcp => "tcp",
            PeeringProtocol::Tls => "tls",
            PeeringProtocol::Quic => "quic",
        };
        assert(r@ =~= self.spec_scheme());
        r
    }

    /// Reads a scheme as URIs write it.
    pub fn from_scheme(text: &str) -> (r: Option<PeeringProtocol>)
        ensures
            r == PeeringProtocol::spec_from_scheme(text@),
    {
        if same(text, PeeringProtocol::Tcp.scheme()) {
            Some(PeeringProtocol::Tcp)
        } else if same(text, PeeringProtocol::Tls.scheme()) {
            Some(PeeringProtocol::Tls)
        } else if same(text, PeeringProtocol::Quic.scheme()) {
            Some(PeeringProtocol::Quic)
        } else {
            None
        }
    }
}

/// Whether `list` holds `protocol`.
pub fn lists(list: &Vec<PeeringProtocol>, protocol: PeeringProtocol) -> (r: bool)
    ensures
        r == list@.contains(protocol),
{
    let mut i: usize = 0;
    while i < list.len()
        invariant
            i <= list@.len(),
            forall|j: int| 0 <= j < i ==> list@[j] != protocol,
        decreases list@.len() - i,
    {
        if list[i] == protocol {
            return true;
        }
        i = i + 1;
    }
    false
}

/// The role that the side `me` takes in a peering by `protocol` with the side
/// `peer`, if the two can peer by it. Both must offer the scheme. TCP needs
/// no role. For the other schemes the side whose router listens dials it;
/// where both routers listen, the side with the lower overlay address does,
/// and two sides of one address cannot peer; where neither listens, nothing
/// can be done.
pub open spec fn spec_protocol_supported(
    me: &Header,
    peer: &Header,
    protocol: PeeringProtocol,
    my_address: OverlayAddress,
    peer_address: OverlayAddress,
) -> Option<(PeeringProtocol, ConnectionMode)> {
    let mine = me.server_available@.contains(protocol);
    let theirs = peer.server_available@.contains(protocol);
    if !me.supported_protocols@.contains(protocol) || !peer.supported_protocols@.contains(
        protocol,
    ) {
        None
    } else if protocol is Tcp {
        Some((protocol, ConnectionMode::Any))
    } else if mine && theirs {
        if my_address < peer_address {
            Some((protocol, ConnectionMode::ToEndpoint))
        } else if peer_address < my_address {
            Some((protocol, ConnectionMode::AsEndpoint))
        } else {
            None
        }
    } else if mine {
        Some((protocol, ConnectionMode::ToEndpoint))
    } else if theirs {
        Some((protocol, ConnectionMode::AsEndpoint))
    } else {
        None
    }
}

/// The first scheme, in the order TCP, QUIC, TLS, by which the two sides can
/// peer, with the role of the side `me`.
pub open spec fn spec_peering_direction(
    me: &Header,
    peer: &Header,
    my_address: OverlayAddress,
    peer_address: OverlayAddress,
) -> Option<(PeeringProtocol, ConnectionMode)> {
    let tcp = spec_protocol_supported(me, peer, PeeringProtocol::Tcp, my_address, peer_address);
    let quic = spec_protocol_supported(me, peer, PeeringProtocol::Quic, my_address, peer_address);
    let tls = spec_protocol_supported(me, peer, PeeringProtocol::Tls, my_address, peer_address);
    if tcp is Some {
        tcp
    } else if quic is Some {
        quic
    } else {
        tls
    }
}

/// The schemes by which the two sides can peer, in the order TCP, QUIC, TLS,
/// each with the role of the side `me`.
pub open spec fn spec_compatible_protocols(
    me: &Header,
    peer: &Header,
    my_address: OverlayAddress,
    peer_address: OverlayAddress,
) -> Seq<(PeeringProtocol, ConnectionMode)> {
    let tcp = spec_protocol_supported(me, peer, PeeringProtocol::Tcp, my_address, peer_address);
    let quic = spec_protocol_supported(me, peer, PeeringProtocol::Quic, my_address, peer_address);
    let tls = spec_protocol_supported(me, peer, PeeringProtocol::Tls, my_address, peer_address);
    let first = if tcp is Some {
        seq![tcp->0]
    } else {
        seq![]
    };
    let second = if quic is Some {
        first.push(quic->0)
    } else {
        first
    };
    if tls is Some {
        second.push(tls->0)
    } else {
        second
    }
}

/// Lists the schemes by which the two sides can peer, the one to try first
/// in front.
pub fn compatible_protocols(
    self_header: &Header,
    remote_header: &Header,
    self_address: OverlayAddress,
    remote_address: OverlayAddress,
) -> (r: Vec<(PeeringProtocol, ConnectionMode)>)
    ensures
        r@ == spec_compatible_protocols(self_header, remote_header, self_address, remote_address),
        r@.len() > 0 ==> spec_peering_direction(
            self_header,
            remote_header,
            self_address,
            remote_address,
        ) == Some(r@[0]),
        r@.len() == 0 ==> spec_peering_direction(
            self_header,
            remote_header,
            self_address,
            remote_address,
        ) is None,
{
    let mut found: Vec<(PeeringProtocol, ConnectionMode)> = Vec::new();
    match protocol_supported(
        self_header,
        remote_header,
        PeeringProtocol::Tcp,
        self_address,
        remote_address,
    ) {
        Some(way) => found.push(way),
        None => {},
    }
    match protocol_supported(
        self_header,
        remote_header,
        PeeringProtocol::Quic,
        self_address,
        remote_address,
    ) {
        Some(way) => found.push(way),
        None => {},
    }
    match protocol_supported(
        self_header,
        remote_header,
        PeeringProtocol::Tls,
        self_address,
        remote_address,
    ) {
        Some(way) => found.push(way),
        None => {},
    }
    found
}

/// Chooses the scheme and the role for a peering: the first scheme in the
/// order TCP, QUIC, TLS that both sides can use.
pub fn peering_direction(
    self_header: &Header,
    remote_header: &Header,
    self_address: OverlayAddress,
    remote_address: OverlayAddress,
) -> (r: Option<(PeeringProtocol, ConnectionMode)>)
    ensures
        r == spec_peering_direction(self_header, remote_header, self_address, remote_address),
{
    let tcp = protocol_supported(
        self_header,
        remote_header,
        PeeringProtocol::Tcp,
        self_address,
        remote_address,
    );
    if tcp.is_some() {
        return tcp;
    }
    let quic = protocol_supported(
        self_header,
        remote_header,
        PeeringProtocol::Quic,
        self_address,
        remote_address,
    );
    if quic.is_some() {
        return quic;
    }
    protocol_supported(
        self_header,
        remote_header,
        PeeringProtocol::Tls,
        self_address,
        remote_address,
    )
}

/// Says whether the two sides can peer by `prot`, and in which role this side does.
pub fn protocol_supported(
    self_header: &Header,
    remote_header: &Header,
    prot: PeeringProtocol,
    self_address: OverlayAddress,
    remote_address: OverlayAddress,
) -> (r: Option<(PeeringProtocol, ConnectionMode)>)
    ensures
        r == spec_protocol_supported(
            self_header,
            remote_header,
            prot,
            self_address,
            remote_address,
        ),
{
    if !lists(&self_header.supported_protocols, prot) || !lists(
        &remote_header.supported_protocols,
        prot,
    ) {
        return None;
    }
    if prot == PeeringProtocol::Tcp {
        return Some((prot, ConnectionMode::Any));
    }
    let self_serv = lists(&self_header.server_available, prot);
    let remote_serv = lists(&remote_header.server_available, prot);
    if self_serv && remote_serv {
        if self_address < remote_address {
            Some((prot, ConnectionMode::ToEndpoint))
        } else if remote_address < self_address {
            Some((prot, ConnectionMode::AsEndpoint))
        } else {
            None
        }
    } else if self_serv {
        Some((prot, ConnectionMode::ToEndpoint))
    } else if remote_serv {
        Some((prot, ConnectionMode::AsEndpoint))
    } else {
        None
    }
}

/// The role opposite to `mode`.
pub open spec fn opposite(mode: ConnectionMode) -> ConnectionMode {
    match mode {
        ConnectionMode::Any => ConnectionMode::Any,
        ConnectionMode::ToEndpoint => ConnectionMode::AsEndpoint,
        ConnectionMode::AsEndpoint => ConnectionMode::ToEndpoint,
    }
}

/// Both sides of a handshake come to the same scheme and to opposite roles:
/// where one dials its router, the other has its router dial.
pub proof fn lemma_roles_agree(a: &Header, b: &Header, a_address: OverlayAddress, b_address: OverlayAddress)
    ensures
        match spec_peering_direction(a, b, a_address, b_address) {
            Some((protocol, mode)) => spec_peering_direction(b, a, b_address, a_address) == Some(
                (protocol, opposite(mode)),
            ),
            None => spec_peering_direction(b, a, b_address, a_address) is None,
        },
{
}

/// What the bridge is made with.
#[derive(Debug, Clone, Copy)]
pub struct BridgeParams {
    pub protocol: PeeringProtocol,
    pub connection_mode: ConnectionMode,
    pub peer_addr: SocketAddress,
    pub peer_conv: u32,
    pub yggdrasil_dpi: bool,
    pub monitor_address: OverlayAddress,
}

/// The loopback address of the family of `local`, as a URI writes it.
pub open spec fn loopback(local: SocketAddress) -> Seq<char> {
    if local is V4 {
        seq!['1', '2', '7', '.', '0', '.', '0', '.', '1']
    } else {
        seq!['[', ':', ':', '1', ']']
    }
}

/// The URI under which the router knows the bridge's socket.
pub open spec fn spec_peer_uri(protocol: PeeringProtocol, local: SocketAddress) -> Seq<char> {
    protocol.spec_scheme() + seq![':', '/', '/'] + loopback(local) + seq![':'] + decimal_digits(
        local.spec_port() as nat,
    )
}

/// Writes the URI of a peer on this machine: the scheme, the loopback address
/// of the socket's family, and the socket's port.
pub fn peer_uri(protocol: PeeringProtocol, local_addr: &SocketAddress) -> (r: String)
    ensures
        r@ == spec_peer_uri(protocol, *local_addr),
{
    proof {
        reveal_strlit("://");
        reveal_strlit("127.0.0.1");
        reveal_strlit("[::1]");
        reveal_strlit(":");
    }
    let mut uri = String::from_str(protocol.scheme());
    uri.append("://");
    assert("://"@ =~= seq![':', '/', '/']);
    if local_addr.is_ipv4() {
        uri.append("127.0.0.1");
        assert("127.0.0.1"@ =~= loopback(*local_addr));
    } else {
        uri.append("[::1]");
        assert("[::1]"@ =~= loopback(*local_addr));
    }
    uri.append(":");
    assert(":"@ =~= seq![':']);
    let port = decimal(local_addr.port() as u64);
    uri.append(port.as_str());
    uri
}

/// The address behind the scheme of a listen URI of the router, without what
/// follows a question mark, if the URI has a scheme and it is `protocol`.
pub open spec fn spec_listen_address(url: Seq<char>, protocol: PeeringProtocol) -> Option<
    Seq<char>,
> {
    match position(url, seq![':', '/', '/']) {
        None => None,
        Some(at) => {
            let link = url.subrange(at + 3, url.len() as int);
            if PeeringProtocol::spec_from_scheme(url.subrange(0, at)) != Some(protocol) {
                None
            } else {
                match position(link, seq!['?']) {
                    Some(q) => Some(link.subrange(0, q)),
                    None => Some(link),
                }
            }
        },
    }
}

/// Reads a listen URI of the router. Gives the address to dial, the part
/// between `://` and a question mark, when the URI has a scheme and the scheme
/// is `protocol`.
pub fn listen_address(url: &str, protocol: PeeringProtocol) -> (r: Option<String>)
    ensures
        match r {
            Some(address) => spec_listen_address(url@, protocol) == Some(address@),
            None => spec_listen_address(url@, protocol) is None,
        },
{
    proof {
        reveal_strlit("://");
        reveal_strlit("?");
    }
    assert("://"@ =~= seq![':', '/', '/']);
    assert("?"@ =~= seq!['?']);
    let at = match find(url, "://") {
        Some(at) => at,
        None => {
            return None;
        },
    };
    let n: usize = url.unicode_len();
    let scheme = url.substring_char(0, at);
    let link = url.substring_char(at + 3, n);
    if PeeringProtocol::from_scheme(scheme) != Some(protocol) {
        return None;
    }
    match find(link, "?") {
        Some(q) => Some(String::from_str(link.substring_char(0, q))),
        None => Some(String::from_str(link)),
    }
}

/// The addresses of the router's listen URIs of the scheme `protocol`, from
/// place `from` on, in their order.
pub open spec fn spec_dial_targets(listen: Seq<String>, protocol: PeeringProtocol, upto: int) -> Seq<
    Seq<char>,
>
    decreases upto,
{
    if upto <= 0 {
        seq![]
    } else {
        let before = spec_dial_targets(listen, protocol, upto - 1);
        match spec_listen_address(listen[upto - 1]@, protocol) {
            Some(address) => before.push(address),
            None => before,
        }
    }
}

/// Lists the addresses at which the daemon may dial its router for a
/// peering by `protocol`: those of the router's listen URIs of that scheme,
/// in the order of the configuration.
pub fn dial_targets(listen: &Vec<String>, protocol: PeeringProtocol) -> (r: Vec<String>)
    ensures
        r@.len() == spec_dial_targets(listen@, protocol, listen@.len() as int).len(),
        forall|i: int|
            0 <= i < r@.len() ==> (#[trigger] r@[i])@ == spec_dial_targets(
                listen@,
                protocol,
                listen@.len() as int,
            )[i],
{
    let mut targets: Vec<String> = Vec::new();
    let mut i: usize = 0;
    while i < listen.len()
        invariant
            i <= listen@.len(),
            targets@.len() == spec_dial_targets(listen@, protocol, i as int).len(),
            forall|j: int|
                0 <= j < targets@.len() ==> (#[trigger] targets@[j])@ == spec_dial_targets(
                    listen@,
                    protocol,
                    i as int,
                )[j],
        decreases listen@.len() - i,
    {
        match listen_address(listen[i].as_str(), protocol) {
            Some(address) => {
                targets.push(address);
            },
            None => {},
        }
        i = i + 1;
    }
    targets
}

/// Appends the password of a peering to the URI of a peer, where there is
/// one and the connection may be opened either way.
pub fn with_password(uri: String, mode: ConnectionMode, password: &Option<String>) -> (r: String)
    ensures
        r@ == match *password {
            Some(p) if mode is Any => uri@ + seq!['?', 'p', 'a', 's', 's', 'w', 'o', 'r', 'd', '=']
                + p@,
            _ => uri@,
        },
{
    proof {
        reveal_strlit("?password=");
    }
    assert("?password="@ =~= seq!['?', 'p', 'a', 's', 's', 'w', 'o', 'r', 'd', '=']);
    match password {
        Some(p) => {
            if mode == ConnectionMode::Any {
                let mut r = uri;
                r.append("?password=");
                r.append(p.as_str());
                r
            } else {
                uri
            }
        },
        None => uri,
    }
}

/// What the supervisor finds when it looks at the router's peers.
#[derive(Debug, Clone, Copy, PartialEq, Eq, Structural)]
pub enum PeerCheck {
    /// Nothing to object to.
    Healthy,
    /// The bridge's socket is no peer of the router, or its peering is down.
    NotConnected,
    /// The router peers through the bridge with the node at another address.
    WrongNode(OverlayAddress),
}

/// The peer came by the URI `uri`.
pub open spec fn came_by(peer: PeerEntry, uri: Seq<char>) -> bool {
    peer.remote is Some && peer.remote->0@ == uri
}

/// The peer came by `uri` and is a node at another address than `expected`.
pub open spec fn misplaced(peer: PeerEntry, uri: Seq<char>, expected: OverlayAddress) -> bool {
    came_by(peer, uri) && peer.address is Some && peer.address->0 != expected
}

/// What a look at the peers finds. Once the time of grace is over, a peer
/// that came by the bridge's URI must be up. At any time, no peer that came by
/// it may be a node at another address than the one that the bridge was made
/// for: the first such peer is reported.
pub open spec fn spec_check_peers(
    peers: Seq<PeerEntry>,
    uri: Seq<char>,
    expected: OverlayAddress,
    grace_over: bool,
) -> PeerCheck {
    if grace_over && !exists|i: int|
        0 <= i < peers.len() && (#[trigger] peers[i]).up && came_by(peers[i], uri) {
        PeerCheck::NotConnected
    } else {
        match first_misplaced(peers, uri, expected) {
            Some(address) => PeerCheck::WrongNode(address),
            None => PeerCheck::Healthy,
        }
    }
}

/// The address of the first peer of the list that came by `uri` and is a
/// node at another address than `expected`.
pub open spec fn first_misplaced(
    peers: Seq<PeerEntry>,
    uri: Seq<char>,
    expected: OverlayAddress,
) -> Option<OverlayAddress>
    decreases peers.len(),
{
    if peers.len() == 0 {
        None
    } else if misplaced(peers[0], uri, expected) {
        peers[0].address
    } else {
        first_misplaced(peers.drop_first(), uri, expected)
    }
}

fn peer_came_by(peer: &PeerEntry, uri: &str) -> (r: bool)
    ensures
        r == came_by(*peer, uri@),
{
    match &peer.remote {
        Some(remote) => same(remote.as_str(), uri),
        None => false,
    }
}

/// Looks at the router's peers for the bridge whose socket has the URI `uri`.
pub fn check_peers(
    peers: &Vec<PeerEntry>,
    uri: &str,
    expected: OverlayAddress,
    grace_over: bool,
) -> (r: PeerCheck)
    ensures
        r == spec_check_peers(peers@, uri@, expected, grace_over),
{
    if grace_over {
        let mut connected = false;
        let mut i: usize = 0;
        while i < peers.len() && !connected
            invariant
                i <= peers@.len(),
                !connected ==> forall|j: int|
                    0 <= j < i ==> !((#[trigger] peers@[j]).up && came_by(peers@[j], uri@)),
                connected ==> exists|j: int|
                    0 <= j < peers@.len() && (#[trigger] peers@[j]).up && came_by(peers@[j], uri@),
            decreases peers@.len() - i,
        {
            if peers[i].up && peer_came_by(&peers[i], uri) {
                connected = true;
            }
            i = i + 1;
        }
        if !connected {
            return PeerCheck::NotConnected;
        }
    }
    let mut i: usize = 0;
    assert(peers@.skip(0) =~= peers@);
    while i < peers.len()
        invariant
            i <= peers@.len(),
            grace_over ==> exists|j: int|
                0 <= j < peers@.len() && (#[trigger] peers@[j]).up && came_by(peers@[j], uri@),
            first_misplaced(peers@, uri@, expected) == first_misplaced(
                peers@.skip(i as int),
                uri@,
                expected,
            ),
        decreases peers@.len() - i,
    {
        proof {
            assert(peers@.skip(i as int).drop_first() =~= peers@.skip(i + 1));
            assert(peers@.skip(i as int)[0] == peers@[i as int]);
        }
        if peer_came_by(&peers[i], uri) {
            match peers[i].address {
                Some(address) => {
                    if address != expected {
                        return PeerCheck::WrongNode(address);
                    }
                },
                None => {},
            }
        }
        i = i + 1;
    }
    PeerCheck::Healthy
}

/// Whether the router still has a session with the node at `address`.
pub fn session_present(sessions: &Vec<SessionEntry>, address: OverlayAddress) -> (r: bool)
    ensures
        r == exists|i: int| 0 <= i < sessions@.len() && (#[trigger] sessions@[i]).address == address,
{
    let mut i: usize = 0;
    while i < sessions.len()
        invariant
            i <= sessions@.len(),
            forall|j: int| 0 <= j < i ==> (#[trigger] sessions@[j]).address != address,
        decreases sessions@.len() - i,
    {
        if sessions[i].address == address {
            return true;
        }
        i = i + 1;
    }
    false
}

/// What the supervisor of a bridge is told.
#[derive(Debug)]
pub enum BridgeEvent {
    /// The relay stopped.
    RelayBroken,
    /// The router reported its peers, `elapsed` after the bridge was set up.
    Peers { peers: Vec<PeerEntry>, elapsed: Nanos },
    /// The router reported its sessions.
    Sessions { sessions: Vec<SessionEntry> },
    /// A source of reports is gone.
    WatchClosed,
    /// The daemon shuts down.
    Cancelled,
}

/// What the supervisor makes of an event.
#[derive(Debug, Clone, Copy, PartialEq, Eq, Structural)]
pub enum Verdict {
    /// The bridge stays.
    Continue,
    /// The bridge is taken down because the relay stopped.
    Broken,
    /// The bridge is taken down because the router does not peer through it.
    NotConnected,
    /// The bridge is taken down because the router peers through it with the wrong node.
    WrongNode(OverlayAddress),
    /// The bridge is taken down because the router's session is gone.
    SessionClosed,
    /// The bridge is taken down because the router's reports ended.
    WatchClosed,
    /// The bridge is taken down in good order.
    Cancelled,
}

/// Watches over one bridge.
#[derive(Debug)]
pub struct Supervisor {
    /// The URI under which the router knows the bridge's socket.
    pub uri: String,
    /// The node that the bridge was made for.
    pub monitor_address: OverlayAddress,
    /// How long the router is given to bring the peering up.
    pub peer_unconnected_check_delay: Nanos,
    /// Whether that time has passed.
    pub grace_over: bool,
}

impl Supervisor {
    /// What the supervisor makes of `event`.
    pub open spec fn spec_verdict(&self, event: BridgeEvent) -> Verdict {
        match event {
            BridgeEvent::RelayBroken => Verdict::Broken,
            BridgeEvent::WatchClosed => Verdict::WatchClosed,
            BridgeEvent::Cancelled => Verdict::Cancelled,
            BridgeEvent::Sessions { sessions } => if exists|i: int|
                0 <= i < sessions@.len() && (#[trigger] sessions@[i]).address
                    == self.monitor_address {
                Verdict::Continue
            } else {
                Verdict::SessionClosed
            },
            BridgeEvent::Peers { peers, elapsed } => match spec_check_peers(
                peers@,
                self.uri@,
                self.monitor_address,
                self.grace_over || elapsed > self.peer_unconnected_check_delay,
            ) {
                PeerCheck::Healthy => Verdict::Continue,
                PeerCheck::NotConnected => Verdict::NotConnected,
                PeerCheck::WrongNode(address) => Verdict::WrongNode(address),
            },
        }
    }

    /// A supervisor for a bridge that was just set up.
    pub fn new(uri: String, monitor_address: OverlayAddress, peer_unconnected_check_delay: Nanos) -> (r:
        Supervisor)
        ensures
            r.uri == uri,
            r.monitor_address == monitor_address,
            r.peer_unconnected_check_delay == peer_unconnected_check_delay,
            !r.grace_over,
    {
        Supervisor { uri, monitor_address, peer_unconnected_check_delay, grace_over: false }
    }

    /// Decides on an event whether the bridge stays. The time of grace,
    /// once over, stays over.
    pub fn on_event(&mut self, event: &BridgeEvent) -> (r: Verdict)
        ensures
            r == old(self).spec_verdict(*event),
            final(self).uri == old(self).uri,
            final(self).monitor_address == old(self).monitor_address,
            final(self).peer_unconnected_check_delay == old(self).peer_unconnected_check_delay,
            final(self).grace_over == (old(self).grace_over || match *event {
                BridgeEvent::Peers { elapsed, .. } => elapsed > old(
                    self,
                ).peer_unconnected_check_delay,
                _ => false,
            }),
    {
        match event {
            BridgeEvent::RelayBroken => Verdict::Broken,
            BridgeEvent::WatchClosed => Verdict::WatchClosed,
            BridgeEvent::Cancelled => Verdict::Cancelled,
            BridgeEvent::Sessions { sessions } => {
                if session_present(sessions, self.monitor_address) {
                    Verdict::Continue
                } else {
                    Verdict::SessionClosed
                }
            },
            BridgeEvent::Peers { peers, elapsed } => {
                if *elapsed > self.peer_unconnected_check_delay {
                    self.grace_over = true;
                }
                match check_peers(peers, self.uri.as_str(), self.monitor_address, self.grace_over) {
                    PeerCheck::Healthy => Verdict::Continue,
                    PeerCheck::NotConnected => Verdict::NotConnected,
                    PeerCheck::WrongNode(address) => Verdict::WrongNode(address),
                }
            },
        }
    }
}

/// A peer that the daemon added to the router, and that it has to remove
/// again, once, whichever way the bridge ends.
#[derive(Debug)]
pub struct PeerGuard {
    pub uri: String,
    /// Whether the peer is still to be removed.
    pub armed: bool,
}

impl PeerGuard {
    /// Takes charge of a peer that was just added.
    pub fn new(uri: String) -> (r: PeerGuard)
        ensures
            r.uri == uri,
            r.armed,
    {
        PeerGuard { uri, armed: true }
    }

    /// Is called when the bridge ends, and when the daemon shuts down:
    /// the first call gives the URI of the peer to remove, every later one nothing.
    pub fn release(&mut self) -> (r: Option<String>)
        ensures
            !final(self).armed,
            final(self).uri == old(self).uri,
            match r {
                Some(uri) => old(self).armed && uri@ == old(self).uri@,
                None => !old(self).armed,
            },
    {
        if self.armed {
            self.armed = false;
            Some(self.uri.clone())
        } else {
            None
        }
    }
}

} // verus!
