use yggdrasil_jumper::address::{SocketAddress, Transport};
use yggdrasil_jumper::bridge::{
    check_peers, compatible_protocols, dial_targets, listen_address, peer_uri, peering_direction, protocol_supported,
    session_present, with_password, BridgeEvent, ConnectionMode, PeerCheck, PeerGuard,
    PeeringProtocol, RouterVersion, Supervisor, Verdict,
};
use yggdrasil_jumper::bridge::PeeringProtocol::{Quic, Tcp, Tls};
use yggdrasil_jumper::protocol::{
    candidates_of, classify_datagram, frame, frame_end, header_datagram, is_traversal_succeed,
    negotiate, peer_conv, status_traversal_succeed,
    peering_password, select_candidates, session_id, shared_secret, version_compatible,
    version_string, Exchange, HandshakeError, Header, Received, EXCHANGE_MARK, JUMPER_PREFIX,
    PROTOCOL_VERSION,
};
use yggdrasil_jumper::session::{PeerEntry, SessionEntry};
use yggdrasil_jumper::stun::Mapping;

const LOW: u128 = 0x0200_0000_0000_0000_0000_0000_0000_0001;
const HIGH: u128 = 0x0300_0000_0000_0000_0000_0000_0000_0002;

fn v4(last: u8, port: u16) -> SocketAddress {
    SocketAddress::V4 { ip: 0xcb00_7100 | last as u32, port }
}

fn v6(last: u8, port: u16) -> SocketAddress {
    SocketAddress::V6 { ip: 0x2001_0db8_0000_0000_0000_0000_0000_0000 | last as u128, port }
}

fn header(
    rand: u32,
    secret_rand: u32,
    supported: &[PeeringProtocol],
    servers: &[PeeringProtocol],
    candidates: &[SocketAddress],
) -> Header {
    Header {
        version: "yggdrasil-jumper-v0.1".to_string(),
        rand,
        secret_rand,
        supported_protocols: supported.to_vec(),
        server_available: servers.to_vec(),
        candidates: candidates.to_vec(),
        yggdrasil_dpi: false,
        nonce: None,
    }
}

fn peer(address: Option<u128>, remote: Option<&str>, up: bool) -> PeerEntry {
    PeerEntry { address, remote: remote.map(|r| r.to_string()), up }
}

#[test]
fn connection_mode_directions() {
    assert!(ConnectionMode::Any.to_endpoint());
    assert!(ConnectionMode::Any.as_endpoint());
    assert!(ConnectionMode::ToEndpoint.to_endpoint());
    assert!(!ConnectionMode::ToEndpoint.as_endpoint());
    assert!(!ConnectionMode::AsEndpoint.to_endpoint());
    assert!(ConnectionMode::AsEndpoint.as_endpoint());
}

#[test]
fn schemes() {
    assert_eq!(PeeringProtocol::Tcp.scheme(), "tcp");
    assert_eq!(PeeringProtocol::Tls.scheme(), "tls");
    assert_eq!(PeeringProtocol::Quic.scheme(), "quic");
    assert_eq!(PeeringProtocol::from_scheme("tcp"), Some(PeeringProtocol::Tcp));
    assert_eq!(PeeringProtocol::from_scheme("tls"), Some(PeeringProtocol::Tls));
    assert_eq!(PeeringProtocol::from_scheme("quic"), Some(PeeringProtocol::Quic));
    assert_eq!(PeeringProtocol::from_scheme("TCP"), None);
    assert_eq!(PeeringProtocol::from_scheme("tc"), None);
    assert_eq!(PeeringProtocol::from_scheme(""), None);
}

#[test]
fn router_support() {
    for version in [RouterVersion::UpTo044, RouterVersion::From045To047, RouterVersion::From050] {
        assert!(PeeringProtocol::Tcp.is_supported_by_router(&version));
        assert!(PeeringProtocol::Tls.is_supported_by_router(&version));
    }
    assert!(!PeeringProtocol::Quic.is_supported_by_router(&RouterVersion::UpTo044));
    assert!(!PeeringProtocol::Quic.is_supported_by_router(&RouterVersion::From045To047));
    assert!(PeeringProtocol::Quic.is_supported_by_router(&RouterVersion::From050));
}

#[test]
fn connection_mode_selection() {
    let tls = [PeeringProtocol::Tls];
    let local = header(1, 2, &tls, &tls, &[]);
    let remote = header(3, 4, &tls, &tls, &[]);
    assert_eq!(
        peering_direction(&local, &remote, LOW, HIGH),
        Some((PeeringProtocol::Tls, ConnectionMode::ToEndpoint))
    );
    assert_eq!(
        peering_direction(&remote, &local, HIGH, LOW),
        Some((PeeringProtocol::Tls, ConnectionMode::AsEndpoint))
    );
    assert_eq!(peering_direction(&local, &remote, LOW, LOW), None);
}

#[test]
fn protocol_roles() {
    let both = header(1, 2, &[Tcp, Tls, Quic], &[Quic], &[]);
    let none = header(3, 4, &[Tcp, Tls, Quic], &[], &[]);
    assert_eq!(protocol_supported(&both, &none, Tcp, LOW, HIGH), Some((Tcp, ConnectionMode::Any)));
    assert_eq!(
        protocol_supported(&both, &none, Quic, HIGH, LOW),
        Some((Quic, ConnectionMode::ToEndpoint))
    );
    assert_eq!(
        protocol_supported(&none, &both, Quic, LOW, HIGH),
        Some((Quic, ConnectionMode::AsEndpoint))
    );
    assert_eq!(protocol_supported(&both, &none, Tls, LOW, HIGH), None);
    let quic_only = header(5, 6, &[Quic], &[Quic], &[]);
    assert_eq!(protocol_supported(&quic_only, &none, Tcp, LOW, HIGH), None);
    assert_eq!(
        peering_direction(&quic_only, &both, LOW, HIGH),
        Some((Quic, ConnectionMode::ToEndpoint))
    );
    assert_eq!(peering_direction(&both, &none, LOW, HIGH), Some((Tcp, ConnectionMode::Any)));
    let tls_only = header(7, 8, &[Tls], &[], &[]);
    assert_eq!(peering_direction(&tls_only, &none, LOW, HIGH), None);
}

#[test]
fn compatible_protocols_in_order() {
    let all = header(1, 2, &[Tls, Quic, Tcp], &[Tls], &[]);
    let other = header(3, 4, &[Tcp, Tls, Quic], &[Quic, Tls], &[]);
    assert_eq!(
        compatible_protocols(&all, &other, LOW, HIGH),
        vec![
            (Tcp, ConnectionMode::Any),
            (Quic, ConnectionMode::AsEndpoint),
            (Tls, ConnectionMode::ToEndpoint),
        ]
    );
    assert_eq!(
        compatible_protocols(&other, &all, HIGH, LOW),
        vec![
            (Tcp, ConnectionMode::Any),
            (Quic, ConnectionMode::ToEndpoint),
            (Tls, ConnectionMode::AsEndpoint),
        ]
    );
    let none = header(5, 6, &[], &[], &[]);
    assert!(compatible_protocols(&all, &none, LOW, HIGH).is_empty());
    assert_eq!(peering_direction(&all, &none, LOW, HIGH), None);
}

#[test]
fn status_of_a_traversal() {
    assert_eq!(status_traversal_succeed(), "traversal-succeed");
    assert!(is_traversal_succeed("traversal-succeed"));
    assert!(!is_traversal_succeed("traversal-failed"));
    assert!(!is_traversal_succeed("traversal-succeeded"));
    assert!(!is_traversal_succeed(""));
}

#[test]
fn protocol_version_mismatch() {
    assert!(version_compatible("yggdrasil-jumper-v0.1"));
    assert!(version_compatible("yggdrasil-jumper-v0.2"));
    assert!(version_compatible("yggdrasil-jumper-v"));
    assert!(!version_compatible("other-v0.1"));
    assert!(!version_compatible("yggdrasil-jumper-"));
    assert!(!version_compatible(""));
    assert_eq!(version_string(0, 1), "yggdrasil-jumper-v0.1");
    assert_eq!(version_string(12, 255), "yggdrasil-jumper-v12.255");
    assert_eq!(PROTOCOL_VERSION, 4);
    assert_eq!(&JUMPER_PREFIX, b"jmpr");
}

#[test]
fn traversal_session_id() {
    assert_eq!(session_id(0x1111_1111, 0xAAAA_AAAA), 0xAAAA_AAAA_1111_1111);
    assert_eq!(session_id(0xAAAA_AAAA, 0x1111_1111), 0xAAAA_AAAA_1111_1111);
    assert_eq!(session_id(0, 0), 0);
    assert_eq!(session_id(u32::MAX, 7), 0xffff_ffff_0000_0007);
}

#[test]
fn shared_secret_is_sorted_hex() {
    assert_eq!(shared_secret(0xdead_beef, 0x0000_00ff), "000000ffdeadbeef");
    assert_eq!(shared_secret(0x0000_00ff, 0xdead_beef), "000000ffdeadbeef");
    assert_eq!(shared_secret(0, 0), "0000000000000000");
    assert_eq!(shared_secret(u32::MAX, 0xABCD_EF01), "abcdef01ffffffff");
    let s = shared_secret(0x1234_5678, 0x9abc_def0);
    assert_eq!(s.len(), 16);
    assert!(s.chars().all(|c| c.is_ascii_digit() || ('a'..='f').contains(&c)));
}

#[test]
fn conversation_id() {
    assert_eq!(peer_conv(5, 5), 0);
    assert_eq!(peer_conv(5, 6), 1);
    assert_eq!(peer_conv(0, u32::MAX), 1);
}

#[test]
fn password_from_nonces() {
    let a = Some("abc".to_string());
    let b = Some("abd".to_string());
    assert_eq!(peering_password(&None, &None), None);
    assert_eq!(peering_password(&a, &b), Some("abdabc".to_string()));
    assert_eq!(peering_password(&b, &a), Some("abdabc".to_string()));
    assert_eq!(peering_password(&a, &None), Some("abc".to_string()));
    assert_eq!(peering_password(&None, &a), Some("abc".to_string()));
    let short = Some("ab".to_string());
    assert_eq!(peering_password(&short, &a), Some("abcab".to_string()));
    let uri = "tcp://127.0.0.1:5".to_string();
    assert_eq!(
        with_password(uri.clone(), ConnectionMode::Any, &a),
        "tcp://127.0.0.1:5?password=abc"
    );
    assert_eq!(with_password(uri.clone(), ConnectionMode::ToEndpoint, &a), uri);
    assert_eq!(with_password(uri.clone(), ConnectionMode::Any, &None), uri);
}

#[test]
fn candidates_prefer_ipv6() {
    let mappings = vec![
        Mapping { external: v4(7, 1), local: v4(1, 10), transport: Transport::Udp },
        Mapping { external: v6(7, 2), local: v6(1, 20), transport: Transport::Tcp },
        Mapping { external: v6(8, 3), local: v6(2, 30), transport: Transport::Udp },
        Mapping { external: v6(9, 4), local: v6(3, 40), transport: Transport::Udp },
    ];
    assert_eq!(candidates_of(&mappings), vec![v4(7, 1), v6(7, 2), v6(8, 3), v6(9, 4)]);
    let remote = vec![v4(20, 5), v6(20, 6), v6(21, 7)];
    assert_eq!(
        select_candidates(&mappings, Transport::Udp, &remote),
        Some((mappings[2], v6(20, 6)))
    );
    assert_eq!(
        select_candidates(&mappings, Transport::Udp, &vec![v4(20, 5)]),
        Some((mappings[0], v4(20, 5)))
    );
    assert_eq!(select_candidates(&mappings, Transport::Tcp, &vec![v4(20, 5)]), None);
    assert_eq!(select_candidates(&mappings, Transport::Udp, &vec![]), None);
    assert_eq!(select_candidates(&vec![], Transport::Udp, &remote), None);
}

#[test]
fn negotiate_rendezvous() {
    let mappings = vec![Mapping { external: v4(7, 1), local: v4(1, 10), transport: Transport::Udp }];
    let mut me = header(0x1111_1111, 0x0000_00ff, &[Tcp, Quic], &[Quic], &[v4(7, 1)]);
    let mut peer = header(0xAAAA_AAAA, 0xdead_beef, &[Tcp, Quic], &[], &[v4(9, 9)]);
    me.nonce = Some("x".to_string());
    let found = negotiate(&me, &peer, &mappings, Transport::Udp, LOW, HIGH).unwrap();
    assert_eq!(found.inet.session_id, 0xAAAA_AAAA_1111_1111);
    assert_eq!(found.inet.shared_secret, "000000ffdeadbeef");
    assert_eq!(found.mapping, mappings[0]);
    assert_eq!(found.params.protocol, Tcp);
    assert_eq!(found.params.connection_mode, ConnectionMode::Any);
    assert_eq!(found.params.peer_addr, v4(9, 9));
    assert_eq!(found.params.peer_conv, 1);
    assert!(!found.params.yggdrasil_dpi);
    assert_eq!(found.params.monitor_address, HIGH);
    assert_eq!(found.password, Some("x".to_string()));
    me.yggdrasil_dpi = true;
    peer.yggdrasil_dpi = true;
    let found = negotiate(&me, &peer, &mappings, Transport::Udp, LOW, HIGH).unwrap();
    assert!(found.params.yggdrasil_dpi);
    assert_eq!(found.params.protocol, Tcp);
}

#[test]
fn negotiate_errors() {
    let mappings = vec![Mapping { external: v4(7, 1), local: v4(1, 10), transport: Transport::Udp }];
    let me = header(1, 2, &[Tcp, Quic], &[Quic], &[v4(7, 1)]);
    let mut other = header(3, 4, &[Tcp], &[], &[v4(9, 9)]);
    other.version = "other-v0.1".to_string();
    assert_eq!(
        negotiate(&me, &other, &mappings, Transport::Udp, LOW, HIGH).err(),
        Some(HandshakeError::VersionMismatch)
    );
    let same_rand = header(1, 4, &[Tcp], &[], &[v4(9, 9)]);
    assert_eq!(
        negotiate(&me, &same_rand, &mappings, Transport::Udp, LOW, HIGH).err(),
        Some(HandshakeError::Collision)
    );
    let same_secret = header(3, 2, &[Tcp], &[], &[v4(9, 9)]);
    assert_eq!(
        negotiate(&me, &same_secret, &mappings, Transport::Udp, LOW, HIGH).err(),
        Some(HandshakeError::Collision)
    );
    let tls = header(3, 4, &[Tls], &[Tls], &[v4(9, 9)]);
    assert_eq!(
        negotiate(&me, &tls, &mappings, Transport::Udp, LOW, HIGH).err(),
        Some(HandshakeError::NoCommonProtocol)
    );
    let six = header(3, 4, &[Tcp], &[], &[v6(9, 9)]);
    assert_eq!(
        negotiate(&me, &six, &mappings, Transport::Udp, LOW, HIGH).err(),
        Some(HandshakeError::NoCommonFamily)
    );
}

#[test]
fn header_draws_its_numbers() {
    let h = Header::new(
        version_string(0, 4),
        vec![PeeringProtocol::Tcp],
        vec![],
        vec![v4(1, 2)],
        true,
        None,
    );
    assert_eq!(h.version, "yggdrasil-jumper-v0.4");
    assert_eq!(h.supported_protocols, vec![PeeringProtocol::Tcp]);
    assert!(h.server_available.is_empty());
    assert_eq!(h.candidates, vec![v4(1, 2)]);
    assert!(h.yggdrasil_dpi);
    assert_eq!(h.nonce, None);
}

#[test]
fn peer_uris() {
    assert_eq!(peer_uri(PeeringProtocol::Tcp, &v4(1, 40001)), "tcp://127.0.0.1:40001");
    assert_eq!(peer_uri(PeeringProtocol::Quic, &v6(1, 9)), "quic://[::1]:9");
    assert_eq!(peer_uri(PeeringProtocol::Tls, &v4(1, 0)), "tls://127.0.0.1:0");
    assert_eq!(peer_uri(PeeringProtocol::Tls, &v6(1, 65535)), "tls://[::1]:65535");
}

#[test]
fn listen_uris() {
    assert_eq!(listen_address("tcp://127.0.0.1:1234", Tcp), Some("127.0.0.1:1234".to_string()));
    assert_eq!(listen_address("tls://[::]:7?key=abc?x", Tls), Some("[::]:7".to_string()));
    assert_eq!(listen_address("tcp://", Tcp), Some(String::new()));
    assert_eq!(listen_address("tcp://127.0.0.1:1234", Tls), None);
    assert_eq!(listen_address("127.0.0.1:1234", Tcp), None);
    assert_eq!(listen_address("udp://127.0.0.1:1234", Tcp), None);
    assert_eq!(listen_address("quic://h\u{e9}te:1", Quic), Some("h\u{e9}te:1".to_string()));
    let listen = vec![
        "tls://a:1".to_string(),
        "tcp://b:2?x=1".to_string(),
        "nonsense".to_string(),
        "tcp://c:3".to_string(),
    ];
    assert_eq!(dial_targets(&listen, Tcp), vec!["b:2".to_string(), "c:3".to_string()]);
    assert_eq!(dial_targets(&listen, Tls), vec!["a:1".to_string()]);
    assert!(dial_targets(&listen, Quic).is_empty());
}

#[test]
fn supervision_of_peers() {
    let uri = "tcp://127.0.0.1:5";
    let none: Vec<PeerEntry> = vec![];
    assert_eq!(check_peers(&none, uri, LOW, false), PeerCheck::Healthy);
    assert_eq!(check_peers(&none, uri, LOW, true), PeerCheck::NotConnected);
    let down = vec![peer(Some(LOW), Some(uri), false)];
    assert_eq!(check_peers(&down, uri, LOW, true), PeerCheck::NotConnected);
    assert_eq!(check_peers(&down, uri, LOW, false), PeerCheck::Healthy);
    let up = vec![peer(Some(HIGH), Some("tcp://x:1"), true), peer(Some(LOW), Some(uri), true)];
    assert_eq!(check_peers(&up, uri, LOW, true), PeerCheck::Healthy);
    let wrong = vec![peer(None, Some(uri), true), peer(Some(HIGH), Some(uri), true)];
    assert_eq!(check_peers(&wrong, uri, LOW, true), PeerCheck::WrongNode(HIGH));
    assert_eq!(check_peers(&wrong, uri, LOW, false), PeerCheck::WrongNode(HIGH));
    let wrong_down = vec![peer(Some(HIGH), Some(uri), false)];
    assert_eq!(check_peers(&wrong_down, uri, LOW, false), PeerCheck::WrongNode(HIGH));
    assert_eq!(check_peers(&wrong_down, uri, LOW, true), PeerCheck::NotConnected);
}

#[test]
fn supervision_of_a_bridge() {
    let uri = "tcp://127.0.0.1:5";
    let mut s = Supervisor::new(uri.to_string(), LOW, 15);
    assert!(!s.grace_over);
    assert_eq!(s.on_event(&BridgeEvent::Peers { peers: vec![], elapsed: 15 }), Verdict::Continue);
    assert!(!s.grace_over);
    assert_eq!(
        s.on_event(&BridgeEvent::Peers { peers: vec![], elapsed: 16 }),
        Verdict::NotConnected
    );
    assert!(s.grace_over);
    assert_eq!(s.on_event(&BridgeEvent::Peers { peers: vec![], elapsed: 1 }), Verdict::NotConnected);
    let good = vec![peer(Some(LOW), Some(uri), true)];
    assert_eq!(s.on_event(&BridgeEvent::Peers { peers: good, elapsed: 20 }), Verdict::Continue);
    let bad = vec![peer(Some(HIGH), Some(uri), true)];
    assert_eq!(
        s.on_event(&BridgeEvent::Peers { peers: bad, elapsed: 20 }),
        Verdict::WrongNode(HIGH)
    );
    let here = vec![SessionEntry { address: LOW, key: "k".to_string(), uptime: None }];
    assert!(session_present(&here, LOW));
    assert!(!session_present(&here, HIGH));
    assert_eq!(s.on_event(&BridgeEvent::Sessions { sessions: here }), Verdict::Continue);
    assert_eq!(
        s.on_event(&BridgeEvent::Sessions { sessions: vec![] }),
        Verdict::SessionClosed
    );
    assert_eq!(s.on_event(&BridgeEvent::RelayBroken), Verdict::Broken);
    assert_eq!(s.on_event(&BridgeEvent::WatchClosed), Verdict::WatchClosed);
    assert_eq!(s.on_event(&BridgeEvent::Cancelled), Verdict::Cancelled);
}

#[test]
fn added_peer_is_removed_once() {
    let mut g = PeerGuard::new("tcp://127.0.0.1:5".to_string());
    assert!(g.armed);
    assert_eq!(g.release(), Some("tcp://127.0.0.1:5".to_string()));
    assert_eq!(g.release(), None);
    assert_eq!(g.release(), None);
    assert!(!g.armed);
}

#[test]
fn header_exchange() {
    assert_eq!(&EXCHANGE_MARK, b"jmpr\0\0");
    assert_eq!(classify_datagram(b"jmpr\0\0"), Received::Receipt);
    assert_eq!(classify_datagram(b"jmpr\0\0{}"), Received::Header);
    assert_eq!(classify_datagram(b"jmpr\0"), Received::Noise);
    assert_eq!(classify_datagram(b"jmpr\0\x01{}"), Received::Noise);
    assert_eq!(classify_datagram(b""), Received::Noise);
    assert_eq!(header_datagram(b"{}"), b"jmpr\0\0{}".to_vec());
    let mut e = Exchange::new();
    assert!(e.resends());
    assert!(!e.is_done());
    assert!(!e.on_datagram(Received::Noise));
    assert!(e.on_datagram(Received::Header));
    assert!(e.resends());
    assert!(!e.is_done());
    assert!(!e.on_datagram(Received::Receipt));
    assert!(!e.resends());
    assert!(e.is_done());
    assert!(e.on_datagram(Received::Header));
    assert!(e.is_done());
}

#[test]
fn frames() {
    assert_eq!(frame(b"abc"), Some(vec![0, 0, 0, 3, b'a', b'b', b'c']));
    assert_eq!(frame(b""), Some(vec![0, 0, 0, 0]));
    let body = vec![7u8; 0x0102];
    let framed = frame(&body).unwrap();
    assert_eq!(&framed[..4], &[0, 0, 1, 2]);
    assert_eq!(frame_end(&framed), Some(4 + 0x0102));
    assert_eq!(frame_end(&framed[..framed.len() - 1]), None);
    assert_eq!(frame_end(&[0, 0, 0]), None);
    assert_eq!(frame_end(&[0, 0, 0, 0]), Some(4));
    assert_eq!(frame_end(&[0, 0, 0, 1, 9, 9]), Some(5));
}
