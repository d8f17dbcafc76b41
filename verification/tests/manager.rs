use std::collections::HashMap;
use std::time::Duration;
use yggdrasil_jumper::admin_api::{
    admin_endpoint, has_listener, router_protocols, AdminEndpoint, AdminUriError,
};
use yggdrasil_jumper::bridge::PeeringProtocol::{Quic, Tcp, Tls};
use yggdrasil_jumper::bridge::{PeeringProtocol, RouterVersion};
use yggdrasil_jumper::config::{ConfigError, ConfigInner, Listed, SECOND};
use yggdrasil_jumper::proxy_tcp::{
    clock, is_congested, pace, peer_step, router_step, timeout_after, Pace, ReadOutcome, Step,
};
use yggdrasil_jumper::proxy_udp::forward_step;
use yggdrasil_jumper::session::{
    advertises_jumper, alignment_delay, consider, is_inactive, is_peered, note_jumper,
    note_traversal, select_sessions, support, ActiveSessions, Admission, JumperFlag,
    ManagerSettings, PeerEntry, SessionCache, SessionEntry, SessionStage, Spawn, Support,
    Whitelist,
};
use yggdrasil_jumper::sessions::SessionType;
use yggdrasil_jumper::utils::timeout::Timeout;

const A: u128 = 0x0200_1111_2222_3333_4444_5555_6666_0001;
const B: u128 = 0x0200_1111_2222_3333_ffff_0000_0000_0002;
const C: u128 = 0x0201_aaaa_bbbb_cccc_0000_0000_0000_0003;
const NET: u128 = 0x0300_1111_2222_3333_0000_0000_0000_0000;

fn session(address: u128) -> SessionEntry {
    SessionEntry { address, key: format!("{address:x}"), uptime: None }
}

fn settings() -> ManagerSettings {
    ManagerSettings {
        avoid_redundant_peering: true,
        only_peers_advertising_jumper: false,
        failed_yggdrasil_traversal_limit: Some(3),
    }
}

fn listed() -> Listed {
    Listed {
        yggdrasil_listen: vec![],
        yggdrasil_admin_listen: vec!["unix:///var/run/yggdrasil.sock".to_string()],
        yggdrasil_protocols: vec![PeeringProtocol::Tcp, PeeringProtocol::Quic, PeeringProtocol::Tls],
        allow_ipv4: true,
        allow_ipv6: false,
        listen_port: 4701,
        stun_servers: vec!["stun.example:3478".to_string()],
        stun_randomize: true,
    }
}

#[test]
fn defaults() {
    let config = ConfigInner::with_defaults(listed());
    assert!(config.verify().is_ok());
}

#[test]
fn default_values() {
    let c = ConfigInner::with_defaults(listed());
    assert_eq!(c.listen_port, 4701);
    assert_eq!(c.yggdrasil_firewall_traversal_udp_retry_count, 5);
    assert_eq!(c.yggdrasil_firewall_traversal_udp_cycle, Duration::from_secs(1).as_nanos());
    assert_eq!(c.nat_traversal_udp_retry_count, 15);
    assert_eq!(c.nat_traversal_udp_cycle, Duration::from_millis(500).as_nanos());
    assert_eq!(c.stun_udp_retry_count, 4);
    assert_eq!(c.stun_udp_response_timeout, Duration::from_millis(500).as_nanos());
    assert!(c.stun_udp_exponential_timeout);
    assert_eq!(c.stun_tcp_response_timeout, 4 * SECOND);
    assert_eq!(c.whitelist, None);
    assert!(!c.only_peers_advertising_jumper);
    assert_eq!(c.failed_yggdrasil_traversal_limit, None);
    assert!(!c.yggdrasil_dpi);
    assert_eq!(c.yggdrasil_dpi_udp_mtu, 1452);
    assert!(c.yggdrasil_dpi_fallback_to_reliable);
    assert!(!c.yggdrasil_admin_reconnect);
    assert!(c.avoid_redundant_peering);
    assert_eq!(c.peer_unconnected_check_delay, 15 * SECOND);
    assert_eq!(c.resolve_external_address_delay, 25 * SECOND);
    assert_eq!(c.yggdrasilctl_query_delay, 10 * SECOND);
    assert_eq!(c.connect_as_client_timeout, 5 * SECOND);
    assert_eq!(c.peer_getnodeinfo_timeout, 10 * SECOND);
    assert_eq!(c.session_cache_invalidation_timeout, 10800 * SECOND);
    assert_eq!(c.align_uptime_timeout, 20 * SECOND);
    assert_eq!(c.inactivity_delay, 90 * SECOND);
    assert_eq!(c.inactivity_delay_period, 300 * SECOND);
}

#[test]
fn config_errors() {
    let mut l = listed();
    l.yggdrasil_admin_listen.clear();
    assert_eq!(ConfigInner::with_defaults(l).verify().err(), Some(ConfigError::NoAdminSocket));
    let mut l = listed();
    l.allow_ipv4 = false;
    assert_eq!(ConfigInner::with_defaults(l).verify().err(), Some(ConfigError::NoAddressFamily));
    let mut l = listed();
    l.allow_ipv4 = false;
    l.yggdrasil_admin_listen.clear();
    assert_eq!(ConfigInner::with_defaults(l).verify().err(), Some(ConfigError::NoAdminSocket));
}

#[test]
fn timeout() {
    fn collect(a: u64, b: u32, c: bool) -> Vec<u64> {
        Timeout::new(Duration::from_millis(a).as_nanos(), b, c)
            .collect()
            .into_iter()
            .map(|t| Duration::from_nanos(t as u64).as_millis() as u64)
            .collect()
    }
    let exp = |a, b| collect(a, b, true);
    let lin = |a, b| collect(a, b, false);

    assert_eq!(exp(1500, 4), vec![400, 800, 1600, 3200]);
    assert_eq!(exp(500, 100).len(), 100);

    assert_eq!(lin(1500, 4), vec![1500, 1500, 1500, 1500]);
    assert_eq!(lin(500, 1000).len(), 1000);
}

#[test]
fn timeout_totals() {
    let cases: [(u128, u32); 5] = [(1_500_000_000, 4), (1, 1), (7, 3), (1_000_000_007, 10), (5, 64)];
    for (t, n) in cases {
        let spans = Timeout::new_exponential(t, n).collect();
        assert_eq!(spans.len(), n as usize);
        let sum: u128 = spans.iter().sum();
        assert!(sum <= t * n as u128);
        assert!(t * n as u128 - sum < (1u128 << n) - 1);
        for w in spans.windows(2) {
            assert_eq!(w[1], 2 * w[0]);
        }
        let flat = Timeout::new_linear(t, n).collect();
        assert_eq!(flat, vec![t; n as usize]);
    }
    assert_eq!(Timeout::new_exponential(7, 3).collect(), vec![3, 6, 12]);
    assert!(Timeout::new_linear(5, 0).collect().is_empty());
}

#[test]
fn timeout_next() {
    let mut t = Timeout::new(100, 3, true);
    assert_eq!(t.next(), Some(42));
    assert_eq!(t.next(), Some(84));
    assert_eq!(t.next(), Some(168));
    assert_eq!(t.next(), None);
    assert_eq!(t.next(), None);
}

#[test]
fn stages() {
    assert!(SessionStage::Bridge.is_bridge());
    assert!(!SessionStage::Bridge.is_session());
    assert!(SessionStage::Session.is_session());
    assert!(!SessionStage::Session.is_bridge());
    assert!(SessionType::Bridge.is_bridge());
    assert!(!SessionType::Bridge.is_session());
    assert!(SessionType::Session.is_session());
    assert!(!SessionType::Session.is_bridge());
    assert_eq!(SessionType::Session.stage(), SessionStage::Session);
    assert_eq!(SessionType::Bridge.stage(), SessionStage::Bridge);
}

#[test]
fn active_sessions_hold_one_stage_per_address() {
    let mut active = ActiveSessions::new();
    assert!(!active.any_bridge());
    assert_eq!(active.stage(A), None);
    assert!(active.begin_session(A));
    assert!(!active.begin_session(A));
    assert_eq!(active.stage(A), Some(SessionStage::Session));
    assert!(active.begin_bridge(A));
    assert_eq!(active.stage(A), Some(SessionStage::Bridge));
    assert_eq!(active.stages.len(), 1);
    assert!(active.any_bridge());
    assert!(!active.begin_bridge(A));
    assert!(!active.begin_session(A));
    assert_eq!(active.stage(A), Some(SessionStage::Bridge));
    assert!(active.begin_bridge(B));
    active.end(A);
    assert_eq!(active.stage(A), None);
    assert!(active.any_bridge());
    active.end(B);
    active.end(B);
    assert!(!active.any_bridge());
    assert!(active.stages.is_empty());
}

#[test]
fn whitelist_matching() {
    let list = Whitelist::new(&vec![A, NET]);
    assert!(list.contains(A));
    assert!(list.contains(B));
    assert!(!list.contains(C));
    assert!(list.contains(NET));
    assert!(list.contains(NET | 0xffff));
    assert_eq!(list.addresses.len(), 1);
    assert_eq!(list.subnets.len(), 1);
    assert!(list.subnets.contains(&0x0200_1111_2222_3333));
    let only_literal = Whitelist::new(&vec![C]);
    assert!(only_literal.contains(C));
    assert!(!only_literal.contains(C + 1));
    assert!(!only_literal.contains(A));
    let empty = Whitelist::new(&vec![]);
    assert!(!empty.contains(A));
    let other_prefix = Whitelist::new(&vec![0x0400_1111_2222_3333_0000_0000_0000_0000]);
    assert!(!other_prefix.contains(0x0400_1111_2222_3333_0000_0000_0000_0001));
    assert!(other_prefix.contains(0x0400_1111_2222_3333_0000_0000_0000_0000));
}

#[test]
fn jumper_advertisement() {
    assert!(advertises_jumper(JumperFlag::Flag(true)));
    assert!(advertises_jumper(JumperFlag::Number(Some(4))));
    assert!(!advertises_jumper(JumperFlag::Flag(false)));
    assert!(!advertises_jumper(JumperFlag::Number(Some(3))));
    assert!(!advertises_jumper(JumperFlag::Number(None)));
    assert!(!advertises_jumper(JumperFlag::Absent));
    assert!(!advertises_jumper(JumperFlag::Other));
}

#[test]
fn cache_decides_support() {
    let fresh = SessionCache::default();
    assert_eq!(fresh.jumper_supported, None);
    assert_eq!(fresh.failed_yggdrasil_traversal, 0);
    assert_eq!(support(None, Some(3), false), Support::Supported);
    assert_eq!(support(None, Some(3), true), Support::Unknown);
    assert_eq!(support(Some(&fresh), None, true), Support::Unknown);
    let failed = SessionCache { jumper_supported: Some(true), failed_yggdrasil_traversal: 3 };
    assert_eq!(support(Some(&failed), Some(3), false), Support::Unsupported);
    assert_eq!(support(Some(&failed), Some(4), true), Support::Supported);
    assert_eq!(support(Some(&failed), None, true), Support::Supported);
    let no = SessionCache { jumper_supported: Some(false), failed_yggdrasil_traversal: 0 };
    assert_eq!(support(Some(&no), Some(3), false), Support::Unsupported);
}

#[test]
fn cache_updates() {
    let mut c = SessionCache::default();
    c.record_traversal(false);
    c.record_traversal(false);
    assert_eq!(c.failed_yggdrasil_traversal, 2);
    c.record_traversal(true);
    assert_eq!(c.failed_yggdrasil_traversal, 0);
    let mut cache: HashMap<u128, SessionCache> = HashMap::new();
    note_traversal(&mut cache, A, false);
    note_traversal(&mut cache, A, false);
    note_jumper(&mut cache, A, true);
    assert_eq!(
        cache.get(&A),
        Some(&SessionCache { jumper_supported: Some(true), failed_yggdrasil_traversal: 2 })
    );
    note_traversal(&mut cache, A, true);
    assert_eq!(
        cache.get(&A),
        Some(&SessionCache { jumper_supported: Some(true), failed_yggdrasil_traversal: 0 })
    );
    note_jumper(&mut cache, B, false);
    assert_eq!(
        cache.get(&B),
        Some(&SessionCache { jumper_supported: Some(false), failed_yggdrasil_traversal: 0 })
    );
    note_traversal(&mut cache, C, true);
    assert_eq!(cache.get(&C), Some(&SessionCache::default()));
}

#[test]
fn filtering_rules() {
    let list = Some(Whitelist::new(&vec![A, NET]));
    let peers = vec![
        PeerEntry { address: Some(B), remote: Some("tcp://x:1".to_string()), up: true },
        PeerEntry { address: Some(A), remote: Some("tcp://x:2".to_string()), up: false },
        PeerEntry { address: Some(A), remote: None, up: true },
    ];
    assert!(is_peered(&peers, B));
    assert!(!is_peered(&peers, A));
    let mut cache: HashMap<u128, SessionCache> = HashMap::new();
    let mut active = ActiveSessions::new();
    let s = settings();
    assert_eq!(consider(A, &s, &list, &peers, &cache, &active), Some(Admission::Start));
    assert_eq!(consider(C, &s, &list, &peers, &cache, &active), None);
    assert_eq!(consider(C, &s, &None, &peers, &cache, &active), Some(Admission::Start));
    assert_eq!(consider(B, &s, &list, &peers, &cache, &active), None);
    let lax = ManagerSettings { avoid_redundant_peering: false, ..s };
    assert_eq!(consider(B, &lax, &list, &peers, &cache, &active), Some(Admission::Start));
    active.begin_session(A);
    assert_eq!(consider(A, &s, &list, &peers, &cache, &active), None);
    active.end(A);
    for _ in 0..3 {
        note_traversal(&mut cache, A, false);
    }
    assert_eq!(consider(A, &s, &list, &peers, &cache, &active), None);
    note_traversal(&mut cache, A, true);
    let strict = ManagerSettings { only_peers_advertising_jumper: true, ..s };
    assert_eq!(consider(A, &strict, &list, &peers, &cache, &active), Some(Admission::AskNodeInfo));
    note_jumper(&mut cache, A, false);
    assert_eq!(consider(A, &strict, &list, &peers, &cache, &active), None);
    assert_eq!(consider(A, &s, &list, &peers, &cache, &active), None);
    note_jumper(&mut cache, A, true);
    assert_eq!(consider(A, &strict, &list, &peers, &cache, &active), Some(Admission::Start));
}

#[test]
fn sessions_are_selected_once() {
    let sessions = vec![session(A), session(C), session(A), session(B)];
    let list = Some(Whitelist::new(&vec![A, NET]));
    let cache: HashMap<u128, SessionCache> = HashMap::new();
    let mut active = ActiveSessions::new();
    let spawned = select_sessions(&sessions, &settings(), &list, &vec![], &cache, &mut active);
    assert_eq!(
        spawned,
        vec![
            Spawn { index: 0, admission: Admission::Start },
            Spawn { index: 3, admission: Admission::Start },
        ]
    );
    assert_eq!(active.stage(A), Some(SessionStage::Session));
    assert_eq!(active.stage(B), Some(SessionStage::Session));
    assert_eq!(active.stage(C), None);
    let again = select_sessions(&sessions, &settings(), &list, &vec![], &cache, &mut active);
    assert!(again.is_empty());
    assert_eq!(active.stages.len(), 2);
}

#[test]
fn inactivity_window() {
    let (p, d) = (300 * SECOND, 90 * SECOND);
    assert!(!is_inactive(0, p, d));
    assert!(!is_inactive(p - 1, p, d));
    assert!(is_inactive(p, p, d));
    assert!(is_inactive(p + d, p, d));
    assert!(!is_inactive(p + d + 1, p, d));
    assert!(is_inactive(3 * p + 1, p, d));
    assert!(!is_inactive(3 * p - 1, p, d));
    assert!(!is_inactive(5, 0, d));
    assert!(is_inactive(2 * p - 1, p, p));
}

#[test]
fn uptime_alignment() {
    let t = 20 * SECOND;
    assert_eq!(alignment_delay(None, t), t);
    assert_eq!(alignment_delay(Some(0), t), t);
    assert_eq!(alignment_delay(Some(7 * SECOND), t), 13 * SECOND);
    assert_eq!(alignment_delay(Some(47 * SECOND + 1), t), 13 * SECOND - 1);
    assert_eq!(alignment_delay(Some(40 * SECOND), t), t);
    assert_eq!(alignment_delay(Some(5), 0), 0);
}

#[test]
fn router_protocol_selection() {
    let configured = vec![Tcp, Quic, Tls];
    let listen = vec!["tls://[::]:1".to_string(), "quic://[::]:2".to_string(), "tcp".to_string()];
    assert_eq!(
        router_protocols(&configured, &listen, RouterVersion::From050),
        (vec![Tcp, Quic, Tls], vec![Tcp, Quic, Tls])
    );
    assert_eq!(
        router_protocols(&configured, &listen, RouterVersion::From045To047),
        (vec![Tcp, Tls], vec![Tcp, Tls])
    );
    assert_eq!(
        router_protocols(&configured, &vec![], RouterVersion::UpTo044),
        (vec![Tcp, Tls], vec![])
    );
    assert_eq!(router_protocols(&vec![Quic], &listen, RouterVersion::UpTo044), (vec![], vec![]));
    assert!(has_listener(&listen, Tls));
    assert!(!has_listener(&vec!["tlsx://a".to_string()], Tls));
}

#[test]
fn admin_socket_uris() {
    match admin_endpoint("unix:///var/run/yggdrasil.sock") {
        Ok(AdminEndpoint::Unix(path)) => assert_eq!(path, "/var/run/yggdrasil.sock"),
        other => panic!("{:?}", other),
    }
    match admin_endpoint("tcp://localhost:9001") {
        Ok(AdminEndpoint::Tcp(address)) => assert_eq!(address, "localhost:9001"),
        other => panic!("{:?}", other),
    }
    assert_eq!(admin_endpoint("localhost:9001").err(), Some(AdminUriError::NoScheme));
    assert_eq!(admin_endpoint("udp://localhost:9001").err(), Some(AdminUriError::InvalidProtocol));
}

#[test]
fn relay_steps() {
    assert_eq!(router_step(ReadOutcome::Closed, 3), Step::Stop);
    assert_eq!(router_step(ReadOutcome::Data(0), 3), Step::Stop);
    assert_eq!(router_step(ReadOutcome::Data(5), 3), Step::Feed(8));
    assert_eq!(router_step(ReadOutcome::Idle, 3), Step::Tick);
    assert_eq!(router_step(ReadOutcome::Interrupted, 3), Step::Retry);
    assert_eq!(router_step(ReadOutcome::Failed, 3), Step::Stop);
    assert_eq!(peer_step(ReadOutcome::Data(0)), Step::Feed(0));
    assert_eq!(peer_step(ReadOutcome::Data(7)), Step::Feed(7));
    assert_eq!(peer_step(ReadOutcome::Idle), Step::Tick);
    assert_eq!(peer_step(ReadOutcome::Closed), Step::Tick);
    assert_eq!(peer_step(ReadOutcome::Interrupted), Step::Retry);
    assert_eq!(peer_step(ReadOutcome::Failed), Step::Retry);
    assert_eq!(forward_step(ReadOutcome::Data(7)), Step::Feed(7));
    assert_eq!(forward_step(ReadOutcome::Interrupted), Step::Retry);
    assert_eq!(forward_step(ReadOutcome::Idle), Step::Stop);
    assert_eq!(forward_step(ReadOutcome::Failed), Step::Stop);
    assert_eq!(forward_step(ReadOutcome::Closed), Step::Stop);
}

#[test]
fn relay_pacing() {
    assert_eq!(clock(5), 5);
    assert_eq!(clock(0x1_0000_0000), 0);
    assert_eq!(clock(0x3_0000_0007), 7);
    assert!(is_congested(33, 32));
    assert!(!is_congested(32, 32));
    assert_eq!(pace(0, 95, 10), Pace::Idle { clear: true });
    assert_eq!(pace(0, 100, 0), Pace::Idle { clear: false });
    assert_eq!(pace(0, 94, 10), Pace::Arm(94));
    assert_eq!(pace(1, 100, 100), Pace::Keep);
    assert_eq!(pace(1, 100, 95), Pace::Keep);
    assert_eq!(pace(1, 100, 94), Pace::Arm(100));
    assert_eq!(pace(1, 100, 106), Pace::Arm(100));
    assert_eq!(pace(1, 10, 10), Pace::Arm(10));
    assert_eq!(pace(1, u32::MAX, 0), Pace::Arm(u32::MAX));
    assert_eq!(timeout_after(Pace::Idle { clear: true }, 9), 0);
    assert_eq!(timeout_after(Pace::Keep, 9), 9);
    assert_eq!(timeout_after(Pace::Arm(12), 9), 12);
}
