use bytecodec::{DecodeExt, EncodeExt};
use stun_codec::rfc5389::attributes::{
    MappedAddress, MessageIntegrity, XorMappedAddress, XorMappedAddress2,
};
use stun_codec::rfc5389::methods::BINDING;
use stun_codec::rfc5389::Attribute;
use stun_codec::{Message, MessageClass, MessageDecoder, MessageEncoder, TransactionId};
use yggdrasil_jumper::address::{SocketAddress, Transport};
use yggdrasil_jumper::external::ExternalAddress;
use yggdrasil_jumper::network::{
    classify, extract_session_id, new_stun_transaction, parse_stun_message, signed,
    verify_stun_message_integrity, InetTraversal, InetTraversalSession, Origin, Probe, Prober,
    TraversalParams, TraversalSessions,
};
use yggdrasil_jumper::stun::{
    add_mapping, binding_request, binding_response, external_address, lookup_timeouts, next_wait, pick_address,
    publish, same_mappings, LookupSettings, Mapping, ServerPool, Wait,
};
use yggdrasil_jumper::stun_wire::{Integrity, StunClass, StunHeader};

fn inet() -> InetTraversal {
    InetTraversal { session_id: 0xAAAA_AAAA_1111_1111, shared_secret: "000000ffdeadbeef".to_string() }
}

fn v4(a: u8, b: u8, c: u8, d: u8, port: u16) -> SocketAddress {
    SocketAddress::V4 { ip: u32::from_be_bytes([a, b, c, d]), port }
}

fn decode(bytes: &[u8]) -> Message<Attribute> {
    MessageDecoder::<Attribute>::new().decode_from_bytes(bytes).unwrap().unwrap()
}

fn encode(message: Message<Attribute>) -> Vec<u8> {
    MessageEncoder::new().encode_into_bytes(message).unwrap()
}

fn send(probe: Probe) -> Vec<u8> {
    match probe {
        Probe::Send(bytes) => bytes,
        other => panic!("no message: {:?}", other),
    }
}

#[test]
fn transaction_of_a_session() {
    let id = new_stun_transaction(0x0807_0605_0403_0201);
    assert_eq!(id, [b'j', b'm', b'p', b'r', 1, 2, 3, 4, 5, 6, 7, 8]);
    assert_eq!(extract_session_id(&id), Some(0x0807_0605_0403_0201));
    assert_eq!(extract_session_id(&new_stun_transaction(0)), Some(0));
    assert_eq!(extract_session_id(&new_stun_transaction(u64::MAX)), Some(u64::MAX));
    assert_eq!(extract_session_id(&[0; 12]), None);
    assert_eq!(extract_session_id(b"jmpq\x01\x02\x03\x04\x05\x06\x07\x08"), None);
}

#[test]
fn header_classification() {
    let id = new_stun_transaction(77);
    let h = StunHeader { class: StunClass::Request, method: 1, transaction_id: id };
    assert_eq!(classify(Some(h)), Some((StunClass::Request, 77)));
    assert_eq!(classify(Some(StunHeader { method: 3, ..h })), None);
    assert_eq!(classify(Some(StunHeader { transaction_id: [0; 12], ..h })), None);
    assert_eq!(classify(None), None);
}

#[test]
fn lookup_request_is_a_plain_binding_request() {
    let bytes = binding_request().unwrap();
    assert_eq!(bytes.len(), 20);
    assert_eq!(&bytes[..8], &[0x00, 0x01, 0x00, 0x00, 0x21, 0x12, 0xa4, 0x42]);
    assert_eq!(&bytes[8..], &[0; 12]);
    let m = decode(&bytes);
    assert_eq!(m.class(), MessageClass::Request);
    assert_eq!(m.method(), BINDING);
    assert_eq!(m.attributes().count(), 0);
    assert_eq!(parse_stun_message(&bytes), None);
}

#[test]
fn stun_reply_extraction() {
    let id = TransactionId::new([0; 12]);
    let mut m = Message::<Attribute>::new(MessageClass::SuccessResponse, BINDING, id);
    m.add_attribute(XorMappedAddress::new(([203, 0, 113, 7], 40001).into()));
    m.add_attribute(MappedAddress::new(([198, 51, 100, 1], 3478).into()));
    assert_eq!(external_address(&encode(m)), Some(v4(203, 0, 113, 7, 40001)));
    let mut m = Message::<Attribute>::new(MessageClass::SuccessResponse, BINDING, id);
    m.add_attribute(MappedAddress::new(([198, 51, 100, 1], 3478).into()));
    assert_eq!(external_address(&encode(m)), Some(v4(198, 51, 100, 1, 3478)));
    let mut m = Message::<Attribute>::new(MessageClass::SuccessResponse, BINDING, id);
    m.add_attribute(MappedAddress::new(([198, 51, 100, 1], 3478).into()));
    m.add_attribute(XorMappedAddress2::new(([192, 0, 2, 9], 5).into()));
    assert_eq!(external_address(&encode(m)), Some(v4(192, 0, 2, 9, 5)));
    let mut m = Message::<Attribute>::new(MessageClass::SuccessResponse, BINDING, id);
    m.add_attribute(XorMappedAddress::new(([0x2001u16, 0xdb8, 0, 0, 0, 0, 0, 1], 9).into()));
    assert_eq!(
        external_address(&encode(m)),
        Some(SocketAddress::V6 { ip: 0x2001_0db8_0000_0000_0000_0000_0000_0001, port: 9 })
    );
    let m = Message::<Attribute>::new(MessageClass::SuccessResponse, BINDING, id);
    assert_eq!(external_address(&encode(m)), None);
    assert_eq!(external_address(b"not stun"), None);
}

#[test]
fn server_answers_with_the_senders_address() {
    let from = v4(203, 0, 113, 7, 40001);
    let mut id = [0u8; 12];
    id[11] = 9;
    let request = encode(Message::<Attribute>::new(
        MessageClass::Request,
        BINDING,
        TransactionId::new(id),
    ));
    let response = binding_response(&request, from).unwrap();
    let m = decode(&response);
    assert_eq!(m.class(), MessageClass::SuccessResponse);
    assert_eq!(m.method(), BINDING);
    assert_eq!(m.transaction_id().as_bytes(), &id);
    assert!(m.get_attribute::<MessageIntegrity>().is_none());
    assert_eq!(external_address(&response), Some(from));
    assert_eq!(binding_response(b"nothing", from), None);
    assert_eq!(binding_response(&request[..19], from), None);
}

#[test]
fn signing_closes_a_message_with_its_integrity() {
    let plain = binding_request().unwrap();
    assert_eq!(signed(Some(plain.clone()), None), Some(plain.clone()));
    assert_eq!(signed(None, Some("secret")), None);
    assert_eq!(signed(None, None), None);
    assert_eq!(signed(Some(b"no message".to_vec()), Some("secret")), None);
    let closed = signed(Some(plain.clone()), Some("secret")).unwrap();
    assert_eq!(closed.len(), plain.len() + 24);
    assert_eq!(&closed[4..20], &plain[4..20]);
    let m = decode(&closed);
    assert_eq!(m.class(), MessageClass::Request);
    let integrity = m.get_attribute::<MessageIntegrity>().unwrap();
    assert!(integrity.check_short_term_credential("secret").is_ok());
    assert!(integrity.check_short_term_credential("Secret").is_err());
}

#[test]
fn what_is_too_long_for_the_decoder_is_no_message() {
    let mut long = binding_request().unwrap();
    long[2] = 0xff;
    long[3] = 0xfc;
    long.extend_from_slice(&[0x80, 0x2f, 0xff, 0xe8]);
    long.resize(20 + 4 + 0xffe8, 0);
    long.extend_from_slice(&[0x80, 0x28, 0x00, 0x04, 1, 2, 3, 4]);
    assert_eq!(long.len(), 65544);
    let from = v4(203, 0, 113, 7, 40001);
    assert_eq!(parse_stun_message(&long), None);
    assert!(!verify_stun_message_integrity(&long, inet().session_id, &inet()));
    assert_eq!(signed(Some(long.clone()), Some("secret")), None);
    assert_eq!(signed(Some(long.clone()), None), Some(long.clone()));
    assert_eq!(external_address(&long), None);
    assert_eq!(binding_response(&long, from), None);
    let params = TraversalParams { retry_count: 3, cycle: 1 };
    assert_eq!(Prober::new(&params, from, Some(inet())).hears(&long), None);
    assert_eq!(Prober::new(&params, from, None).hears(&long), None);
    let edge = vec![0u8; 65536];
    assert_eq!(parse_stun_message(&edge), None);
    assert_eq!(external_address(&edge), None);
    assert_eq!(parse_stun_message(&edge[..65535]), None);
}

#[test]
fn address_priority() {
    let a = Some(v4(1, 1, 1, 1, 1));
    let b = Some(v4(2, 2, 2, 2, 2));
    let c = Some(v4(3, 3, 3, 3, 3));
    assert_eq!(pick_address(a, b, c), a);
    assert_eq!(pick_address(None, b, c), b);
    assert_eq!(pick_address(None, None, c), c);
    assert_eq!(pick_address(None, None, None), None);
}

#[test]
fn prober_sends_authenticated_requests() {
    let params = TraversalParams { retry_count: 3, cycle: 500_000_000 };
    let remote = v4(192, 0, 2, 1, 4000);
    let mut p = Prober::new(&params, remote, Some(inet()));
    assert_eq!(p.counter, 3);
    let bytes = send(p.next());
    assert_eq!(p.counter, 2);
    let m = decode(&bytes);
    assert_eq!(m.class(), MessageClass::Request);
    assert_eq!(m.method(), BINDING);
    assert_eq!(m.transaction_id().as_bytes(), &new_stun_transaction(0xAAAA_AAAA_1111_1111));
    assert!(m.get_attribute::<XorMappedAddress>().is_none());
    let integrity = m.get_attribute::<MessageIntegrity>().unwrap();
    assert!(integrity.check_short_term_credential("000000ffdeadbeef").is_ok());
    assert!(integrity.check_short_term_credential("000000ffdeadbeee").is_err());
    assert_eq!(parse_stun_message(&bytes), Some((StunClass::Request, 0xAAAA_AAAA_1111_1111)));
    assert!(verify_stun_message_integrity(&bytes, 0xAAAA_AAAA_1111_1111, &inet()));
    assert!(!verify_stun_message_integrity(&bytes, 5, &inet()));
    let other = InetTraversal { shared_secret: "0000000000000000".to_string(), ..inet() };
    assert!(!verify_stun_message_integrity(&bytes, 0xAAAA_AAAA_1111_1111, &other));
    assert!(!verify_stun_message_integrity(b"garbage", 0xAAAA_AAAA_1111_1111, &inet()));
}

#[test]
fn prober_acknowledges_with_the_peers_address() {
    let params = TraversalParams { retry_count: 4, cycle: 1 };
    let remote = v4(192, 0, 2, 1, 4000);
    let mut p = Prober::new(&params, remote, None);
    let first = send(p.next());
    let m = decode(&first);
    assert_eq!(m.class(), MessageClass::Request);
    assert_eq!(m.transaction_id().as_bytes(), &new_stun_transaction(0));
    assert!(m.get_attribute::<MessageIntegrity>().is_none());
    assert_eq!(p.on_message(Origin::Socket, StunClass::Request), None);
    assert!(p.send_ack);
    assert_eq!(p.counter, 3 + 2);
    let second = send(p.next());
    let m = decode(&second);
    assert_eq!(m.class(), MessageClass::SuccessResponse);
    let mapped = m.get_attribute::<XorMappedAddress>().unwrap().address();
    assert_eq!(mapped.to_string(), "192.0.2.1:4000");
    assert_eq!(external_address(&second), Some(remote));
}

#[test]
fn prober_state_machine() {
    let params = TraversalParams { retry_count: 10, cycle: 1 };
    let remote = v4(192, 0, 2, 1, 4000);
    let moved = v4(192, 0, 2, 1, 4001);
    let mut p = Prober::new(&params, remote, Some(inet()));
    assert!(!p.succeeded());
    assert_eq!(p.on_message(Origin::Listener(remote), StunClass::ErrorResponse), None);
    assert_eq!(p.counter, 10);
    assert_eq!(p.on_message(Origin::Listener(moved), StunClass::Request), Some(moved));
    assert_eq!(p.remote, moved);
    assert_eq!(p.counter, 15);
    assert!(p.send_ack);
    assert!(!p.admits(StunClass::Request));
    assert!(p.admits(StunClass::SuccessResponse));
    assert_eq!(p.on_message(Origin::Socket, StunClass::Request), None);
    assert_eq!(p.counter, 15);
    assert_eq!(p.on_message(Origin::Socket, StunClass::SuccessResponse), None);
    assert!(p.succeeded());
    assert_eq!(p.counter, 2);
    assert_eq!(p.on_message(Origin::Socket, StunClass::SuccessResponse), None);
    assert_eq!(p.counter, 2);
    assert!(matches!(p.next(), Probe::Send(_)));
    assert!(matches!(p.next(), Probe::Send(_)));
    assert!(matches!(p.next(), Probe::Done));
    assert_eq!(p.counter, 0);
    let mut q = Prober::new(&params, remote, None);
    assert_eq!(q.on_message(Origin::Socket, StunClass::Indication), None);
    assert!(q.finished);
    assert!(q.succeeded());
    assert!(matches!(q.next(), Probe::Done));
    assert_eq!(q.counter, 10);
    let mut none = Prober::new(&TraversalParams { retry_count: 0, cycle: 1 }, remote, None);
    assert!(matches!(none.next(), Probe::Done));
}

#[test]
fn prober_hears_only_its_session() {
    let params = TraversalParams { retry_count: 3, cycle: 1 };
    let remote = v4(192, 0, 2, 1, 4000);
    let mut ours = Prober::new(&params, remote, Some(inet()));
    let mut theirs = Prober::new(&params, remote, Some(inet()));
    let request = send(theirs.next());
    assert_eq!(ours.hears(&request), Some(StunClass::Request));
    assert_eq!(ours.hears(b"jmpr\0\0{}"), Some(StunClass::Indication));
    assert_eq!(ours.hears(b"jmp"), None);
    assert_eq!(ours.hears(&binding_request().unwrap()), None);
    let mut stranger = Prober::new(
        &params,
        remote,
        Some(InetTraversal { shared_secret: "ffffffffffffffff".to_string(), ..inet() }),
    );
    assert_eq!(ours.hears(&send(stranger.next())), None);
    let mut unsigned = Prober::new(&params, remote, None);
    let plain = send(unsigned.next());
    assert_eq!(ours.hears(&plain), None);
    assert_eq!(unsigned.hears(&plain), Some(StunClass::Request));
    assert_eq!(unsigned.hears(&request), Some(StunClass::Request));
    ours.on_message(Origin::Socket, StunClass::Request);
    assert_eq!(ours.hears(&request), None);
    theirs.on_message(Origin::Socket, StunClass::Request);
    let ack = send(theirs.next());
    assert_eq!(ours.hears(&ack), Some(StunClass::SuccessResponse));
    assert_eq!(
        ours.judge(false, Some((StunClass::SuccessResponse, inet().session_id)), Integrity::Mismatch),
        None
    );
    assert_eq!(
        ours.judge(false, Some((StunClass::SuccessResponse, 1)), Integrity::Valid),
        None
    );
    assert_eq!(ours.judge(true, None, Integrity::Undecoded), Some(StunClass::Indication));
    assert_eq!(ours.judge(false, None, Integrity::Valid), None);
}

#[test]
fn traversal_sessions_are_entered_once() {
    let mut sessions: TraversalSessions<u8> = TraversalSessions::new();
    assert!(sessions.register(InetTraversalSession { inet: inet(), chan: 1 }).is_ok());
    let back = sessions.register(InetTraversalSession { inet: inet(), chan: 2 }).unwrap_err();
    assert_eq!(back.chan, 2);
    assert_eq!(sessions.sessions.len(), 1);
    assert_eq!(sessions.addressee(inet().session_id).map(|s| s.chan), Some(1));
    assert!(sessions.addressee(5).is_none());
    sessions.remove(inet().session_id);
    assert!(sessions.addressee(inet().session_id).is_none());
    assert!(sessions.register(InetTraversalSession { inet: inet(), chan: 3 }).is_ok());
}

#[test]
fn lookup_timeout_schedules() {
    let settings = LookupSettings {
        stun_udp_retry_count: 4,
        stun_udp_response_timeout: 1_500_000_000,
        stun_udp_exponential_timeout: true,
        stun_tcp_response_timeout: 4_000_000_000,
    };
    assert_eq!(
        lookup_timeouts(&settings, true).collect(),
        vec![400_000_000, 800_000_000, 1_600_000_000, 3_200_000_000]
    );
    assert_eq!(lookup_timeouts(&settings, false).collect(), vec![4_000_000_000]);
    let linear = LookupSettings { stun_udp_exponential_timeout: false, ..settings };
    assert_eq!(lookup_timeouts(&linear, true).collect(), vec![1_500_000_000; 4]);
}

#[test]
fn server_pool() {
    let names: Vec<String> = ["a:1", "b:2", "c:3", "d:4"].iter().map(|s| s.to_string()).collect();
    let mut pool = ServerPool::new(&names);
    assert_eq!(pool.servers.len(), 4);
    assert!(pool.servers.iter().all(|s| s.available));
    assert_eq!(pool.next_available(0), Some(0));
    pool.mark_failed(0);
    pool.mark_failed(1);
    assert_eq!(pool.next_available(0), Some(2));
    assert_eq!(pool.next_available(3), Some(3));
    assert_eq!(pool.next_available(4), None);
    pool.revive();
    assert!(!pool.servers[0].available);
    assert!(pool.servers[2].available);
    pool.mark_failed(2);
    pool.mark_failed(3);
    assert_eq!(pool.next_available(0), None);
    pool.revive();
    assert!(pool.servers.iter().all(|s| s.available));
    assert_eq!(pool.servers.iter().map(|s| s.server.clone()).collect::<Vec<_>>(), names);
}

#[test]
fn server_pool_shuffle_keeps_the_servers() {
    let names: Vec<String> = (0..40).map(|i| format!("s{i}:3478")).collect();
    let mut pool = ServerPool::new(&names);
    pool.mark_failed(7);
    let mut changed = false;
    for _ in 0..8 {
        pool.shuffle();
        let now: Vec<String> = pool.servers.iter().map(|s| s.server.clone()).collect();
        changed |= now != names;
        let mut sorted = now.clone();
        sorted.sort();
        let mut expected = names.clone();
        expected.sort();
        assert_eq!(sorted, expected);
        assert_eq!(pool.servers.iter().filter(|s| !s.available).count(), 1);
        assert!(pool.servers.iter().any(|s| !s.available && s.server == "s7:3478"));
    }
    assert!(changed);
}

#[test]
fn published_mappings_have_distinct_sockets() {
    let a = Mapping { external: v4(1, 1, 1, 1, 1), local: v4(10, 0, 0, 1, 5), transport: Transport::Udp };
    let b = Mapping { transport: Transport::Tcp, ..a };
    let c = Mapping { external: v4(2, 2, 2, 2, 2), ..a };
    let mut found = Vec::new();
    assert!(add_mapping(&mut found, a));
    assert!(add_mapping(&mut found, b));
    assert!(!add_mapping(&mut found, c));
    assert!(!add_mapping(&mut found, a));
    assert_eq!(found, vec![a, b]);
    let locals = vec![a.local];
    let mut published = Vec::new();
    assert!(publish(&mut published, &locals, &found));
    assert_eq!(published, found);
    assert!(!publish(&mut published, &locals, &found));
    assert!(publish(&mut published, &locals, &vec![b, a]));
    assert_eq!(published, vec![b, a]);
    let foreign = Mapping { local: v4(10, 0, 0, 2, 5), ..a };
    assert!(publish(&mut published, &locals, &vec![c, foreign, a, b, b, foreign]));
    assert_eq!(published, vec![c, b]);
    assert!(!publish(&mut published, &locals, &vec![c, b, a]));
    assert!(publish(&mut published, &vec![foreign.local, a.local], &vec![foreign, c]));
    assert_eq!(published, vec![foreign, c]);
    assert!(publish(&mut published, &locals, &vec![]));
    assert!(published.is_empty());
    assert!(!publish(&mut published, &vec![], &vec![a, b]));
    assert!(same_mappings(&vec![a, b], &vec![a, b]));
    assert!(!same_mappings(&vec![a, b], &vec![a]));
    assert!(!same_mappings(&vec![a], &vec![c]));
    let e = ExternalAddress { external: a.external, local: a.local };
    assert_eq!(e.over(Transport::Udp), a);
}

#[test]
fn monitor_waits() {
    assert_eq!(next_wait(true, 100, 25), Wait::Delay);
    assert_eq!(next_wait(false, 24, 25), Wait::Delay);
    assert_eq!(next_wait(false, 25, 25), Wait::Suspend);
    assert_eq!(next_wait(false, 100, 25), Wait::Suspend);
}
