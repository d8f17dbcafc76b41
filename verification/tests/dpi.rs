use yggdrasil_jumper::yggdrasil_dpi::{
    decode_varint, parse_yggdrasil_packet, Chunk, Delivery, Packet, ReceiveLossy, Route, SendLossy,
    Varint,
};

fn encode(mut v: u64) -> Vec<u8> {
    let mut out = Vec::new();
    while v >= 128 {
        out.push((v % 128) as u8 | 0x80);
        v /= 128;
    }
    out.push(v as u8);
    out
}

fn packet(kind: u8, body: &[u8]) -> Vec<u8> {
    let mut out = encode(body.len() as u64);
    out.push(kind);
    out.extend_from_slice(body);
    out
}

fn sender(udp_mtu: usize, fallback_to_reliable: bool) -> SendLossy {
    SendLossy { skip: 0, udp_mtu, fallback_to_reliable, permanent_fallback: false, started: false }
}

fn receiver(peer_conv: u32) -> ReceiveLossy {
    ReceiveLossy {
        peer_conv,
        backlog: Vec::new(),
        skip: 0,
        permanent_fallback: false,
        started: false,
    }
}

#[test]
fn varint() {
    assert_eq!(
        decode_varint(&[0b10010110, 0b00000001]),
        Varint::Decoded {
            value: 150,
            varint_len: 2
        }
    );
}

#[test]
fn varint_truncated() {
    assert_eq!(decode_varint(&[0x80]), Varint::Truncated);
    assert_eq!(decode_varint(&[]), Varint::Truncated);
    assert_eq!(decode_varint(&[0xff; 8]), Varint::Truncated);
    assert_eq!(decode_varint(&[0xff; 9]), Varint::Truncated);
}

#[test]
fn varint_invalid() {
    assert_eq!(decode_varint(&[0x80; 10]), Varint::Invalid);
    assert_eq!(decode_varint(&[0xff; 12]), Varint::Invalid);
    let mut too_high = vec![0xff; 9];
    too_high.push(2);
    assert_eq!(decode_varint(&too_high), Varint::Invalid);
    too_high[9] = 0x7f;
    assert_eq!(decode_varint(&too_high), Varint::Invalid);
}

#[test]
fn varint_single_byte() {
    assert_eq!(decode_varint(&[0]), Varint::Decoded { value: 0, varint_len: 1 });
    assert_eq!(decode_varint(&[127, 0xff]), Varint::Decoded { value: 127, varint_len: 1 });
}

#[test]
fn varint_reads_back_encoded() {
    let values: [u64; 12] = [
        0,
        1,
        127,
        128,
        150,
        16383,
        16384,
        0x1234_5678_9abc,
        0x7fff_ffff_ffff_ffff,
        0x8000_0000_0000_0000,
        0x8000_0000_0000_0001,
        u64::MAX,
    ];
    for v in values {
        let mut bytes = encode(v);
        let len = bytes.len();
        let bits = (64 - v.leading_zeros()) as usize;
        assert_eq!(len, std::cmp::max(1, (bits + 6) / 7));
        bytes.extend_from_slice(&[0xaa, 0x01]);
        assert_eq!(decode_varint(&bytes), Varint::Decoded { value: v, varint_len: len });
    }
}

#[test]
fn varint_of_64_bits() {
    let bytes = encode(0x8000_0000_0000_0000);
    assert_eq!(bytes.len(), 10);
    assert_eq!(
        decode_varint(&bytes),
        Varint::Decoded { value: 0x8000_0000_0000_0000, varint_len: 10 }
    );
    let mut padded = vec![0x80; 9];
    padded.push(0);
    assert_eq!(decode_varint(&padded), Varint::Decoded { value: 0, varint_len: 10 });
}

#[test]
fn parse_meta_frame() {
    assert_eq!(parse_yggdrasil_packet(b"meta\x00\x02ab", true), Packet::Meta(8));
    assert_eq!(parse_yggdrasil_packet(b"meta\x00\x02abXYZ", true), Packet::Meta(8));
    assert_eq!(parse_yggdrasil_packet(b"meta\x01\x00", true), Packet::Truncated(262));
    assert_eq!(parse_yggdrasil_packet(b"meta\x00", true), Packet::TruncatedHeader);
    assert_eq!(parse_yggdrasil_packet(b"meta", true), Packet::TruncatedHeader);
    assert_eq!(parse_yggdrasil_packet(b"met", true), Packet::TruncatedHeader);
    assert_eq!(parse_yggdrasil_packet(b"me", true), Packet::TruncatedHeader);
    assert_eq!(parse_yggdrasil_packet(b"m", true), Packet::TruncatedHeader);
    assert_eq!(parse_yggdrasil_packet(b"", true), Packet::TruncatedHeader);
    assert_eq!(parse_yggdrasil_packet(b"mex", true), Packet::Truncated(111));
}

#[test]
fn parse_meta_only_at_the_start() {
    let mut later = b"meta\x00\x02ab".to_vec();
    assert_eq!(parse_yggdrasil_packet(&later, false), Packet::Truncated(111));
    assert_eq!(parse_yggdrasil_packet(b"m", false), Packet::Truncated(111));
    later.resize(111, 7);
    assert_eq!(parse_yggdrasil_packet(&later, false), Packet::Meta(111));
    later.push(1);
    assert_eq!(parse_yggdrasil_packet(&later, false), Packet::Meta(111));
    assert_eq!(parse_yggdrasil_packet(&later, true), Packet::Meta(8));
}

#[test]
fn parse_packets() {
    for fresh in [true, false] {
        assert_eq!(parse_yggdrasil_packet(&[3, 9, 1, 2, 7], fresh), Packet::Traffic(5));
        assert_eq!(parse_yggdrasil_packet(&[3, 9, 1, 2, 7, 8], fresh), Packet::Traffic(5));
        assert_eq!(parse_yggdrasil_packet(&[3, 1, 1, 2, 7], fresh), Packet::Meta(5));
        assert_eq!(parse_yggdrasil_packet(&[3, 9, 1, 2], fresh), Packet::Truncated(5));
        assert_eq!(parse_yggdrasil_packet(&[0x96, 0x01, 9], fresh), Packet::Truncated(153));
        assert_eq!(parse_yggdrasil_packet(&[0x96], fresh), Packet::TruncatedHeader);
        assert_eq!(parse_yggdrasil_packet(&[], fresh), Packet::TruncatedHeader);
        assert_eq!(parse_yggdrasil_packet(&[0x80; 10], fresh), Packet::Invalid);
        assert_eq!(parse_yggdrasil_packet(&[0], fresh), Packet::Truncated(2));
        assert_eq!(parse_yggdrasil_packet(&[0, 9], fresh), Packet::Traffic(2));
        assert_eq!(parse_yggdrasil_packet(&[0, 5, 9], fresh), Packet::Meta(2));
    }
}

#[test]
fn parse_is_traffic() {
    assert!(Packet::Traffic(4).is_traffic());
    assert!(!Packet::Meta(4).is_traffic());
    assert!(!Packet::Truncated(4).is_traffic());
    assert!(!Packet::TruncatedHeader.is_traffic());
    assert!(!Packet::Invalid.is_traffic());
}

#[test]
fn parse_finds_packet_boundaries_on_every_prefix() {
    let mut like_meta = b"ta".to_vec();
    like_meta.resize(109, 3);
    let frames: Vec<Vec<u8>> = vec![
        b"meta\x00\x03abc".to_vec(),
        packet(9, b"hello"),
        packet(b'm', &like_meta[..0]),
        packet(1, b"xy"),
        packet(b'e', &like_meta),
        packet(9, b""),
        packet(9, &[5; 200]),
    ];
    assert_eq!(&frames[4][..4], b"meta");
    let stream: Vec<u8> = frames.iter().flatten().copied().collect();
    for cut in 0..=stream.len() {
        let prefix = &stream[..cut];
        let mut pos = 0;
        for frame in &frames {
            let seen = parse_yggdrasil_packet(&prefix[pos..], pos == 0);
            if pos + frame.len() <= cut {
                assert!(seen == Packet::Traffic(frame.len()) || seen == Packet::Meta(frame.len()));
                pos += frame.len();
            } else {
                assert!(
                    seen == Packet::TruncatedHeader || seen == Packet::Truncated(frame.len()),
                    "cut {cut} at {pos}: {seen:?}"
                );
                break;
            }
        }
    }
}

#[test]
fn send_shortcut_and_reliable() {
    let input = [5, 9, b'h', b'e', b'l', b'l', b'o', 3, 1, b'x', b'y'];
    let mut s = sender(16, true);
    let plan = s.send(&input);
    assert_eq!(
        plan.chunks,
        vec![
            Chunk { route: Route::Shortcut, start: 0, end: 7 },
            Chunk { route: Route::Reliable, start: 7, end: 11 },
        ]
    );
    assert_eq!(plan.left, 0);
    assert!(!s.permanent_fallback);
    assert!(s.started);
    assert_eq!(&input[0..7], &[5, 9, b'h', b'e', b'l', b'l', b'o']);
    assert_eq!(&input[7..11], &[3, 1, b'x', b'y']);
}

#[test]
fn send_oversize_traffic() {
    let input = [5, 9, 1, 2, 3, 4, 5, 1, 9, 7];
    let mut s = sender(4, true);
    let plan = s.send(&input);
    assert_eq!(
        plan.chunks,
        vec![
            Chunk { route: Route::Reliable, start: 0, end: 7 },
            Chunk { route: Route::Shortcut, start: 7, end: 10 },
        ]
    );
    let mut s = sender(4, false);
    let plan = s.send(&input);
    assert_eq!(
        plan.chunks,
        vec![
            Chunk { route: Route::Dropped, start: 0, end: 7 },
            Chunk { route: Route::Shortcut, start: 7, end: 10 },
        ]
    );
}

#[test]
fn send_truncated_header_is_left() {
    let input = [1, 9, 1, 0x96];
    let mut s = sender(16, true);
    let plan = s.send(&input);
    assert_eq!(plan.chunks, vec![Chunk { route: Route::Shortcut, start: 0, end: 3 }]);
    assert_eq!(plan.left, 1);
    assert_eq!(s.skip, 0);
}

#[test]
fn send_truncated_packet_is_skipped() {
    let mut s = sender(16, true);
    let plan = s.send(&[5, 9, 1, 2]);
    assert_eq!(plan.chunks, vec![Chunk { route: Route::Reliable, start: 0, end: 4 }]);
    assert_eq!(plan.left, 0);
    assert_eq!(s.skip, 3);
    let plan = s.send(&[3, 4, 5, 0, 9]);
    assert_eq!(
        plan.chunks,
        vec![
            Chunk { route: Route::Reliable, start: 0, end: 3 },
            Chunk { route: Route::Shortcut, start: 3, end: 5 },
        ]
    );
    assert_eq!(s.skip, 0);
}

#[test]
fn send_invalid_falls_back_for_good() {
    let mut s = sender(16, true);
    let mut input = vec![0, 9];
    input.extend_from_slice(&[0x80; 10]);
    let plan = s.send(&input);
    assert_eq!(
        plan.chunks,
        vec![
            Chunk { route: Route::Shortcut, start: 0, end: 2 },
            Chunk { route: Route::Reliable, start: 2, end: 12 },
        ]
    );
    assert!(s.permanent_fallback);
    let plan = s.send(&[0, 9]);
    assert_eq!(plan.chunks, vec![Chunk { route: Route::Reliable, start: 0, end: 2 }]);
    assert_eq!(plan.left, 0);
}

#[test]
fn send_recover() {
    let mut s = sender(16, true);
    let plan = s.recover(&[1, 2, 3]);
    assert!(s.permanent_fallback);
    assert_eq!(plan.chunks, vec![Chunk { route: Route::Reliable, start: 0, end: 3 }]);
    assert_eq!(plan.left, 0);
}

#[test]
fn send_opening_frame_only_at_the_start() {
    let mut s = sender(16, true);
    let plan = s.send(b"m");
    assert!(plan.chunks.is_empty());
    assert_eq!(plan.left, 1);
    assert!(!s.started);
    let mut input = b"meta\x00\x01z".to_vec();
    input.extend_from_slice(&[0, 9]);
    input.extend_from_slice(b"meta\x00\x01z");
    let plan = s.send(&input);
    assert_eq!(
        plan.chunks,
        vec![
            Chunk { route: Route::Reliable, start: 0, end: 7 },
            Chunk { route: Route::Shortcut, start: 7, end: 9 },
            Chunk { route: Route::Reliable, start: 9, end: 16 },
        ]
    );
    assert_eq!(plan.left, 0);
    assert_eq!(s.skip, 111 - 7);
    assert!(s.started);
}

#[test]
fn send_covers_the_buffer() {
    let input = [1, 9, 1, 2, 1, 2, 3, 0, 9, 9, 9, 9];
    let mut s = sender(2, true);
    let plan = s.send(&input);
    let mut at = 0;
    for c in &plan.chunks {
        assert_eq!(c.start, at);
        assert!(c.end >= c.start);
        assert!(c.route != Route::Dropped);
        at = c.end;
    }
    assert_eq!(at + plan.left, input.len());
    assert_eq!(plan.chunks[2], Chunk { route: Route::Shortcut, start: 7, end: 9 });
}

#[test]
fn send_default_state() {
    let s = SendLossy::default();
    assert_eq!(s.skip, 0);
    assert_eq!(s.udp_mtu, 0);
    assert!(!s.fallback_to_reliable);
    assert!(!s.permanent_fallback);
    assert!(!s.started);
    let r = ReceiveLossy::default();
    assert_eq!(r.peer_conv, 0);
    assert!(r.backlog.is_empty());
    assert_eq!(r.skip, 0);
    assert!(!r.permanent_fallback);
    assert!(!r.started);
}

#[test]
fn recv_lossy_sorts_datagrams() {
    let mut r = receiver(1);
    assert_eq!(r.recv_lossy(&[5, 9, b'h', b'e', b'l', b'l', b'o']), Delivery::Forward);
    assert_eq!(r.recv_lossy(&[2, 1, b'x', b'y']), Delivery::Declined);
    assert_eq!(r.recv_lossy(&[1, 0, 0, 0, 9, 9]), Delivery::Declined);
    assert_eq!(r.recv_lossy(&[5, 9, 1]), Delivery::Declined);
    assert!(r.backlog.is_empty());
    r.skip = 3;
    assert_eq!(r.recv_lossy(&[1, 9, 7]), Delivery::Queued);
    assert_eq!(r.backlog, vec![1, 9, 7]);
    r.permanent_fallback = true;
    assert_eq!(r.recv_lossy(&[1, 9, 7]), Delivery::Declined);
}

#[test]
fn read_reliable_keeps_order() {
    let mut r = receiver(1);
    let input = [2, 1, b'x', b'y', 1, 4, 5];
    let plan = r.read_reliable(&input);
    assert_eq!(plan.head, 0);
    assert!(plan.backlog.is_empty());
    assert_eq!(plan.end, 7);
    assert_eq!(plan.left, 0);
    assert!(r.started);
}

#[test]
fn read_reliable_puts_backlog_behind_a_packet() {
    let mut r = receiver(1);
    let plan = r.read_reliable(&[5, 1, 1]);
    assert_eq!((plan.head, plan.end, plan.left), (0, 3, 0));
    assert_eq!(r.skip, 4);
    assert_eq!(r.recv_lossy(&[1, 9, 7]), Delivery::Queued);
    let plan = r.read_reliable(&[1, 1, 1, 1, 1, 4, 5, 1, 6, 0, 0x96]);
    assert_eq!(plan.head, 7);
    assert_eq!(plan.backlog, vec![1, 9, 7]);
    assert_eq!(plan.end, 10);
    assert_eq!(plan.left, 1);
    assert!(r.backlog.is_empty());
    assert_eq!(r.skip, 0);
}

#[test]
fn read_reliable_invalid_falls_back_and_drops_backlog() {
    let mut r = receiver(1);
    r.skip = 1;
    assert_eq!(r.recv_lossy(&[1, 9, 7]), Delivery::Queued);
    let mut input = vec![0];
    input.extend_from_slice(&[0x80; 10]);
    let plan = r.read_reliable(&input);
    assert!(r.permanent_fallback);
    assert!(r.backlog.is_empty());
    assert!(plan.backlog.is_empty());
    assert_eq!((plan.head, plan.end, plan.left), (0, 11, 0));
    let plan = r.read_reliable(&[1, 2, 3]);
    assert_eq!((plan.head, plan.end, plan.left), (0, 3, 0));
}

#[test]
fn read_reliable_recover() {
    let mut r = receiver(1);
    r.backlog = vec![1, 2];
    let plan = r.recover(&[9, 9]);
    assert!(r.permanent_fallback);
    assert!(r.backlog.is_empty());
    assert_eq!((plan.head, plan.end, plan.left), (0, 2, 0));
}

#[test]
fn read_reliable_opening_frame_only_at_the_start() {
    let mut r = receiver(1);
    let plan = r.read_reliable(b"me");
    assert_eq!((plan.head, plan.end, plan.left), (0, 0, 2));
    assert!(!r.started);
    let plan = r.read_reliable(b"meta\x00\x01z\x00\x01me");
    assert_eq!((plan.head, plan.end, plan.left), (0, 11, 0));
    assert_eq!(r.skip, 111 - 2);
    assert!(r.started);
}

#[test]
fn shortcut_round_trip() {
    let input = [5, 9, b'h', b'e', b'l', b'l', b'o', 3, 1, b'x', b'y'];
    let mut s = sender(16, true);
    let plan = s.send(&input);
    let mut r = receiver(1);
    let mut router: Vec<u8> = Vec::new();
    let mut datagrams = 0;
    let mut reliable: Vec<u8> = Vec::new();
    for c in &plan.chunks {
        let bytes = &input[c.start..c.end];
        match c.route {
            Route::Shortcut => {
                datagrams += 1;
                assert_eq!(bytes, &[5, 9, b'h', b'e', b'l', b'l', b'o']);
                assert_eq!(r.recv_lossy(bytes), Delivery::Forward);
                router.extend_from_slice(bytes);
            }
            Route::Reliable => {
                reliable.extend_from_slice(bytes);
                let p = r.read_reliable(bytes);
                router.extend_from_slice(&bytes[..p.head]);
                router.extend_from_slice(&p.backlog);
                router.extend_from_slice(&bytes[p.head..p.end]);
                assert_eq!(p.left, 0);
            }
            Route::Dropped => unreachable!(),
        }
    }
    assert_eq!(datagrams, 1);
    assert_eq!(reliable, vec![3, 1, b'x', b'y']);
    assert_eq!(plan.left, 0);
    assert_eq!(router, input.to_vec());
}

#[test]
fn shortcut_round_trip_in_pieces() {
    let frames: Vec<Vec<u8>> = vec![
        b"meta\x00\x02ab".to_vec(),
        packet(1, b"control"),
        packet(9, b"traffic"),
        packet(9, &[7; 40]),
        packet(2, b""),
        packet(9, b"x"),
    ];
    let stream: Vec<u8> = frames.iter().flatten().copied().collect();
    for piece in 1..=stream.len() {
        let mut s = sender(16, true);
        let mut r = receiver(1);
        let mut router: Vec<u8> = Vec::new();
        let mut kept: Vec<u8> = Vec::new();
        let mut pending: Vec<u8> = Vec::new();
        for part in stream.chunks(piece) {
            let mut buf = kept.clone();
            buf.extend_from_slice(part);
            let plan = s.send(&buf);
            for c in &plan.chunks {
                let bytes = &buf[c.start..c.end];
                match c.route {
                    Route::Shortcut => match r.recv_lossy(bytes) {
                        Delivery::Forward => router.extend_from_slice(bytes),
                        Delivery::Queued => {}
                        Delivery::Declined => panic!("declined"),
                    },
                    Route::Reliable => {
                        let mut got = pending.clone();
                        got.extend_from_slice(bytes);
                        let p = r.read_reliable(&got);
                        router.extend_from_slice(&got[..p.head]);
                        router.extend_from_slice(&p.backlog);
                        router.extend_from_slice(&got[p.head..p.end]);
                        pending = got[got.len() - p.left..].to_vec();
                    }
                    Route::Dropped => unreachable!(),
                }
            }
            kept = buf[buf.len() - plan.left..].to_vec();
        }
        assert!(kept.is_empty());
        assert!(pending.is_empty());
        assert!(!s.permanent_fallback && !r.permanent_fallback);
        assert_eq!(router, stream, "pieces of {piece}");
    }
}
