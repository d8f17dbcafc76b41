//! What holds of the dissector on every stream: the varint it reads back, the
//! packet boundaries it finds, and where the bytes of a buffer end up.

use crate::yggdrasil_dpi::{
    all_continue, begins_meta, conv_header, has_meta_prefix, lemma_no_second_flush,
    lemma_parse_bounds, lemma_pow128_grows, lemma_traffic_anywhere, lemma_varint_end_unique,
    lemma_varint_value_step, meta_letters, pow128, receive_from, spec_decode_varint, spec_parse,
    starts_with, varint_ends_at, varint_value, Chunk, Packet, ReceiveLossy, ReceiveTrace, Route,
    SendLossy, SendTrace, Varint, TRAFFIC_TYPE, VARINT_MAX_LEN,
};
use vstd::prelude::*;

verus! {

/// The shortest varint that writes `v`: seven bits per byte, least significant
/// group first, every byte but the last with its top bit set.
pub open spec fn encode_varint(v: nat) -> Seq<u8>
    decreases v,
{
    if v < 128 {
        seq![v as u8]
    } else {
        seq![(v % 128 + 128) as u8] + encode_varint(v / 128)
    }
}

/// Number of seven-bit groups that `v` takes, one at least.
pub open spec fn encoded_len(v: nat) -> nat
    decreases v,
{
    if v < 128 {
        1
    } else {
        1 + encoded_len(v / 128)
    }
}

/// `encoded_len(v)` is the number of seven-bit groups up to the highest bit
/// set in `v`: `128^(k-1) <= v < 128^k` for a `v` of `k > 1` groups.
pub proof fn lemma_encoded_len_bounds(v: nat)
    ensures
        encoded_len(v) >= 1,
        v < pow128(encoded_len(v)),
        encoded_len(v) > 1 ==> v >= pow128((encoded_len(v) - 1) as nat),
    decreases v,
{
    reveal_with_fuel(pow128, 2);
    if v >= 128 {
        lemma_encoded_len_bounds(v / 128);
    }
}

/// The varint of `v` has `encoded_len(v)` bytes, all but the last announce
/// another one, and they write `v`, whatever follows them.
pub proof fn lemma_encoding_shape(v: nat, rest: Seq<u8>)
    ensures
        encode_varint(v).len() == encoded_len(v),
        all_continue(encode_varint(v) + rest, encoded_len(v) - 1),
        (encode_varint(v) + rest)[encoded_len(v) - 1] < 128,
        varint_value(encode_varint(v) + rest, encoded_len(v)) == v,
    decreases v,
{
    let e = encode_varint(v);
    let k = encoded_len(v);
    let whole = e + rest;
    if v < 128 {
        assert(whole[0] == v as u8);
        reveal_with_fuel(varint_value, 2);
    } else {
        let tail = encode_varint(v / 128);
        lemma_encoding_shape(v / 128, rest);
        assert(whole.drop_first() =~= tail + rest);
        assert(whole[0] == (v % 128 + 128) as u8);
        assert forall|j: int| 0 <= j < k - 1 implies #[trigger] whole[j] >= 128 by {
            if j > 0 {
                assert(whole[j] == (tail + rest)[j - 1]);
            }
        }
        assert(whole[k - 1] == (tail + rest)[k - 2]);
        assert(varint_value(whole, k) == (whole[0] % 128) as nat + 128 * varint_value(
            whole.drop_first(),
            (k - 1) as nat,
        ));
    }
}

/// Reading back the shortest varint of `v` gives `v` and the number of its
/// seven-bit groups, whatever follows the varint: for every number of 64 bits.
pub proof fn lemma_decode_encoded(v: u64, rest: Seq<u8>)
    ensures
        spec_decode_varint(encode_varint(v as nat) + rest) == (Varint::Decoded {
            value: v,
            varint_len: encoded_len(v as nat) as usize,
        }),
        1 <= encoded_len(v as nat) <= VARINT_MAX_LEN,
{
    let k = encoded_len(v as nat);
    let whole = encode_varint(v as nat) + rest;
    lemma_encoding_shape(v as nat, rest);
    lemma_encoded_len_bounds(v as nat);
    reveal_with_fuel(pow128, 11);
    assert(pow128(9) == 0x8000_0000_0000_0000);
    assert(pow128(10) == 0x40_0000_0000_0000_0000);
    if k > 10 {
        lemma_pow128_grows(10, (k - 1) as nat);
    }
    assert(varint_ends_at(whole, k - 1));
    let i = choose|i: int| varint_ends_at(whole, i);
    lemma_varint_end_unique(whole, i, k - 1);
    if k == 10 {
        lemma_varint_value_step(whole, 9);
        let last = whole[9] as int;
        assert(whole[9] % 128 == whole[9]);
        assert(last * 0x8000_0000_0000_0000 <= v);
    }
}

/// The first `n` bytes alone decide the number that they write.
pub proof fn lemma_varint_value_prefix(a: Seq<u8>, b: Seq<u8>, n: nat)
    requires
        n <= a.len(),
        n <= b.len(),
        forall|j: int| 0 <= j < n ==> a[j] == b[j],
    ensures
        varint_value(a, n) == varint_value(b, n),
    decreases n,
{
    if n > 0 {
        let a1 = a.drop_first();
        let b1 = b.drop_first();
        assert forall|j: int| 0 <= j < n - 1 implies a1[j] == b1[j] by {
            assert(a1[j] == a[j + 1]);
            assert(b1[j] == b[j + 1]);
        }
        lemma_varint_value_prefix(a1, b1, (n - 1) as nat);
        assert(a[0] == b[0]);
    }
}

/// A varint that is complete in `buf` reads the same with more bytes behind it.
pub proof fn lemma_decode_ignores_rest(buf: Seq<u8>, rest: Seq<u8>)
    requires
        spec_decode_varint(buf) is Decoded,
    ensures
        spec_decode_varint(buf + rest) == spec_decode_varint(buf),
{
    let whole = buf + rest;
    let i = choose|i: int| varint_ends_at(buf, i);
    assert(varint_ends_at(buf, i));
    assert forall|j: int| 0 <= j < i implies #[trigger] whole[j] >= 128 by {
        assert(buf[j] >= 128);
    }
    assert(whole[i] == buf[i]);
    assert(varint_ends_at(whole, i));
    let k = choose|k: int| varint_ends_at(whole, k);
    lemma_varint_end_unique(whole, k, i);
    lemma_varint_value_prefix(whole, buf, (i + 1) as nat);
}

/// The packet is complete in its buffer.
pub open spec fn is_complete(p: Packet) -> bool {
    p is Traffic || p is Meta
}

/// `f` is one packet and nothing else; `fresh` says that it stands where a
/// stream starts.
pub open spec fn is_frame(f: Seq<u8>, fresh: bool) -> bool {
    match spec_parse(f, fresh) {
        Packet::Traffic(n) | Packet::Meta(n) => n == f.len(),
        _ => false,
    }
}

proof fn lemma_meta_start_ignores_rest(buf: Seq<u8>, rest: Seq<u8>)
    requires
        !begins_meta(buf),
    ensures
        !begins_meta(buf + rest),
        has_meta_prefix(buf + rest) == has_meta_prefix(buf),
{
    let whole = buf + rest;
    if begins_meta(whole) {
        assert(buf =~= meta_letters().subrange(0, buf.len() as int));
    }
    if buf.len() >= 4 {
        assert(whole.subrange(0, 4) =~= buf.subrange(0, 4));
    } else if has_meta_prefix(whole) {
        assert forall|j: int| 0 <= j < buf.len() implies buf[j] == meta_letters()[j] by {
            assert(whole.subrange(0, 4)[j] == whole[j]);
        }
        assert(buf =~= meta_letters().subrange(0, buf.len() as int));
    }
}

/// A packet that is complete in `buf` is dissected the same with more bytes
/// behind it.
pub proof fn lemma_parse_ignores_rest(buf: Seq<u8>, rest: Seq<u8>, fresh: bool)
    requires
        is_complete(spec_parse(buf, fresh)),
    ensures
        spec_parse(buf + rest, fresh) == spec_parse(buf, fresh),
{
    let whole = buf + rest;
    reveal(spec_parse);
    lemma_parse_bounds(buf, fresh);
    if fresh {
        lemma_meta_start_ignores_rest(buf, rest);
    }
    if fresh && has_meta_prefix(buf) {
        assert(whole[4] == buf[4] && whole[5] == buf[5]);
    } else {
        lemma_decode_ignores_rest(buf, rest);
        match spec_decode_varint(buf) {
            Varint::Decoded { value, varint_len } => {
                assert(whole[varint_len as int] == buf[varint_len as int]);
            },
            _ => {},
        }
    }
}

/// A frame cut short is dissected as the beginning of itself: the dissector
/// asks for the rest of the header, or announces the frame's own length.
pub proof fn lemma_cut_frame_announces(f: Seq<u8>, k: int, fresh: bool)
    requires
        is_frame(f, fresh),
        0 <= k < f.len(),
    ensures
        spec_parse(f.subrange(0, k), fresh) is TruncatedHeader || spec_parse(
            f.subrange(0, k),
            fresh,
        ) == Packet::Truncated(f.len() as usize),
{
    let cut = f.subrange(0, k);
    reveal(spec_parse);
    lemma_parse_bounds(f, fresh);
    if fresh && has_meta_prefix(f) {
        if k < 4 {
            assert forall|j: int| 0 <= j < k implies cut[j] == meta_letters()[j] by {
                assert(f.subrange(0, 4)[j] == f[j]);
            }
            assert(cut =~= meta_letters().subrange(0, k));
        } else {
            assert(cut.subrange(0, 4) =~= f.subrange(0, 4));
            if k >= 6 {
                assert(cut[4] == f[4] && cut[5] == f[5]);
            }
        }
    } else if fresh && begins_meta(cut) {
    } else {
        if fresh && k >= 4 {
            assert(cut.subrange(0, 4) =~= f.subrange(0, 4));
        }
        assert(!(fresh && has_meta_prefix(cut)));
        let i = choose|i: int| varint_ends_at(f, i);
        assert(varint_ends_at(f, i));
        if k > i {
            assert forall|j: int| 0 <= j < i implies #[trigger] cut[j] >= 128 by {
                assert(f[j] >= 128);
            }
            assert(cut[i] == f[i]);
            assert(varint_ends_at(cut, i));
            let c = choose|c: int| varint_ends_at(cut, c);
            lemma_varint_end_unique(cut, c, i);
            lemma_varint_value_prefix(cut, f, (i + 1) as nat);
        } else {
            assert forall|c: int| !varint_ends_at(cut, c) by {
                if varint_ends_at(cut, c) {
                    assert(cut[c] == f[c]);
                    assert(f[c] >= 128);
                }
            }
        }
    }
}

/// The frames one after the other.
pub open spec fn joined(frames: Seq<Seq<u8>>) -> Seq<u8>
    decreases frames.len(),
{
    if frames.len() == 0 {
        seq![]
    } else {
        frames[0] + joined(frames.drop_first())
    }
}

/// Every one of them is a frame, the first of them one that may open a stream.
pub open spec fn all_frames(frames: Seq<Seq<u8>>) -> bool {
    forall|i: int| 0 <= i < frames.len() ==> is_frame(#[trigger] frames[i], i == 0)
}

/// The lengths of the complete packets that the dissector finds in `buf` when
/// it starts at the front and moves on by the length of each packet found;
/// `fresh` says that `buf` starts where the stream starts.
pub open spec fn packet_lengths(buf: Seq<u8>, fresh: bool) -> Seq<int>
    decreases buf.len(),
{
    match spec_parse(buf, fresh) {
        Packet::Traffic(n) | Packet::Meta(n) => {
            proof {
                lemma_parse_bounds(buf, fresh);
            }
            seq![n as int] + packet_lengths(buf.skip(n as int), false)
        },
        _ => seq![],
    }
}

proof fn lemma_later_boundaries(frames: Seq<Seq<u8>>, first: bool, tail: Seq<u8>)
    requires
        forall|i: int|
            0 <= i < frames.len() ==> is_frame(#[trigger] frames[i], first && i == 0),
        !is_complete(spec_parse(tail, first && frames.len() == 0)),
    ensures
        packet_lengths(joined(frames) + tail, first) == Seq::new(
            frames.len(),
            |i: int| frames[i].len() as int,
        ),
    decreases frames.len(),
{
    let lens = Seq::new(frames.len(), |i: int| frames[i].len() as int);
    if frames.len() == 0 {
        assert(joined(frames) + tail =~= tail);
        assert(lens =~= seq![]);
    } else {
        let head = frames[0];
        let later = frames.drop_first();
        let stream = joined(frames) + tail;
        assert(is_frame(head, first));
        assert forall|i: int| 0 <= i < later.len() implies is_frame(
            #[trigger] later[i],
            false && i == 0,
        ) by {
            assert(later[i] == frames[i + 1]);
        }
        lemma_later_boundaries(later, false, tail);
        assert(stream =~= head + (joined(later) + tail));
        lemma_parse_ignores_rest(head, joined(later) + tail, first);
        lemma_parse_bounds(head, first);
        assert(stream.skip(head.len() as int) =~= joined(later) + tail);
        let later_lens = Seq::new(later.len(), |i: int| later[i].len() as int);
        assert(lens =~= seq![head.len() as int] + later_lens);
    }
}

/// Dissecting a stream of frames from its start, with or without the
/// beginning of a further frame behind them, finds the frames' own
/// boundaries: one packet for each frame, of the frame's length, and then none.
pub proof fn lemma_stream_boundaries(frames: Seq<Seq<u8>>, tail: Seq<u8>)
    requires
        all_frames(frames),
        !is_complete(spec_parse(tail, frames.len() == 0)),
    ensures
        packet_lengths(joined(frames) + tail, true) == Seq::new(
            frames.len(),
            |i: int| frames[i].len() as int,
        ),
{
    assert forall|i: int| 0 <= i < frames.len() implies is_frame(
        #[trigger] frames[i],
        true && i == 0,
    ) by {}
    lemma_later_boundaries(frames, true, tail);
}

/// The frame that opens a connection: `meta`, the length of the body in two
/// bytes, most significant first, and the body.
pub open spec fn meta_frame(body: Seq<u8>) -> Seq<u8> {
    seq![0x6du8, 0x65u8, 0x74u8, 0x61u8, (body.len() / 256) as u8, (body.len() % 256) as u8] + body
}

/// A packet on the wire: the shortest varint of the body's length, the
/// packet's type, and the body.
pub open spec fn packet_frame(kind: u8, body: Seq<u8>) -> Seq<u8> {
    encode_varint(body.len()) + (seq![kind] + body)
}

/// The opening frame, at the start of a stream, is dissected as one packet of
/// the reliable kind.
pub proof fn lemma_meta_frame_parses(body: Seq<u8>)
    requires
        body.len() < 65536,
    ensures
        spec_parse(meta_frame(body), true) == Packet::Meta((6 + body.len()) as usize),
        is_frame(meta_frame(body), true),
{
    let f = meta_frame(body);
    reveal(spec_parse);
    assert(f.subrange(0, 4) =~= meta_letters());
    assert(f[4] == (body.len() / 256) as u8 && f[5] == (body.len() % 256) as u8);
    assert(f.len() == 6 + body.len());
}

/// A packet on the wire is dissected as one packet: a traffic packet where its
/// type says so, a reliable one else. Behind the start of a stream this is so
/// of every packet that the address space holds, whatever its bytes. At the
/// start of a stream it is so of every such packet that does not begin with
/// the letters `meta`: there the opening frame comes first.
pub proof fn lemma_packet_frame_parses(kind: u8, body: Seq<u8>, fresh: bool)
    requires
        encoded_len(body.len()) + 1 + body.len() <= usize::MAX,
        !(fresh && has_meta_prefix(packet_frame(kind, body))),
    ensures
        spec_parse(packet_frame(kind, body), fresh) == if kind == TRAFFIC_TYPE {
            Packet::Traffic((encoded_len(body.len()) + 1 + body.len()) as usize)
        } else {
            Packet::Meta((encoded_len(body.len()) + 1 + body.len()) as usize)
        },
        is_frame(packet_frame(kind, body), fresh),
{
    let f = packet_frame(kind, body);
    let n = body.len();
    let k = encoded_len(n);
    reveal(spec_parse);
    lemma_decode_encoded(n as u64, seq![kind] + body);
    lemma_encoding_shape(n, seq![kind] + body);
    assert(f.len() == k + 1 + n);
    assert(f[k as int] == kind);
    if begins_meta(f) {
        assert(f[0] == meta_letters()[0]);
        assert(n < 2);
        assert(f[0] == n as u8);
    }
}

/// The chunks follow one another without gap or overlap from `from` to `to`.
pub open spec fn contiguous(chunks: Seq<Chunk>, from: int, to: int) -> bool
    decreases chunks.len(),
{
    if chunks.len() == 0 {
        from == to
    } else {
        &&& chunks[0].start == from
        &&& from <= chunks[0].end
        &&& contiguous(chunks.drop_first(), chunks[0].end as int, to)
    }
}

/// The chunk is on a channel that the sender's settings allow for it: on the
/// shortcut only a complete traffic packet that fits a datagram, dropped only
/// a longer traffic packet with the fallback switched off.
pub open spec fn well_routed(c: Chunk, buf: Seq<u8>, settings: SendLossy) -> bool {
    let seen = spec_parse(buf.subrange(c.start as int, buf.len() as int), false);
    match c.route {
        Route::Reliable => true,
        Route::Shortcut => seen == Packet::Traffic((c.end - c.start) as usize) && c.end - c.start
            <= settings.udp_mtu,
        Route::Dropped => seen == Packet::Traffic((c.end - c.start) as usize) && c.end - c.start
            > settings.udp_mtu && !settings.fallback_to_reliable,
    }
}

/// Every chunk is on a channel that the sender's settings allow for it.
pub open spec fn routed_by(chunks: Seq<Chunk>, buf: Seq<u8>, settings: SendLossy) -> bool {
    forall|i: int| 0 <= i < chunks.len() ==> well_routed(#[trigger] chunks[i], buf, settings)
}

proof fn lemma_trace_from_covers(
    settings: SendLossy,
    buf: Seq<u8>,
    pos: int,
    skip: usize,
    started: bool,
)
    requires
        0 <= pos <= buf.len() <= usize::MAX,
    ensures
        settings.trace_from(buf, pos, skip, started).left <= buf.len() - pos,
        contiguous(
            settings.trace_from(buf, pos, skip, started).chunks,
            pos,
            buf.len() - settings.trace_from(buf, pos, skip, started).left,
        ),
        routed_by(settings.trace_from(buf, pos, skip, started).chunks, buf, settings),
    decreases buf.len() - pos,
{
    let end = buf.len() as int;
    let t = settings.trace_from(buf, pos, skip, started);
    reveal_with_fuel(contiguous, 2);
    reveal_with_fuel(SendLossy::trace_from, 1);
    if pos < end {
        if skip != 0 {
            let n = if skip <= end - pos {
                skip as int
            } else {
                end - pos
            };
            let next = settings.trace_from(buf, pos + n, (skip - n) as usize, true);
            lemma_trace_from_covers(settings, buf, pos + n, (skip - n) as usize, true);
            assert(t.chunks.drop_first() =~= next.chunks);
            assert forall|i: int| 0 <= i < t.chunks.len() implies well_routed(
                #[trigger] t.chunks[i],
                buf,
                settings,
            ) by {
                if i > 0 {
                    assert(t.chunks[i] == next.chunks[i - 1]);
                }
            }
        } else {
            lemma_parse_bounds(buf.subrange(pos, end), !started);
            match spec_parse(buf.subrange(pos, end), !started) {
                Packet::Traffic(n) | Packet::Meta(n) => {
                    let next = settings.trace_from(buf, pos + n, 0, true);
                    lemma_trace_from_covers(settings, buf, pos + n, 0, true);
                    assert(t.chunks.drop_first() =~= next.chunks);
                    if spec_parse(buf.subrange(pos, end), !started) is Traffic {
                        lemma_traffic_anywhere(buf.subrange(pos, end), !started);
                    }
                    assert forall|i: int| 0 <= i < t.chunks.len() implies well_routed(
                        #[trigger] t.chunks[i],
                        buf,
                        settings,
                    ) by {
                        if i > 0 {
                            assert(t.chunks[i] == next.chunks[i - 1]);
                        }
                    }
                },
                Packet::Invalid | Packet::Truncated(_) => {
                    assert(t.chunks.drop_first() =~= Seq::<Chunk>::empty());
                },
                Packet::TruncatedHeader => {},
            }
        }
    }
}

/// The sender loses no byte and sends none twice: the chunks of a plan follow
/// one another from the buffer's start to the bytes that it leaves for the
/// next read, and each is on a channel that the settings allow. With the
/// fallback switched on no chunk is dropped.
pub proof fn lemma_send_covers(sender: SendLossy, buf: Seq<u8>)
    requires
        buf.len() <= usize::MAX,
    ensures
        sender.trace(buf).left <= buf.len(),
        contiguous(sender.trace(buf).chunks, 0, buf.len() - sender.trace(buf).left),
        routed_by(sender.trace(buf).chunks, buf, sender.settings()),
        sender.fallback_to_reliable ==> forall|i: int|
            0 <= i < sender.trace(buf).chunks.len() ==> (#[trigger] sender.trace(
                buf,
            ).chunks[i]).route != Route::Dropped,
{
    if sender.permanent_fallback {
        let t = sender.trace(buf);
        reveal_with_fuel(contiguous, 2);
        assert(t.chunks.drop_first() =~= Seq::<Chunk>::empty());
    } else {
        lemma_trace_from_covers(sender.settings(), buf, 0, sender.skip, sender.started);
        let t = sender.trace(buf);
        assert forall|i: int| 0 <= i < t.chunks.len() && sender.fallback_to_reliable implies (
        #[trigger] t.chunks[i]).route != Route::Dropped by {
            assert(well_routed(t.chunks[i], buf, sender.settings()));
        }
    }
}

/// A packet that is complete in `buf` stands from `from` to `at`.
pub open spec fn packet_between(buf: Seq<u8>, from: int, at: int) -> bool {
    let rest = buf.subrange(from, buf.len() as int);
    ||| (is_complete(spec_parse(rest, true)) && from + packet_len(spec_parse(rest, true)) == at)
    ||| (is_complete(spec_parse(rest, false)) && from + packet_len(spec_parse(rest, false)) == at)
}

/// The length that a packet has or announces.
pub open spec fn packet_len(p: Packet) -> int {
    match p {
        Packet::Traffic(n) | Packet::Meta(n) | Packet::Truncated(n) => n as int,
        _ => 0,
    }
}

/// A backlog is written only where one waited, and right behind a packet
/// that is complete in the buffer, between `pos` and the end of what is written.
pub open spec fn flushed_behind_packet(
    buf: Seq<u8>,
    pos: int,
    pending: bool,
    flush_at: Option<int>,
    end: int,
) -> bool {
    match flush_at {
        Some(at) => pending && pos < at <= end && exists|from: int|
            pos <= from < at && #[trigger] packet_between(buf, from, at),
        None => true,
    }
}

proof fn lemma_receive_from_bounds(
    buf: Seq<u8>,
    pos: int,
    skip: usize,
    pending: bool,
    started: bool,
)
    requires
        0 <= pos <= buf.len(),
    ensures
        pos <= receive_from(buf, pos, skip, pending, started).end <= buf.len(),
        flushed_behind_packet(
            buf,
            pos,
            pending,
            receive_from(buf, pos, skip, pending, started).flush_at,
            receive_from(buf, pos, skip, pending, started).end,
        ),
    decreases buf.len() - pos,
{
    let end = buf.len() as int;
    reveal_with_fuel(receive_from, 1);
    if pos < end {
        if skip != 0 {
            let n = if skip <= end - pos {
                skip as int
            } else {
                end - pos
            };
            lemma_receive_from_bounds(buf, pos + n, (skip - n) as usize, pending, true);
            let pass = receive_from(buf, pos, skip, pending, started);
            let next = receive_from(buf, pos + n, (skip - n) as usize, pending, true);
            assert(pass == next);
            match next.flush_at {
                Some(at) => {
                    let from = choose|from: int|
                        pos + n <= from < at && #[trigger] packet_between(buf, from, at);
                    assert(pos <= from < at && packet_between(buf, from, at));
                    assert(exists|from: int|
                        pos <= from < at && #[trigger] packet_between(buf, from, at));
                },
                None => {},
            }
        } else {
            lemma_parse_bounds(buf.subrange(pos, end), !started);
            match spec_parse(buf.subrange(pos, end), !started) {
                Packet::Traffic(n) | Packet::Meta(n) => {
                    lemma_receive_from_bounds(buf, pos + n, 0, false, true);
                    lemma_no_second_flush(buf, pos + n, 0, true);
                    if pending {
                        let rest = buf.subrange(pos, end);
                        let seen = spec_parse(rest, !started);
                        assert(is_complete(seen) && packet_len(seen) == n);
                        if started {
                            assert(is_complete(spec_parse(rest, false)) && pos + packet_len(
                                spec_parse(rest, false),
                            ) == pos + n);
                        } else {
                            assert(is_complete(spec_parse(rest, true)) && pos + packet_len(
                                spec_parse(rest, true),
                            ) == pos + n);
                        }
                        assert(packet_between(buf, pos, pos + n));
                        let pass = receive_from(buf, pos, skip, pending, started);
                        assert(pass.flush_at == Some(pos + n));
                        assert(pos + n <= pass.end);
                        assert(pos <= pos < pos + n && packet_between(buf, pos, pos + n));
                        assert(exists|from: int|
                            pos <= from < pos + n && #[trigger] packet_between(buf, from, pos + n));
                    } else {
                        let pass = receive_from(buf, pos, skip, pending, started);
                        assert(pass == receive_from(buf, pos + n, 0, false, true));
                        assert(pass.flush_at is None);
                    }
                },
                _ => {},
            }
        }
    }
}

/// The receiver writes the bytes of the reliable channel in their order, up
/// to the ones that it leaves for the next read, and puts the backlog of
/// shortcut packets nowhere but right behind a packet that this pass found
/// complete: no packet of the reliable channel is split by it.
pub proof fn lemma_backlog_at_boundary(receiver: ReceiveLossy, buf: Seq<u8>)
    ensures
        0 <= receiver.trace(buf).end <= buf.len(),
        flushed_behind_packet(
            buf,
            0,
            receiver.backlog@.len() > 0,
            receiver.trace(buf).flush_at,
            receiver.trace(buf).end,
        ),
{
    if !receiver.permanent_fallback {
        lemma_receive_from_bounds(
            buf,
            0,
            receiver.skip,
            receiver.backlog@.len() > 0,
            receiver.started,
        );
    }
}

/// Where the first `j` frames end in the stream that they make.
pub open spec fn boundary(frames: Seq<Seq<u8>>, j: int) -> int
    decreases j,
{
    if j <= 0 || frames.len() == 0 {
        0
    } else {
        frames[0].len() + boundary(frames.drop_first(), j - 1)
    }
}

/// The frames lie in their stream one after the other.
pub proof fn lemma_stream_layout(frames: Seq<Seq<u8>>, j: int)
    requires
        0 <= j < frames.len(),
    ensures
        0 <= boundary(frames, j),
        boundary(frames, j + 1) == boundary(frames, j) + frames[j].len(),
        boundary(frames, j + 1) <= joined(frames).len(),
        joined(frames).subrange(boundary(frames, j), boundary(frames, j + 1)) == frames[j],
        boundary(frames, frames.len() as int) == joined(frames).len(),
    decreases frames.len(),
{
    let rest = frames.drop_first();
    lemma_stream_end(frames);
    if j == 0 {
        assert(boundary(frames, 1) == frames[0].len() + boundary(rest, 0));
        assert(joined(frames).subrange(0, frames[0].len() as int) =~= frames[0]);
    } else {
        lemma_stream_layout(rest, j - 1);
        assert(rest[j - 1] == frames[j]);
        assert(boundary(frames, j + 1) == frames[0].len() + boundary(rest, j));
        assert(boundary(frames, j) == frames[0].len() + boundary(rest, j - 1));
        assert(joined(frames).subrange(boundary(frames, j), boundary(frames, j + 1)) =~= joined(
            rest,
        ).subrange(boundary(rest, j - 1), boundary(rest, j)));
    }
}

/// The last frame ends where the stream ends.
pub proof fn lemma_stream_end(frames: Seq<Seq<u8>>)
    ensures
        boundary(frames, frames.len() as int) == joined(frames).len(),
    decreases frames.len(),
{
    if frames.len() > 0 {
        lemma_stream_end(frames.drop_first());
    }
}

/// What the dissector finds in a window of a stream of frames that starts
/// where frame `j` starts and ends at `e`, wherever that is: the frame itself
/// where the window holds all of it, and else the beginning of the frame, for
/// which it asks for more bytes or announces the frame's length.
pub proof fn lemma_window(frames: Seq<Seq<u8>>, j: int, e: int)
    requires
        all_frames(frames),
        0 <= j <= frames.len(),
        boundary(frames, j) <= e <= joined(frames).len(),
    ensures
        ({
            let seen = spec_parse(joined(frames).subrange(boundary(frames, j), e), j == 0);
            if j < frames.len() && e >= boundary(frames, j + 1) {
                seen == spec_parse(frames[j], j == 0) && is_complete(seen)
            } else {
                seen is TruncatedHeader || (j < frames.len() && seen == Packet::Truncated(
                    frames[j].len() as usize,
                ))
            }
        }),
{
    let stream = joined(frames);
    let from = boundary(frames, j);
    let window = stream.subrange(from, e);
    lemma_stream_end(frames);
    if j == frames.len() {
        reveal(spec_parse);
        assert(window.len() == 0);
        assert forall|i: int| !varint_ends_at(window, i) by {}
    } else {
        lemma_stream_layout(frames, j);
        let f = frames[j];
        let to = boundary(frames, j + 1);
        assert(is_frame(f, j == 0));
        if e >= to {
            assert(window =~= f + stream.subrange(to, e));
            lemma_parse_ignores_rest(f, stream.subrange(to, e), j == 0);
        } else {
            assert(window =~= f.subrange(0, e - from));
            lemma_cut_frame_announces(f, e - from, j == 0);
        }
    }
}

/// The receiver keeps in step with the frames of the reliable channel,
/// however the channel cuts them into buffers. Take a stream of frames and a
/// buffer that holds the bytes `base..base + len` of it, and let the
/// receiver stand `skip` bytes before the end of a frame at the place `pos` of
/// the buffer, knowing that the start of the stream lies behind unless it
/// stands there. Then the pass does not fail, it ends with the receiver
/// standing before the end of a frame again, and a backlog of shortcut
/// packets is written at the end of a frame and nowhere else.
pub proof fn lemma_receive_keeps_step(
    frames: Seq<Seq<u8>>,
    j: int,
    base: int,
    len: int,
    pos: int,
    skip: usize,
    pending: bool,
)
    requires
        all_frames(frames),
        0 <= j <= frames.len(),
        0 <= base,
        0 <= pos <= len,
        base + len <= joined(frames).len(),
        base + pos + skip == boundary(frames, j),
    ensures
        ({
            let pass = receive_from(
                joined(frames).subrange(base, base + len),
                pos,
                skip,
                pending,
                j > 0,
            );
            &&& !pass.permanent_fallback
            &&& pos <= pass.end <= len
            &&& pass.skip > 0 ==> pass.end == len
            &&& exists|k: int|
                j <= k <= frames.len() && pass.started == (k > 0) && base + pass.end + pass.skip
                    == #[trigger] boundary(frames, k)
            &&& match pass.flush_at {
                Some(at) => pending && exists|k: int|
                    j < k <= frames.len() && base + at == #[trigger] boundary(frames, k),
                None => true,
            }
        }),
    decreases len - pos,
{
    let stream = joined(frames);
    let buf = stream.subrange(base, base + len);
    let pass = receive_from(buf, pos, skip, pending, j > 0);
    reveal_with_fuel(receive_from, 1);
    if pos >= len {
        assert(pass.started == (j > 0) && base + pass.end + pass.skip == boundary(frames, j));
    } else if skip != 0 {
        let n = if skip <= len - pos {
            skip as int
        } else {
            len - pos
        };
        assert(j > 0);
        lemma_receive_keeps_step(frames, j, base, len, pos + n, (skip - n) as usize, pending);
    } else {
        assert(buf.subrange(pos, len) =~= stream.subrange(boundary(frames, j), base + len));
        lemma_window(frames, j, base + len);
        lemma_parse_bounds(buf.subrange(pos, len), j == 0);
        if j < frames.len() {
            lemma_stream_layout(frames, j);
        }
        match spec_parse(buf.subrange(pos, len), j == 0) {
            Packet::Traffic(n) | Packet::Meta(n) => {
                lemma_parse_bounds(frames[j], j == 0);
                assert(n == frames[j].len());
                lemma_receive_keeps_step(frames, j + 1, base, len, pos + n, 0, false);
                lemma_no_second_flush(buf, pos + n, 0, true);
                if pending {
                    assert(base + (pos + n) == boundary(frames, j + 1));
                }
                let later = receive_from(buf, pos + n, 0, false, true);
                let k = choose|k: int|
                    j + 1 <= k <= frames.len() && later.started == (k > 0) && base + later.end
                        + later.skip == #[trigger] boundary(frames, k);
                assert(j <= k <= frames.len() && pass.started == (k > 0) && base + pass.end
                    + pass.skip == boundary(frames, k));
            },
            Packet::TruncatedHeader => {
                assert(pass.started == (j > 0) && base + pass.end + pass.skip == boundary(
                    frames,
                    j,
                ));
            },
            Packet::Truncated(n) => {
                assert(pass.started == (j + 1 > 0) && base + pass.end + pass.skip == boundary(
                    frames,
                    j + 1,
                ));
            },
            Packet::Invalid => {},
        }
    }
}

/// The chunk, of a buffer that starts at `base` in the stream, is one frame of
/// traffic and nothing else.
pub open spec fn is_traffic_frame(frames: Seq<Seq<u8>>, base: int, chunk: Chunk) -> bool {
    exists|k: int|
        0 <= k < frames.len() && base + chunk.start == #[trigger] boundary(frames, k) && base
            + chunk.end == boundary(frames, k + 1) && spec_parse(frames[k], k == 0) is Traffic
}

/// Every chunk that does not take the reliable channel is one frame of traffic.
pub open spec fn only_frames_bypass(frames: Seq<Seq<u8>>, base: int, chunks: Seq<Chunk>) -> bool {
    forall|i: int|
        0 <= i < chunks.len() && (#[trigger] chunks[i]).route != Route::Reliable
            ==> is_traffic_frame(frames, base, chunks[i])
}

/// The sender keeps in step with the frames of the router's stream, however
/// the stream is cut into buffers. Take a stream of frames and a buffer that
/// holds the bytes `base..base + len` of it, and let the sender stand `skip`
/// bytes before the end of a frame at the place `pos` of the buffer, knowing
/// that the start of the stream lies behind unless it stands there. Then the
/// plan does not fall back, it ends with the sender standing before the end
/// of a frame again, and whatever bypasses the reliable channel is one whole
/// frame of traffic: no datagram of the shortcut holds less or more.
#[verifier::rlimit(60)]
pub proof fn lemma_send_keeps_step(
    settings: SendLossy,
    frames: Seq<Seq<u8>>,
    j: int,
    base: int,
    len: int,
    pos: int,
    skip: usize,
)
    requires
        all_frames(frames),
        0 <= j <= frames.len(),
        0 <= base,
        0 <= pos <= len <= usize::MAX,
        base + len <= joined(frames).len(),
        base + pos + skip == boundary(frames, j),
    ensures
        ({
            let plan = settings.trace_from(
                joined(frames).subrange(base, base + len),
                pos,
                skip,
                j > 0,
            );
            &&& !plan.permanent_fallback
            &&& plan.left <= len - pos
            &&& plan.skip > 0 ==> plan.left == 0
            &&& exists|k: int|
                j <= k <= frames.len() && plan.started == (k > 0) && base + len - plan.left
                    + plan.skip == #[trigger] boundary(frames, k)
            &&& only_frames_bypass(frames, base, plan.chunks)
        }),
    decreases len - pos,
{
    let stream = joined(frames);
    let buf = stream.subrange(base, base + len);
    let plan = settings.trace_from(buf, pos, skip, j > 0);
    reveal_with_fuel(SendLossy::trace_from, 1);
    if pos >= len {
        assert(plan.started == (j > 0) && base + len - plan.left + plan.skip == boundary(
            frames,
            j,
        ));
    } else if skip != 0 {
        let n = if skip <= len - pos {
            skip as int
        } else {
            len - pos
        };
        assert(j > 0);
        let next = settings.trace_from(buf, pos + n, (skip - n) as usize, true);
        lemma_send_keeps_step(settings, frames, j, base, len, pos + n, (skip - n) as usize);
        assert forall|i: int|
            0 <= i < plan.chunks.len() && (#[trigger] plan.chunks[i]).route
                != Route::Reliable implies is_traffic_frame(frames, base, plan.chunks[i]) by {
            assert(plan.chunks[i] == next.chunks[i - 1]);
        }
    } else {
        assert(buf.subrange(pos, len) =~= stream.subrange(boundary(frames, j), base + len));
        lemma_window(frames, j, base + len);
        lemma_parse_bounds(buf.subrange(pos, len), j == 0);
        if j < frames.len() {
            lemma_stream_layout(frames, j);
        }
        match spec_parse(buf.subrange(pos, len), j == 0) {
            Packet::Traffic(n) | Packet::Meta(n) => {
                lemma_parse_bounds(frames[j], j == 0);
                assert(n == frames[j].len());
                let next = settings.trace_from(buf, pos + n, 0, true);
                lemma_send_keeps_step(settings, frames, j + 1, base, len, pos + n, 0);
                let k = choose|k: int|
                    j + 1 <= k <= frames.len() && next.started == (k > 0) && base + len
                        - next.left + next.skip == #[trigger] boundary(frames, k);
                assert(j <= k <= frames.len() && plan.started == (k > 0) && base + len
                    - plan.left + plan.skip == boundary(frames, k));
                assert forall|i: int|
                    0 <= i < plan.chunks.len() && (#[trigger] plan.chunks[i]).route
                        != Route::Reliable implies is_traffic_frame(
                    frames,
                    base,
                    plan.chunks[i],
                ) by {
                    if i > 0 {
                        assert(plan.chunks[i] == next.chunks[i - 1]);
                    } else {
                        assert(base + plan.chunks[0].start == boundary(frames, j));
                        assert(base + plan.chunks[0].end == boundary(frames, j + 1));
                        assert(spec_parse(frames[j], j == 0) is Traffic);
                    }
                }
            },
            Packet::TruncatedHeader => {
                assert(plan.started == (j > 0) && base + len - plan.left + plan.skip == boundary(
                    frames,
                    j,
                ));
            },
            Packet::Truncated(n) => {
                assert(plan.started == (j + 1 > 0) && base + len - plan.left + plan.skip
                    == boundary(frames, j + 1));
            },
            Packet::Invalid => {},
        }
    }
}

/// The receiving side as the laws see it: the state of a `ReceiveLossy`, and
/// the bytes of the reliable channel that its last pass left for the next.
pub struct Hearer {
    pub peer_conv: u32,
    pub backlog: Seq<u8>,
    pub skip: usize,
    pub permanent_fallback: bool,
    pub started: bool,
    pub kept: Seq<u8>,
}

impl Hearer {
    /// A receiver before the first byte.
    pub open spec fn fresh(peer_conv: u32) -> Hearer {
        Hearer {
            peer_conv,
            backlog: seq![],
            skip: 0,
            permanent_fallback: false,
            started: false,
            kept: seq![],
        }
    }

    /// Whether the datagram is taken as a shortcut packet, as `recv_lossy` decides.
    pub open spec fn accepts(self, datagram: Seq<u8>) -> bool {
        &&& !self.permanent_fallback
        &&& !starts_with(datagram, conv_header(self.peer_conv))
        &&& spec_parse(datagram, false) is Traffic
    }

    /// What the router gets of a datagram of the shortcut at once.
    pub open spec fn forwards(self, datagram: Seq<u8>) -> Seq<u8> {
        if self.accepts(datagram) && self.skip == 0 {
            datagram
        } else {
            seq![]
        }
    }

    /// The receiver after a datagram of the shortcut.
    pub open spec fn after_datagram(self, datagram: Seq<u8>) -> Hearer {
        if self.accepts(datagram) && self.skip != 0 {
            Hearer { backlog: self.backlog + datagram, ..self }
        } else {
            self
        }
    }

    /// What the router gets when `bytes` arrive on the reliable channel, as
    /// `read_reliable` plans it for the bytes that were kept and the new ones.
    pub open spec fn writes(self, bytes: Seq<u8>) -> Seq<u8> {
        let got = self.kept + bytes;
        if self.permanent_fallback {
            got
        } else {
            let pass = receive_from(got, 0, self.skip, self.backlog.len() > 0, self.started);
            match pass.flush_at {
                Some(at) => got.subrange(0, at) + self.backlog + got.subrange(at, pass.end),
                None => got.subrange(0, pass.end),
            }
        }
    }

    /// The receiver after `bytes` arrived on the reliable channel.
    pub open spec fn after_bytes(self, bytes: Seq<u8>) -> Hearer {
        let got = self.kept + bytes;
        if self.permanent_fallback {
            Hearer { kept: seq![], ..self }
        } else {
            let pass = receive_from(got, 0, self.skip, self.backlog.len() > 0, self.started);
            Hearer {
                peer_conv: self.peer_conv,
                backlog: if pass.flush_at is Some || pass.permanent_fallback {
                    seq![]
                } else {
                    self.backlog
                },
                skip: pass.skip,
                permanent_fallback: pass.permanent_fallback,
                started: pass.started,
                kept: got.subrange(pass.end, got.len() as int),
            }
        }
    }
}

/// What the router gets when the chunks of a plan for `buf` reach the
/// receiver one by one in the plan's order, none lost: a chunk of the
/// shortcut as a datagram, one of the reliable channel as bytes of that
/// channel; a dropped chunk does not reach it.
pub open spec fn relayed(chunks: Seq<Chunk>, buf: Seq<u8>, hearer: Hearer) -> Seq<u8>
    decreases chunks.len(),
{
    if chunks.len() == 0 {
        seq![]
    } else {
        let bytes = buf.subrange(chunks[0].start as int, chunks[0].end as int);
        match chunks[0].route {
            Route::Dropped => relayed(chunks.drop_first(), buf, hearer),
            Route::Shortcut => hearer.forwards(bytes) + relayed(
                chunks.drop_first(),
                buf,
                hearer.after_datagram(bytes),
            ),
            Route::Reliable => hearer.writes(bytes) + relayed(
                chunks.drop_first(),
                buf,
                hearer.after_bytes(bytes),
            ),
        }
    }
}

/// A receiver that stands between two packets, with nothing kept and no
/// backlog, writes a frame of the reliable channel as it is and stands
/// between two packets again.
pub proof fn lemma_receive_whole_frame(f: Seq<u8>, fresh: bool)
    requires
        is_frame(f, fresh),
    ensures
        receive_from(f, 0, 0, false, !fresh) == (ReceiveTrace {
            flush_at: None,
            end: f.len() as int,
            skip: 0,
            permanent_fallback: false,
            started: true,
        }),
{
    reveal_with_fuel(receive_from, 2);
    lemma_parse_bounds(f, fresh);
    assert(f.subrange(0, f.len() as int) =~= f);
}

/// No frame of traffic looks like a datagram of the reliable channel, and
/// the stream does not open with traffic.
pub open spec fn shortcut_is_told_apart(frames: Seq<Seq<u8>>, peer_conv: u32) -> bool {
    &&& forall|i: int|
        0 <= i < frames.len() && spec_parse(#[trigger] frames[i], i == 0) is Traffic
            ==> !starts_with(frames[i], conv_header(peer_conv))
    &&& frames.len() > 0 ==> !(spec_parse(frames[0], true) is Traffic)
}

/// The receiver after the chunks of a plan for `buf` reached it one by one
/// in the plan's order.
pub open spec fn hearer_after(chunks: Seq<Chunk>, buf: Seq<u8>, hearer: Hearer) -> Hearer
    decreases chunks.len(),
{
    if chunks.len() == 0 {
        hearer
    } else {
        let bytes = buf.subrange(chunks[0].start as int, chunks[0].end as int);
        match chunks[0].route {
            Route::Dropped => hearer_after(chunks.drop_first(), buf, hearer),
            Route::Shortcut => hearer_after(chunks.drop_first(), buf, hearer.after_datagram(bytes)),
            Route::Reliable => hearer_after(chunks.drop_first(), buf, hearer.after_bytes(bytes)),
        }
    }
}

/// A receiver that has kept nothing and has no backlog, standing where the
/// sender stands: `skip` bytes before the end of a packet.
pub open spec fn hearer_in_step(peer_conv: u32, skip: usize, started: bool) -> Hearer {
    Hearer { skip, started, ..Hearer::fresh(peer_conv) }
}

proof fn lemma_receive_skipped(bytes: Seq<u8>, skip: usize, started: bool)
    requires
        0 < bytes.len() <= skip,
    ensures
        receive_from(bytes, 0, skip, false, started) == (ReceiveTrace {
            flush_at: None,
            end: bytes.len() as int,
            skip: (skip - bytes.len()) as usize,
            permanent_fallback: false,
            started: true,
        }),
{
    reveal_with_fuel(receive_from, 2);
}

proof fn lemma_receive_cut_frame(bytes: Seq<u8>, n: usize, fresh: bool)
    requires
        spec_parse(bytes, fresh) == Packet::Truncated(n),
        bytes.len() > 0,
    ensures
        receive_from(bytes, 0, 0, false, !fresh) == (ReceiveTrace {
            flush_at: None,
            end: bytes.len() as int,
            skip: (n - bytes.len()) as usize,
            permanent_fallback: false,
            started: true,
        }),
{
    reveal_with_fuel(receive_from, 1);
    assert(bytes.subrange(0, bytes.len() as int) =~= bytes);
}

proof fn lemma_hear_skipped(peer_conv: u32, bytes: Seq<u8>, skip: usize)
    requires
        0 < bytes.len() <= skip,
    ensures
        hearer_in_step(peer_conv, skip, true).writes(bytes) == bytes,
        hearer_in_step(peer_conv, skip, true).after_bytes(bytes) == hearer_in_step(
            peer_conv,
            (skip - bytes.len()) as usize,
            true,
        ),
{
    let hearer = hearer_in_step(peer_conv, skip, true);
    lemma_receive_skipped(bytes, skip, true);
    assert(hearer.kept + bytes =~= bytes);
    assert(bytes.subrange(0, bytes.len() as int) =~= bytes);
    assert(bytes.subrange(bytes.len() as int, bytes.len() as int) =~= Seq::<u8>::empty());
}

proof fn lemma_hear_frame(peer_conv: u32, f: Seq<u8>, fresh: bool)
    requires
        is_frame(f, fresh),
    ensures
        hearer_in_step(peer_conv, 0, !fresh).writes(f) == f,
        hearer_in_step(peer_conv, 0, !fresh).after_bytes(f) == hearer_in_step(peer_conv, 0, true),
{
    let hearer = hearer_in_step(peer_conv, 0, !fresh);
    lemma_receive_whole_frame(f, fresh);
    assert(hearer.kept + f =~= f);
    assert(f.subrange(0, f.len() as int) =~= f);
    assert(f.subrange(f.len() as int, f.len() as int) =~= Seq::<u8>::empty());
}

proof fn lemma_hear_cut_frame(peer_conv: u32, bytes: Seq<u8>, n: usize, fresh: bool)
    requires
        spec_parse(bytes, fresh) == Packet::Truncated(n),
        bytes.len() > 0,
    ensures
        hearer_in_step(peer_conv, 0, !fresh).writes(bytes) == bytes,
        hearer_in_step(peer_conv, 0, !fresh).after_bytes(bytes) == hearer_in_step(
            peer_conv,
            (n - bytes.len()) as usize,
            true,
        ),
{
    let hearer = hearer_in_step(peer_conv, 0, !fresh);
    lemma_receive_cut_frame(bytes, n, fresh);
    assert(hearer.kept + bytes =~= bytes);
    assert(bytes.subrange(0, bytes.len() as int) =~= bytes);
    assert(bytes.subrange(bytes.len() as int, bytes.len() as int) =~= Seq::<u8>::empty());
}

proof fn lemma_hear_datagram(peer_conv: u32, f: Seq<u8>)
    requires
        spec_parse(f, false) is Traffic,
        !starts_with(f, conv_header(peer_conv)),
    ensures
        hearer_in_step(peer_conv, 0, true).forwards(f) == f,
        hearer_in_step(peer_conv, 0, true).after_datagram(f) == hearer_in_step(peer_conv, 0, true),
{
}

/// What reaches the router of a plan is what reaches it of the plan's first
/// chunk and then of the rest.
proof fn lemma_relay_first(chunk: Chunk, rest: Seq<Chunk>, buf: Seq<u8>, hearer: Hearer)
    ensures
        ({
            let bytes = buf.subrange(chunk.start as int, chunk.end as int);
            let all = seq![chunk] + rest;
            match chunk.route {
                Route::Dropped => relayed(all, buf, hearer) == relayed(rest, buf, hearer)
                    && hearer_after(all, buf, hearer) == hearer_after(rest, buf, hearer),
                Route::Shortcut => relayed(all, buf, hearer) == hearer.forwards(bytes) + relayed(
                    rest,
                    buf,
                    hearer.after_datagram(bytes),
                ) && hearer_after(all, buf, hearer) == hearer_after(
                    rest,
                    buf,
                    hearer.after_datagram(bytes),
                ),
                Route::Reliable => relayed(all, buf, hearer) == hearer.writes(bytes) + relayed(
                    rest,
                    buf,
                    hearer.after_bytes(bytes),
                ) && hearer_after(all, buf, hearer) == hearer_after(
                    rest,
                    buf,
                    hearer.after_bytes(bytes),
                ),
            }
        }),
{
    let all = seq![chunk] + rest;
    assert(all.drop_first() =~= rest);
    assert(all[0] == chunk);
}

/// What a pass of the sender hands to the receiver, and how it leaves it.
pub open spec fn relay_in_step(
    settings: SendLossy,
    buf: Seq<u8>,
    pos: int,
    skip: usize,
    started: bool,
    peer_conv: u32,
) -> bool {
    let plan = settings.trace_from(buf, pos, skip, started);
    let hearer = hearer_in_step(peer_conv, skip, started);
    &&& plan.left <= buf.len() - pos
    &&& relayed(plan.chunks, buf, hearer) == buf.subrange(pos, buf.len() - plan.left)
    &&& hearer_after(plan.chunks, buf, hearer) == hearer_in_step(
        peer_conv,
        plan.skip,
        plan.started,
    )
}

proof fn lemma_relay_chunk(
    settings: SendLossy,
    buf: Seq<u8>,
    pos: int,
    skip: usize,
    started: bool,
    peer_conv: u32,
    chunk: Chunk,
    next_skip: usize,
)
    requires
        0 <= pos < chunk.end <= buf.len() <= usize::MAX,
        chunk.start == pos,
        settings.trace_from(buf, pos, skip, started) == settings.trace_from(
            buf,
            chunk.end as int,
            next_skip,
            true,
        ).after(chunk),
        relay_in_step(settings, buf, chunk.end as int, next_skip, true, peer_conv),
        chunk.route != Route::Dropped,
        chunk.route == Route::Shortcut ==> hearer_in_step(peer_conv, skip, started).forwards(
            buf.subrange(pos, chunk.end as int),
        ) == buf.subrange(pos, chunk.end as int) && hearer_in_step(
            peer_conv,
            skip,
            started,
        ).after_datagram(buf.subrange(pos, chunk.end as int)) == hearer_in_step(
            peer_conv,
            next_skip,
            true,
        ),
        chunk.route == Route::Reliable ==> hearer_in_step(peer_conv, skip, started).writes(
            buf.subrange(pos, chunk.end as int),
        ) == buf.subrange(pos, chunk.end as int) && hearer_in_step(
            peer_conv,
            skip,
            started,
        ).after_bytes(buf.subrange(pos, chunk.end as int)) == hearer_in_step(
            peer_conv,
            next_skip,
            true,
        ),
    ensures
        relay_in_step(settings, buf, pos, skip, started, peer_conv),
{
    let plan = settings.trace_from(buf, pos, skip, started);
    let next = settings.trace_from(buf, chunk.end as int, next_skip, true);
    let hearer = hearer_in_step(peer_conv, skip, started);
    lemma_relay_first(chunk, next.chunks, buf, hearer);
    assert(plan.chunks == seq![chunk] + next.chunks);
    let bytes = buf.subrange(pos, chunk.end as int);
    assert(bytes + buf.subrange(chunk.end as int, buf.len() - next.left) =~= buf.subrange(
        pos,
        buf.len() - plan.left,
    ));
}

/// One pass of the sender, whatever part of the stream its buffer holds,
/// leaves the router with the very bytes that the pass consumed, and the
/// receiver in step with the sender. Take a stream of frames that opens with
/// a packet of the reliable kind and none of whose frames of traffic looks
/// like a datagram of the reliable channel, a sender that drops nothing, and
/// a buffer that holds the bytes `base..base + len` of the stream; let sender
/// and receiver stand `skip` bytes before the end of a frame at the place
/// `pos` of the buffer. When the chunks of the plan reach the receiver one
/// by one in the plan's order, the router gets the bytes from `pos` up to the
/// ones that the plan leaves for the next buffer, and the receiver then
/// stands where the sender stands. Pass after pass, the router so gets the
/// stream byte for byte, however the stream is cut into buffers.
pub proof fn lemma_relay_keeps_step(
    settings: SendLossy,
    frames: Seq<Seq<u8>>,
    j: int,
    base: int,
    len: int,
    pos: int,
    skip: usize,
    peer_conv: u32,
)
    requires
        all_frames(frames),
        0 <= j <= frames.len(),
        0 <= base,
        0 <= pos <= len <= usize::MAX,
        base + len <= joined(frames).len(),
        base + pos + skip == boundary(frames, j),
        settings.fallback_to_reliable,
        shortcut_is_told_apart(frames, peer_conv),
    ensures
        relay_in_step(
            settings,
            joined(frames).subrange(base, base + len),
            pos,
            skip,
            j > 0,
            peer_conv,
        ),
    decreases len - pos,
{
    let stream = joined(frames);
    let buf = stream.subrange(base, base + len);
    let plan = settings.trace_from(buf, pos, skip, j > 0);
    if pos >= len {
        assert(plan.chunks =~= Seq::<Chunk>::empty() && plan.left == 0 && plan.skip == skip
            && plan.started == (j > 0)) by {
            reveal_with_fuel(SendLossy::trace_from, 1);
        }
        assert(buf.subrange(pos, len) =~= Seq::<u8>::empty());
    } else if skip != 0 {
        let n = if skip <= len - pos {
            skip as int
        } else {
            len - pos
        };
        assert(j > 0);
        let chunk = Chunk { route: Route::Reliable, start: pos as usize, end: (pos + n) as usize };
        assert(plan == settings.trace_from(buf, pos + n, (skip - n) as usize, true).after(
            chunk,
        )) by {
            reveal_with_fuel(SendLossy::trace_from, 1);
        }
        lemma_relay_keeps_step(
            settings,
            frames,
            j,
            base,
            len,
            pos + n,
            (skip - n) as usize,
            peer_conv,
        );
        lemma_hear_skipped(peer_conv, buf.subrange(pos, pos + n), skip);
        lemma_relay_chunk(settings, buf, pos, skip, true, peer_conv, chunk, (skip - n) as usize);
    } else {
        let window = buf.subrange(pos, len);
        assert(window =~= stream.subrange(boundary(frames, j), base + len));
        lemma_window(frames, j, base + len);
        lemma_parse_bounds(window, j == 0);
        if j < frames.len() {
            lemma_stream_layout(frames, j);
        }
        match spec_parse(window, j == 0) {
            Packet::Traffic(n) | Packet::Meta(n) => {
                let f = frames[j];
                lemma_parse_bounds(f, j == 0);
                assert(n == f.len());
                let route = if spec_parse(window, j == 0) is Traffic {
                    settings.traffic_route(n)
                } else {
                    Route::Reliable
                };
                let chunk = Chunk { route, start: pos as usize, end: (pos + n) as usize };
                assert(plan == settings.trace_from(buf, pos + n, 0, true).after(chunk)) by {
                    reveal_with_fuel(SendLossy::trace_from, 1);
                }
                lemma_relay_keeps_step(settings, frames, j + 1, base, len, pos + n, 0, peer_conv);
                assert(buf.subrange(pos, pos + n) =~= f);
                if route == Route::Shortcut {
                    assert(j > 0);
                    lemma_traffic_anywhere(f, j == 0);
                    lemma_hear_datagram(peer_conv, f);
                } else {
                    lemma_hear_frame(peer_conv, f, j == 0);
                }
                lemma_relay_chunk(settings, buf, pos, 0, j > 0, peer_conv, chunk, 0);
            },
            Packet::TruncatedHeader => {
                assert(plan.chunks =~= Seq::<Chunk>::empty() && plan.left == len - pos
                    && plan.skip == 0 && plan.started == (j > 0)) by {
                    reveal_with_fuel(SendLossy::trace_from, 1);
                }
                assert(buf.subrange(pos, pos) =~= Seq::<u8>::empty());
            },
            Packet::Truncated(n) => {
                let chunk = Chunk { route: Route::Reliable, start: pos as usize, end: len as usize };
                let next_skip = (n - (len - pos)) as usize;
                assert(plan == (SendTrace {
                    chunks: seq![chunk],
                    left: 0,
                    skip: next_skip,
                    permanent_fallback: false,
                    started: true,
                })) by {
                    reveal_with_fuel(SendLossy::trace_from, 1);
                }
                let next = settings.trace_from(buf, len, next_skip, true);
                assert(next == (SendTrace {
                    chunks: seq![],
                    left: 0,
                    skip: next_skip,
                    permanent_fallback: false,
                    started: true,
                })) by {
                    reveal_with_fuel(SendLossy::trace_from, 1);
                }
                assert(plan.chunks =~= next.after(chunk).chunks);
                assert(plan == next.after(chunk));
                assert(relay_in_step(settings, buf, len, next_skip, true, peer_conv)) by {
                    assert(buf.subrange(len, len) =~= Seq::<u8>::empty());
                }
                lemma_hear_cut_frame(peer_conv, window, n, j == 0);
                lemma_relay_chunk(settings, buf, pos, 0, j > 0, peer_conv, chunk, next_skip);
            },
            Packet::Invalid => {},
        }
    }
}

/// A pass over a buffer that ends where the stream ends leaves nothing for a
/// next buffer and stands at the end of the last frame.
pub proof fn lemma_stream_end_leaves_nothing(
    settings: SendLossy,
    frames: Seq<Seq<u8>>,
    j: int,
    base: int,
    len: int,
    pos: int,
    skip: usize,
)
    requires
        all_frames(frames),
        0 <= j <= frames.len(),
        0 <= base,
        0 <= pos <= len <= usize::MAX,
        base + len == joined(frames).len(),
        base + pos + skip == boundary(frames, j),
    ensures
        settings.trace_from(joined(frames).subrange(base, base + len), pos, skip, j > 0).left == 0,
        settings.trace_from(joined(frames).subrange(base, base + len), pos, skip, j > 0).skip == 0,
    decreases len - pos,
{
    let stream = joined(frames);
    let buf = stream.subrange(base, base + len);
    reveal_with_fuel(SendLossy::trace_from, 1);
    lemma_stream_end(frames);
    lemma_boundary_grows(frames, j, frames.len() as int);
    if pos >= len {
    } else if skip != 0 {
        let n = if skip <= len - pos {
            skip as int
        } else {
            len - pos
        };
        lemma_stream_end_leaves_nothing(settings, frames, j, base, len, pos + n, (skip - n) as usize);
    } else {
        assert(buf.subrange(pos, len) =~= stream.subrange(boundary(frames, j), base + len));
        lemma_window(frames, j, base + len);
        lemma_parse_bounds(buf.subrange(pos, len), j == 0);
        if j < frames.len() {
            lemma_stream_layout(frames, j);
            lemma_boundary_grows(frames, j + 1, frames.len() as int);
            lemma_parse_bounds(frames[j], j == 0);
            match spec_parse(buf.subrange(pos, len), j == 0) {
                Packet::Traffic(n) | Packet::Meta(n) => {
                    lemma_stream_end_leaves_nothing(settings, frames, j + 1, base, len, pos + n, 0);
                },
                _ => {},
            }
        }
    }
}

/// Later frames end later.
pub proof fn lemma_boundary_grows(frames: Seq<Seq<u8>>, j: int, k: int)
    requires
        0 <= j <= k <= frames.len(),
    ensures
        boundary(frames, j) <= boundary(frames, k),
    decreases k - j,
{
    if j < k {
        lemma_stream_layout(frames, k - 1);
        lemma_boundary_grows(frames, j, k - 1);
    }
}

/// The places `cuts` cut a stream of `total` bytes into the pieces that the
/// sender reads one after the other: they start at 0, end at `total`, and
/// none lies before the one in front of it.
pub open spec fn is_cutting(cuts: Seq<int>, total: int) -> bool {
    &&& cuts.len() >= 1
    &&& cuts[0] == 0
    &&& cuts.last() == total
    &&& forall|i: int| 0 <= i < cuts.len() - 1 ==> #[trigger] cuts[i] <= cuts[i + 1]
}

/// What the router gets from the pass `i` on, when the sender reads the
/// stream piece by piece, each buffer holding what the pass before left and
/// the next piece, and the chunks of every plan reach the receiver one by one
/// in the plan's order. The buffer of pass `i` starts at `base` in the stream.
pub open spec fn relay_passes(
    settings: SendLossy,
    stream: Seq<u8>,
    cuts: Seq<int>,
    i: int,
    base: int,
    skip: usize,
    started: bool,
    hearer: Hearer,
) -> Seq<u8>
    decreases cuts.len() - i,
{
    if i < 0 || i + 1 >= cuts.len() {
        seq![]
    } else {
        let buf = stream.subrange(base, cuts[i + 1]);
        let plan = settings.trace_from(buf, 0, skip, started);
        relayed(plan.chunks, buf, hearer) + relay_passes(
            settings,
            stream,
            cuts,
            i + 1,
            cuts[i + 1] - plan.left,
            plan.skip,
            plan.started,
            hearer_after(plan.chunks, buf, hearer),
        )
    }
}

proof fn lemma_relay_passes(
    settings: SendLossy,
    frames: Seq<Seq<u8>>,
    cuts: Seq<int>,
    i: int,
    j: int,
    base: int,
    skip: usize,
    peer_conv: u32,
)
    requires
        all_frames(frames),
        joined(frames).len() <= usize::MAX,
        settings.fallback_to_reliable,
        shortcut_is_told_apart(frames, peer_conv),
        is_cutting(cuts, joined(frames).len() as int),
        0 <= i < cuts.len(),
        0 <= j <= frames.len(),
        0 <= base <= cuts[i],
        base + skip == boundary(frames, j),
        i == cuts.len() - 1 ==> base == joined(frames).len(),
    ensures
        relay_passes(
            settings,
            joined(frames),
            cuts,
            i,
            base,
            skip,
            j > 0,
            hearer_in_step(peer_conv, skip, j > 0),
        ) == joined(frames).subrange(base, joined(frames).len() as int),
    decreases cuts.len() - i,
{
    let stream = joined(frames);
    let total = stream.len() as int;
    if i + 1 >= cuts.len() {
        assert(stream.subrange(base, total) =~= Seq::<u8>::empty());
    } else {
        lemma_cuts_within(cuts, total, i + 1);
        let len = cuts[i + 1] - base;
        let buf = stream.subrange(base, cuts[i + 1]);
        let plan = settings.trace_from(buf, 0, skip, j > 0);
        lemma_relay_keeps_step(settings, frames, j, base, len, 0, skip, peer_conv);
        lemma_send_keeps_step(settings, frames, j, base, len, 0, skip);
        let k = choose|k: int|
            j <= k <= frames.len() && plan.started == (k > 0) && base + len - plan.left + plan.skip
                == #[trigger] boundary(frames, k);
        if i + 1 == cuts.len() - 1 {
            lemma_stream_end_leaves_nothing(settings, frames, j, base, len, 0, skip);
        }
        lemma_relay_passes(
            settings,
            frames,
            cuts,
            i + 1,
            k,
            cuts[i + 1] - plan.left,
            plan.skip,
            peer_conv,
        );
        assert(buf.subrange(0, len - plan.left) + stream.subrange(cuts[i + 1] - plan.left, total)
            =~= stream.subrange(base, total));
    }
}

proof fn lemma_cuts_within(cuts: Seq<int>, total: int, i: int)
    requires
        is_cutting(cuts, total),
        0 <= i < cuts.len(),
    ensures
        0 <= cuts[i] <= total,
        i > 0 ==> cuts[i - 1] <= cuts[i],
    decreases cuts.len() - i,
{
    lemma_cuts_from_start(cuts, total, i);
    if i < cuts.len() - 1 {
        lemma_cuts_within(cuts, total, i + 1);
    }
}

proof fn lemma_cuts_from_start(cuts: Seq<int>, total: int, i: int)
    requires
        is_cutting(cuts, total),
        0 <= i < cuts.len(),
    ensures
        0 <= cuts[i],
        i > 0 ==> cuts[i - 1] <= cuts[i],
    decreases i,
{
    if i > 0 {
        lemma_cuts_from_start(cuts, total, i - 1);
    }
}

/// The shortcut changes nothing for the router where nothing is lost and
/// nothing overtakes, however the stream is cut into the buffers that the
/// sender reads. Take a stream of frames that opens with a packet of the
/// reliable kind, none of whose frames of traffic looks like a datagram of the
/// reliable channel, and a sender at its start that drops nothing. When the
/// sender reads the stream piece by piece, cut at any places, and the chunks
/// of every plan reach a receiver at its start one by one in the plan's
/// order, the router gets the stream, byte for byte.
pub proof fn lemma_shortcut_is_transparent_in_pieces(
    sender: SendLossy,
    frames: Seq<Seq<u8>>,
    cuts: Seq<int>,
    peer_conv: u32,
)
    requires
        all_frames(frames),
        joined(frames).len() <= usize::MAX,
        sender.fallback_to_reliable,
        shortcut_is_told_apart(frames, peer_conv),
        is_cutting(cuts, joined(frames).len() as int),
        cuts.len() >= 2,
    ensures
        relay_passes(
            sender.settings(),
            joined(frames),
            cuts,
            0,
            0,
            0,
            false,
            Hearer::fresh(peer_conv),
        ) == joined(frames),
{
    lemma_relay_passes(sender.settings(), frames, cuts, 0, 0, 0, 0, peer_conv);
    assert(joined(frames).subrange(0, joined(frames).len() as int) =~= joined(frames));
}

} // verus!
