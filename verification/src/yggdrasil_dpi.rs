//! Dissection of the router's wire packets and the lossy shortcut built on it.

use vstd::prelude::*;
use vstd::slice::slice_subrange;

verus! {

/// Longest varint, in bytes, that the dissector accepts.
pub const VARINT_MAX_LEN: usize = 10;

/// Packet type of overlay traffic, the only kind that may bypass the reliable channel.
pub const TRAFFIC_TYPE: u8 = 9;

/// Outcome of reading a varint from the start of a buffer.
#[derive(Debug, Clone, Copy, PartialEq, Eq, Structural)]
pub enum Varint {
    Decoded { value: u64, varint_len: usize },
    Truncated,
    Invalid,
}

/// The number written by the first `n` bytes of `buf`, seven bits per byte,
/// least significant group first.
pub open spec fn varint_value(buf: Seq<u8>, n: nat) -> nat
    decreases n,
{
    if n == 0 {
        0
    } else {
        (buf[0] % 128) as nat + 128 * varint_value(buf.drop_first(), (n - 1) as nat)
    }
}

/// Every one of the first `n` bytes of `buf` announces a further byte.
pub open spec fn all_continue(buf: Seq<u8>, n: int) -> bool {
    forall|j: int| 0 <= j < n ==> #[trigger] buf[j] >= 128
}

/// The bytes before `i` all announce a further byte and byte `i` ends the varint.
pub open spec fn varint_ends_at(buf: Seq<u8>, i: int) -> bool {
    &&& 0 <= i < buf.len()
    &&& i < VARINT_MAX_LEN
    &&& buf[i] < 128
    &&& all_continue(buf, i)
}

/// What `decode_varint` returns on `buf`. A varint of ten bytes writes a
/// number of 64 bits only where its last byte is 0 or 1.
pub open spec fn spec_decode_varint(buf: Seq<u8>) -> Varint {
    if exists|i: int| varint_ends_at(buf, i) {
        let i = choose|i: int| varint_ends_at(buf, i);
        if i == VARINT_MAX_LEN - 1 && buf[i] > 1 {
            Varint::Invalid
        } else {
            Varint::Decoded {
                value: varint_value(buf, (i + 1) as nat) as u64,
                varint_len: (i + 1) as usize,
            }
        }
    } else if buf.len() < VARINT_MAX_LEN {
        Varint::Truncated
    } else {
        Varint::Invalid
    }
}

/// 128 to the power `i`.
pub open spec fn pow128(i: nat) -> nat
    decreases i,
{
    if i == 0 {
        1
    } else {
        128 * pow128((i - 1) as nat)
    }
}

/// Appending one byte to a varint adds its seven bits above the ones read so far.
pub proof fn lemma_varint_value_step(buf: Seq<u8>, i: nat)
    requires
        i < buf.len(),
    ensures
        varint_value(buf, i + 1) == varint_value(buf, i) + (buf[i as int] % 128) * pow128(i),
    decreases i,
{
    let rest = buf.drop_first();
    if i == 0 {
        assert(varint_value(rest, 0) == 0);
        assert(varint_value(buf, 1) == (buf[0] % 128) as nat + 128 * varint_value(rest, 0));
        assert(varint_value(buf, 0) == 0);
        assert(pow128(0) == 1);
        assert((buf[0] % 128) * pow128(0) == buf[0] % 128);
    } else {
        lemma_varint_value_step(rest, (i - 1) as nat);
        assert(rest[i - 1] == buf[i as int]);
        let a = varint_value(rest, (i - 1) as nat);
        let d = (buf[i as int] % 128) as nat;
        let p = pow128((i - 1) as nat);
        assert(varint_value(rest, i) == a + d * p);
        assert(varint_value(buf, i + 1) == (buf[0] % 128) as nat + 128 * varint_value(rest, i));
        assert(varint_value(buf, i) == (buf[0] % 128) as nat + 128 * a);
        assert(pow128(i) == 128 * p);
        assert(128 * (a + d * p) == 128 * a + d * (128 * p)) by (nonlinear_arith);
        assert((buf[i as int] % 128) * pow128(i) == d * (128 * p));
    }
}

/// The first `i` bytes of a varint write a number below `128^i`.
pub proof fn lemma_varint_value_bound(buf: Seq<u8>, i: nat)
    requires
        i <= buf.len(),
    ensures
        varint_value(buf, i) < pow128(i),
    decreases i,
{
    if i > 0 {
        lemma_varint_value_bound(buf.drop_first(), (i - 1) as nat);
    }
}

/// At most one position ends the varint at the start of `buf`.
pub proof fn lemma_varint_end_unique(buf: Seq<u8>, i: int, j: int)
    requires
        varint_ends_at(buf, i),
        varint_ends_at(buf, j),
    ensures
        i == j,
{
    if i < j {
        assert(buf[i] >= 128);
    }
    if j < i {
        assert(buf[j] >= 128);
    }
}

proof fn lemma_shift_table()
    ensures
        pow128(0) == 1u64 << 0u64,
        pow128(1) == 1u64 << 7u64,
        pow128(2) == 1u64 << 14u64,
        pow128(3) == 1u64 << 21u64,
        pow128(4) == 1u64 << 28u64,
        pow128(5) == 1u64 << 35u64,
        pow128(6) == 1u64 << 42u64,
        pow128(7) == 1u64 << 49u64,
        pow128(8) == 1u64 << 56u64,
        pow128(9) == 0x8000_0000_0000_0000,
{
    assert(1u64 << 0u64 == 1 && 1u64 << 7u64 == 128 && 1u64 << 14u64 == 128 * 128 && 1u64 << 21u64
        == 128 * 128 * 128 && 1u64 << 28u64 == 128 * 128 * 128 * 128 && 1u64 << 35u64 == 128 * 128
        * 128 * 128 * 128 && 1u64 << 42u64 == 128 * 128 * 128 * 128 * 128 * 128 && 1u64 << 49u64
        == 128 * 128 * 128 * 128 * 128 * 128 * 128 && 1u64 << 56u64 == 128 * 128 * 128 * 128 * 128
        * 128 * 128 * 128) by (bit_vector);
    reveal_with_fuel(pow128, 10);
}

proof fn lemma_group_insert(value: u64, e: u8, shift: u64)
    requires
        shift <= 56,
        value < (1u64 << shift),
    ensures
        (e & 0x7f) == e % 128,
        (e & 0x80 == 0) == (e < 128),
        value | (((e as u64) & 0x7f) << shift) == value + (e % 128) * (1u64 << shift),
{
    assert((e & 0x7f) == e % 128) by (bit_vector);
    assert((e & 0x80 == 0) == (e < 128)) by (bit_vector);
    assert(value | (((e as u64) & 0x7f) << shift) == value + (e % 128) * (1u64 << shift))
        by (bit_vector)
        requires
            shift <= 56,
            value < (1u64 << shift),
    ;
}

/// Reads a varint from the start of `buf`: seven bits per byte, least
/// significant group first, the top bit of a byte announcing another one.
pub fn decode_varint(buf: &[u8]) -> (r: Varint)
    ensures
        r == spec_decode_varint(buf@),
{
    let mut value: u64 = 0;
    let mut i: usize = 0;
    while i < VARINT_MAX_LEN - 1
        invariant
            i <= VARINT_MAX_LEN - 1,
            i <= buf@.len(),
            value == varint_value(buf@, i as nat),
            all_continue(buf@, i as int),
        decreases VARINT_MAX_LEN - i,
    {
        if i >= buf.len() {
            proof {
                assert forall|k: int| !varint_ends_at(buf@, k) by {
                    if varint_ends_at(buf@, k) {
                        assert(buf@[k] >= 128);
                    }
                }
            }
            return Varint::Truncated;
        }
        let e: u8 = buf[i];
        let shift: u64 = (i as u64) * 7;
        proof {
            lemma_shift_table();
            lemma_varint_value_bound(buf@, i as nat);
            lemma_varint_value_step(buf@, i as nat);
            assert(pow128(i as nat) == 1u64 << shift);
            lemma_group_insert(value, e, shift);
        }
        value = value | (((e as u64) & 0x7f) << shift);
        if e & 0x80 == 0 {
            proof {
                assert(varint_ends_at(buf@, i as int));
                let k = choose|k: int| varint_ends_at(buf@, k);
                lemma_varint_end_unique(buf@, k, i as int);
                lemma_varint_value_bound(buf@, (i + 1) as nat);
                lemma_shift_table();
                lemma_pow128_grows((i + 1) as nat, 9);
            }
            return Varint::Decoded { value, varint_len: i + 1 };
        }
        i = i + 1;
    }
    if i >= buf.len() {
        proof {
            assert forall|k: int| !varint_ends_at(buf@, k) by {
                if varint_ends_at(buf@, k) {
                    assert(buf@[k] >= 128);
                }
            }
        }
        return Varint::Truncated;
    }
    let last: u8 = buf[i];
    if last > 1 {
        proof {
            if last < 128 {
                assert(varint_ends_at(buf@, 9));
                let k = choose|k: int| varint_ends_at(buf@, k);
                lemma_varint_end_unique(buf@, k, 9);
            } else {
                assert forall|k: int| !varint_ends_at(buf@, k) by {
                    if varint_ends_at(buf@, k) {
                        assert(buf@[k] >= 128);
                    }
                }
            }
        }
        return Varint::Invalid;
    }
    proof {
        lemma_shift_table();
        lemma_varint_value_bound(buf@, 9);
        lemma_varint_value_step(buf@, 9);
        assert(varint_ends_at(buf@, 9));
        let k = choose|k: int| varint_ends_at(buf@, k);
        lemma_varint_end_unique(buf@, k, 9);
        assert(value | ((last as u64) << 63u64) == value + last * 0x8000_0000_0000_0000)
            by (bit_vector)
            requires
                value < 0x8000_0000_0000_0000u64,
                last <= 1u8,
        ;
        assert(last % 128 == last);
    }
    value = value | ((last as u64) << 63u64);
    Varint::Decoded { value, varint_len: VARINT_MAX_LEN }
}

/// `pow128` grows with its argument.
pub proof fn lemma_pow128_grows(a: nat, b: nat)
    requires
        a <= b,
    ensures
        1 <= pow128(a) <= pow128(b),
    decreases b,
{
    if b > 0 {
        if a == b {
            lemma_pow128_grows((a - 1) as nat, (b - 1) as nat);
        } else {
            lemma_pow128_grows(a, (b - 1) as nat);
        }
    }
}

/// What the dissector finds at the start of a buffer.
#[derive(Debug, Clone, Copy, PartialEq, Eq, Structural)]
pub enum Packet {
    /// The bytes cannot start a packet.
    Invalid,
    /// The header is not complete yet.
    TruncatedHeader,
    /// The header is complete; the packet, of the given length, goes on past the buffer.
    Truncated(usize),
    /// A complete traffic packet of the given length.
    Traffic(usize),
    /// A complete packet of any other kind, of the given length.
    Meta(usize),
}

impl Packet {
    pub open spec fn spec_is_traffic(&self) -> bool {
        *self is Traffic
    }

    #[verifier::when_used_as_spec(spec_is_traffic)]
    pub fn is_traffic(&self) -> (r: bool)
        ensures
            r == (*self is Traffic),
    {
        match self {
            Packet::Traffic(_) => true,
            _ => false,
        }
    }
}

/// Length of the header of the frame that opens a connection.
pub const META_HEADER_LEN: usize = 6;

/// The four letters `meta`, with which the frame that opens a connection starts.
pub open spec fn meta_letters() -> Seq<u8> {
    seq![0x6du8, 0x65u8, 0x74u8, 0x61u8]
}

/// The buffer starts with the four letters `meta`.
pub open spec fn has_meta_prefix(buf: Seq<u8>) -> bool {
    buf.len() >= 4 && buf.subrange(0, 4) == meta_letters()
}

/// The buffer holds fewer than four bytes, and they are the first of the
/// letters `meta`: it may be the beginning of an opening frame.
pub open spec fn begins_meta(buf: Seq<u8>) -> bool {
    buf.len() < 4 && buf == meta_letters().subrange(0, buf.len() as int)
}

/// What `parse_yggdrasil_packet` returns on `buf`, `fresh` saying that `buf`
/// starts where the stream of a connection starts. Only there can the frame
/// `meta` stand; as long as the bytes there may still be its beginning, the
/// header counts as incomplete. A packet is a varint, the length of its body,
/// then its type in one byte, then the body.
#[verifier::opaque]
pub open spec fn spec_parse(buf: Seq<u8>, fresh: bool) -> Packet {
    if fresh && begins_meta(buf) {
        Packet::TruncatedHeader
    } else if fresh && has_meta_prefix(buf) {
        if buf.len() < META_HEADER_LEN {
            Packet::TruncatedHeader
        } else {
            let len = META_HEADER_LEN + buf[4] * 256 + buf[5];
            if len <= buf.len() {
                Packet::Meta(len as usize)
            } else {
                Packet::Truncated(len as usize)
            }
        }
    } else {
        match spec_decode_varint(buf) {
            Varint::Truncated => Packet::TruncatedHeader,
            Varint::Invalid => Packet::Invalid,
            Varint::Decoded { value, varint_len } => {
                let len = varint_len + 1 + value;
                if len > usize::MAX {
                    Packet::Invalid
                } else if len > buf.len() {
                    Packet::Truncated(len as usize)
                } else if buf[varint_len as int] == TRAFFIC_TYPE {
                    Packet::Traffic(len as usize)
                } else {
                    Packet::Meta(len as usize)
                }
            },
        }
    }
}

/// How many of the letters `meta` the buffer starts with, where it holds
/// nothing else before its fourth byte.
fn meta_start(buf: &[u8]) -> (r: (bool, bool))
    ensures
        r.0 == has_meta_prefix(buf@),
        r.1 == begins_meta(buf@),
{
    let letters: [u8; 4] = [0x6d, 0x65, 0x74, 0x61];
    let n: usize = if buf.len() < 4 {
        buf.len()
    } else {
        4
    };
    let mut i: usize = 0;
    while i < n
        invariant
            i <= n,
            n <= 4,
            n <= buf@.len(),
            letters@ == meta_letters(),
            forall|j: int| 0 <= j < i ==> buf@[j] == meta_letters()[j],
        decreases n - i,
    {
        if buf[i] != letters[i] {
            proof {
                if buf@.len() >= 4 {
                    assert(buf@.subrange(0, 4)[i as int] == buf@[i as int]);
                } else {
                    assert(meta_letters().subrange(0, buf@.len() as int)[i as int]
                        == meta_letters()[i as int]);
                }
            }
            return (false, false);
        }
        i = i + 1;
    }
    proof {
        if buf@.len() >= 4 {
            assert(buf@.subrange(0, 4) =~= meta_letters());
        } else {
            assert(buf@ =~= meta_letters().subrange(0, buf@.len() as int));
        }
    }
    (buf.len() >= 4, buf.len() < 4)
}

/// Dissects the packet at the start of `buf`; `fresh` says that `buf` starts
/// where the stream of a connection starts. A connection may open with the
/// frame `meta`, a length of two bytes, most significant first, and that many
/// bytes. Every other packet is a varint, the length of its body, then the
/// packet's type in one byte, then the body.
pub fn parse_yggdrasil_packet(buf: &[u8], fresh: bool) -> (r: Packet)
    ensures
        r == spec_parse(buf@, fresh),
{
    proof {
        reveal(spec_parse);
    }
    if fresh {
        let (whole, begun) = meta_start(buf);
        if begun {
            return Packet::TruncatedHeader;
        }
        if whole {
            if buf.len() < META_HEADER_LEN {
                return Packet::TruncatedHeader;
            }
            let len: usize = META_HEADER_LEN + (buf[4] as usize) * 256 + (buf[5] as usize);
            return if len <= buf.len() {
                Packet::Meta(len)
            } else {
                Packet::Truncated(len)
            };
        }
    }
    match decode_varint(buf) {
        Varint::Truncated => Packet::TruncatedHeader,
        Varint::Invalid => Packet::Invalid,
        Varint::Decoded { value, varint_len } => {
            if value >= (usize::MAX - varint_len) as u64 {
                return Packet::Invalid;
            }
            let len: usize = varint_len + 1 + value as usize;
            if len > buf.len() {
                return Packet::Truncated(len);
            }
            if buf[varint_len] == TRAFFIC_TYPE {
                Packet::Traffic(len)
            } else {
                Packet::Meta(len)
            }
        },
    }
}

/// A complete packet is not empty and lies within the buffer; a truncated one
/// reaches past the buffer's end.
pub proof fn lemma_parse_bounds(buf: Seq<u8>, fresh: bool)
    ensures
        match spec_parse(buf, fresh) {
            Packet::Traffic(n) | Packet::Meta(n) => 2 <= n <= buf.len(),
            Packet::Truncated(n) => n > buf.len(),
            _ => true,
        },
{
    reveal(spec_parse);
    if exists|i: int| varint_ends_at(buf, i) {
        let i = choose|i: int| varint_ends_at(buf, i);
        assert(i + 1 >= 1);
    }
}

/// A traffic packet is found the same wherever in the stream the buffer starts.
pub proof fn lemma_traffic_anywhere(buf: Seq<u8>, fresh: bool)
    requires
        spec_parse(buf, fresh) is Traffic,
    ensures
        spec_parse(buf, false) == spec_parse(buf, fresh),
{
    reveal(spec_parse);
}

/// The channel that a stretch of the router's stream is put on.
#[derive(Debug, Clone, Copy, PartialEq, Eq, Structural)]
pub enum Route {
    /// Sent to the peer as one datagram of its own, without retransmission.
    Shortcut,
    /// Handed to the reliable channel.
    Reliable,
    /// Left out: a traffic packet too long for a datagram, with the fallback switched off.
    Dropped,
}

/// The bytes `start..end` of a buffer and the channel they are put on.
#[derive(Debug, Clone, Copy, PartialEq, Eq, Structural)]
pub struct Chunk {
    pub route: Route,
    pub start: usize,
    pub end: usize,
}

/// What the sender does with one buffer read from the router: the chunks, in
/// the order in which they are to be sent, and the number of bytes at the
/// buffer's end that wait for the next read.
#[derive(Debug)]
pub struct SendPlan {
    pub chunks: Vec<Chunk>,
    pub left: usize,
}

/// The mathematical content of a `SendPlan`, with the sender's state after it.
pub struct SendTrace {
    pub chunks: Seq<Chunk>,
    pub left: nat,
    pub skip: usize,
    pub permanent_fallback: bool,
    pub started: bool,
}

impl SendTrace {
    /// The same trace with `first` sent before everything else.
    pub open spec fn after(self, first: Chunk) -> SendTrace {
        SendTrace { chunks: seq![first] + self.chunks, ..self }
    }
}

/// Sender side of the lossy shortcut.
#[derive(Debug)]
pub struct SendLossy {
    /// Bytes of a packet begun in an earlier buffer that are still to come.
    pub skip: usize,
    /// Longest packet that is sent as a datagram of its own.
    pub udp_mtu: usize,
    /// Whether a longer traffic packet takes the reliable channel instead of being dropped.
    pub fallback_to_reliable: bool,
    /// Set once the stream could not be dissected: everything is reliable from then on.
    pub permanent_fallback: bool,
    /// Set once bytes of the stream were passed on: its start lies behind.
    pub started: bool,
}

impl Default for SendLossy {
    fn default() -> (r: Self)
        ensures
            r.skip == 0,
            r.udp_mtu == 0,
            !r.fallback_to_reliable,
            !r.permanent_fallback,
            !r.started,
    {
        SendLossy {
            skip: 0,
            udp_mtu: 0,
            fallback_to_reliable: false,
            permanent_fallback: false,
            started: false,
        }
    }
}

impl SendLossy {
    /// The channel of a complete traffic packet of `len` bytes.
    pub open spec fn traffic_route(self, len: usize) -> Route {
        if len <= self.udp_mtu {
            Route::Shortcut
        } else if !self.fallback_to_reliable {
            Route::Dropped
        } else {
            Route::Reliable
        }
    }

    /// The same sender at the start of a stream.
    pub open spec fn settings(self) -> SendLossy {
        SendLossy { skip: 0, permanent_fallback: false, started: false, ..self }
    }

    /// What happens to `buf` from `pos` on, with `skip` bytes of an earlier
    /// packet to come; `started` says that the start of the stream lies behind.
    #[verifier::opaque]
    pub open spec fn trace_from(
        self,
        buf: Seq<u8>,
        pos: int,
        skip: usize,
        started: bool,
    ) -> SendTrace
        decreases buf.len() - pos,
    {
        let end = buf.len() as int;
        if pos < 0 || pos >= end {
            SendTrace { chunks: seq![], left: 0, skip, permanent_fallback: false, started }
        } else if skip != 0 {
            let n = if skip <= end - pos {
                skip as int
            } else {
                end - pos
            };
            self.trace_from(buf, pos + n, (skip - n) as usize, true).after(
                Chunk { route: Route::Reliable, start: pos as usize, end: (pos + n) as usize },
            )
        } else {
            let rest = Chunk { route: Route::Reliable, start: pos as usize, end: end as usize };
            match spec_parse(buf.subrange(pos, end), !started) {
                Packet::Invalid => SendTrace {
                    chunks: seq![rest],
                    left: 0,
                    skip: 0,
                    permanent_fallback: true,
                    started: true,
                },
                Packet::TruncatedHeader => SendTrace {
                    chunks: seq![],
                    left: (end - pos) as nat,
                    skip: 0,
                    permanent_fallback: false,
                    started,
                },
                Packet::Truncated(n) => SendTrace {
                    chunks: seq![rest],
                    left: 0,
                    skip: (n - (end - pos)) as usize,
                    permanent_fallback: false,
                    started: true,
                },
                Packet::Traffic(n) => {
                    proof {
                        lemma_parse_bounds(buf.subrange(pos, end), !started);
                    }
                    self.trace_from(buf, pos + n, 0, true).after(
                        Chunk {
                            route: self.traffic_route(n),
                            start: pos as usize,
                            end: (pos + n) as usize,
                        },
                    )
                },
                Packet::Meta(n) => {
                    proof {
                        lemma_parse_bounds(buf.subrange(pos, end), !started);
                    }
                    self.trace_from(buf, pos + n, 0, true).after(
                        Chunk { route: Route::Reliable, start: pos as usize, end: (pos + n) as usize },
                    )
                },
            }
        }
    }

    /// What `send` does with `buf` in the state `self`.
    pub open spec fn trace(self, buf: Seq<u8>) -> SendTrace {
        if self.permanent_fallback {
            SendTrace {
                chunks: seq![
                    Chunk { route: Route::Reliable, start: 0, end: buf.len() as usize },
                ],
                left: 0,
                skip: self.skip,
                permanent_fallback: true,
                started: self.started,
            }
        } else {
            self.settings().trace_from(buf, 0, self.skip, self.started)
        }
    }

    /// Gives up dissecting for good and puts the whole of `send` on the reliable channel.
    pub fn recover(&mut self, send: &[u8]) -> (plan: SendPlan)
        ensures
            final(self).permanent_fallback,
            final(self).skip == old(self).skip,
            final(self).started == old(self).started,
            final(self).udp_mtu == old(self).udp_mtu,
            final(self).fallback_to_reliable == old(self).fallback_to_reliable,
            plan.chunks@ == seq![
                Chunk { route: Route::Reliable, start: 0, end: send@.len() as usize },
            ],
            plan.left == 0,
    {
        self.permanent_fallback = true;
        let mut chunks: Vec<Chunk> = Vec::new();
        chunks.push(Chunk { route: Route::Reliable, start: 0, end: send.len() });
        SendPlan { chunks, left: 0 }
    }

    /// Plans the sending of one buffer read from the router. Complete traffic
    /// packets that fit a datagram take the shortcut, everything else the
    /// reliable channel; a header cut off by the buffer's end waits for the
    /// next read.
    pub fn send(&mut self, send: &[u8]) -> (plan: SendPlan)
        ensures
            plan.chunks@ == old(self).trace(send@).chunks,
            plan.left == old(self).trace(send@).left,
            final(self).skip == old(self).trace(send@).skip,
            final(self).permanent_fallback == old(self).trace(send@).permanent_fallback,
            final(self).started == old(self).trace(send@).started,
            final(self).udp_mtu == old(self).udp_mtu,
            final(self).fallback_to_reliable == old(self).fallback_to_reliable,
    {
        if self.permanent_fallback {
            return self.recover(send);
        }
        let end: usize = send.len();
        let mut chunks: Vec<Chunk> = Vec::new();
        let mut pos: usize = 0;
        let ghost total = self.trace(send@);
        while pos < end
            invariant
                pos <= end,
                end == send@.len(),
                total == old(self).trace(send@),
                !self.permanent_fallback,
                self.settings() == old(self).settings(),
                self.udp_mtu == old(self).udp_mtu,
                self.fallback_to_reliable == old(self).fallback_to_reliable,
                total == (SendTrace {
                    chunks: chunks@ + self.settings().trace_from(
                        send@,
                        pos as int,
                        self.skip,
                        self.started,
                    ).chunks,
                    ..self.settings().trace_from(send@, pos as int, self.skip, self.started)
                }),
            decreases end - pos,
        {
            let ghost before = chunks@;
            let ghost here = self.settings().trace_from(
                send@,
                pos as int,
                self.skip,
                self.started,
            );
            if self.skip != 0 {
                let n: usize = if self.skip <= end - pos {
                    self.skip
                } else {
                    end - pos
                };
                let chunk = Chunk { route: Route::Reliable, start: pos, end: pos + n };
                self.skip = self.skip - n;
                self.started = true;
                chunks.push(chunk);
                pos = pos + n;
                proof {
                    let next = self.settings().trace_from(send@, pos as int, self.skip, true);
                    assert(here == next.after(chunk)) by {
                        reveal_with_fuel(SendLossy::trace_from, 1);
                    }
                    assert(before + (seq![chunk] + next.chunks) =~= before.push(chunk)
                        + next.chunks);
                }
            } else {
                let rest = slice_subrange(send, pos, end);
                proof {
                    lemma_parse_bounds(rest@, !self.started);
                }
                match parse_yggdrasil_packet(rest, !self.started) {
                    Packet::Invalid => {
                        let chunk = Chunk { route: Route::Reliable, start: pos, end };
                        chunks.push(chunk);
                        self.permanent_fallback = true;
                        self.started = true;
                        proof {
                            assert(here == (SendTrace {
                                chunks: seq![chunk],
                                left: 0,
                                skip: 0,
                                permanent_fallback: true,
                                started: true,
                            })) by {
                                reveal_with_fuel(SendLossy::trace_from, 1);
                            }
                            assert(before + seq![chunk] =~= before.push(chunk));
                        }
                        return SendPlan { chunks, left: 0 };
                    },
                    Packet::TruncatedHeader => {
                        proof {
                            assert(here == (SendTrace {
                                chunks: seq![],
                                left: (end - pos) as nat,
                                skip: 0,
                                permanent_fallback: false,
                                started: self.started,
                            })) by {
                                reveal_with_fuel(SendLossy::trace_from, 1);
                            }
                            assert(before + Seq::<Chunk>::empty() =~= before);
                        }
                        return SendPlan { chunks, left: end - pos };
                    },
                    Packet::Truncated(n) => {
                        let chunk = Chunk { route: Route::Reliable, start: pos, end };
                        chunks.push(chunk);
                        self.skip = n - (end - pos);
                        self.started = true;
                        proof {
                            assert(here == (SendTrace {
                                chunks: seq![chunk],
                                left: 0,
                                skip: (n - (end - pos)) as usize,
                                permanent_fallback: false,
                                started: true,
                            })) by {
                                reveal_with_fuel(SendLossy::trace_from, 1);
                            }
                            assert(before + seq![chunk] =~= before.push(chunk));
                        }
                        return SendPlan { chunks, left: 0 };
                    },
                    Packet::Traffic(n) => {
                        let route = if n <= self.udp_mtu {
                            Route::Shortcut
                        } else if !self.fallback_to_reliable {
                            Route::Dropped
                        } else {
                            Route::Reliable
                        };
                        let chunk = Chunk { route, start: pos, end: pos + n };
                        chunks.push(chunk);
                        pos = pos + n;
                        self.started = true;
                        proof {
                            let next = self.settings().trace_from(send@, pos as int, 0, true);
                            assert(here == next.after(chunk)) by {
                                reveal_with_fuel(SendLossy::trace_from, 1);
                            }
                            assert(before + (seq![chunk] + next.chunks) =~= before.push(chunk)
                                + next.chunks);
                        }
                    },
                    Packet::Meta(n) => {
                        let chunk = Chunk { route: Route::Reliable, start: pos, end: pos + n };
                        chunks.push(chunk);
                        pos = pos + n;
                        self.started = true;
                        proof {
                            let next = self.settings().trace_from(send@, pos as int, 0, true);
                            assert(here == next.after(chunk)) by {
                                reveal_with_fuel(SendLossy::trace_from, 1);
                            }
                            assert(before + (seq![chunk] + next.chunks) =~= before.push(chunk)
                                + next.chunks);
                        }
                    },
                }
            }
        }
        proof {
            assert(self.settings().trace_from(send@, pos as int, self.skip, self.started) == (
            SendTrace {
                chunks: seq![],
                left: 0,
                skip: self.skip,
                permanent_fallback: false,
                started: self.started,
            })) by {
                reveal_with_fuel(SendLossy::trace_from, 1);
            }
            assert(chunks@ + Seq::<Chunk>::empty() =~= chunks@);
        }
        SendPlan { chunks, left: 0 }
    }
}

/// What becomes of a datagram that arrived beside the reliable channel.
#[derive(Debug, Clone, Copy, PartialEq, Eq, Structural)]
pub enum Delivery {
    /// Not a shortcut packet: the datagram belongs to the reliable channel.
    Declined,
    /// A shortcut packet that the router gets at once.
    Forward,
    /// A shortcut packet kept back while a packet of the reliable channel is half written.
    Queued,
}

/// What the receiver writes to the router for one buffer read from the
/// reliable channel: the bytes `..head` of the buffer, then `backlog`, then the
/// bytes `head..end`. The last `left` bytes of the buffer wait for the next read.
#[derive(Debug)]
pub struct ReceivePlan {
    pub head: usize,
    pub backlog: Vec<u8>,
    pub end: usize,
    pub left: usize,
}

impl ReceivePlan {
    /// The bytes that the router gets, in order.
    pub open spec fn output(self, recv: Seq<u8>) -> Seq<u8> {
        recv.subrange(0, self.head as int) + self.backlog@ + recv.subrange(
            self.head as int,
            self.end as int,
        )
    }
}

/// The mathematical content of a pass over one buffer of the reliable channel.
pub struct ReceiveTrace {
    /// Where the backlog goes, if this pass writes it.
    pub flush_at: Option<int>,
    /// The bytes before `end` are written.
    pub end: int,
    pub skip: usize,
    pub permanent_fallback: bool,
    pub started: bool,
}

/// The four bytes that open every datagram of the reliable channel: the
/// conversation's number, least significant byte first.
pub open spec fn conv_header(conv: u32) -> Seq<u8> {
    seq![
        (conv % 256) as u8,
        (conv / 256 % 256) as u8,
        (conv / 65536 % 256) as u8,
        (conv / 16777216) as u8,
    ]
}

/// `buf` starts with the bytes of `prefix`.
pub open spec fn starts_with(buf: Seq<u8>, prefix: Seq<u8>) -> bool {
    buf.len() >= prefix.len() && buf.subrange(0, prefix.len() as int) == prefix
}

/// What a pass over `buf` does from `pos` on, with `skip` bytes of an earlier
/// packet to come; `pending` says that a backlog waits to be written,
/// `started` that the start of the stream lies behind.
#[verifier::opaque]
pub open spec fn receive_from(
    buf: Seq<u8>,
    pos: int,
    skip: usize,
    pending: bool,
    started: bool,
) -> ReceiveTrace
    decreases buf.len() - pos,
{
    let end = buf.len() as int;
    if pos < 0 || pos >= end {
        ReceiveTrace { flush_at: None, end, skip, permanent_fallback: false, started }
    } else if skip != 0 {
        let n = if skip <= end - pos {
            skip as int
        } else {
            end - pos
        };
        receive_from(buf, pos + n, (skip - n) as usize, pending, true)
    } else {
        match spec_parse(buf.subrange(pos, end), !started) {
            Packet::Invalid => ReceiveTrace {
                flush_at: None,
                end,
                skip: 0,
                permanent_fallback: true,
                started: true,
            },
            Packet::TruncatedHeader => ReceiveTrace {
                flush_at: None,
                end: pos,
                skip: 0,
                permanent_fallback: false,
                started,
            },
            Packet::Truncated(n) => ReceiveTrace {
                flush_at: None,
                end,
                skip: (n - (end - pos)) as usize,
                permanent_fallback: false,
                started: true,
            },
            Packet::Traffic(n) | Packet::Meta(n) => {
                proof {
                    lemma_parse_bounds(buf.subrange(pos, end), !started);
                }
                let later = receive_from(buf, pos + n, 0, false, true);
                if pending {
                    ReceiveTrace { flush_at: Some(pos + n), ..later }
                } else {
                    later
                }
            },
        }
    }
}

/// Receiver side of the lossy shortcut.
#[derive(Debug)]
pub struct ReceiveLossy {
    /// Number of the conversation on the reliable channel.
    pub peer_conv: u32,
    /// Shortcut packets that arrived while a reliable packet was half written.
    pub backlog: Vec<u8>,
    /// Bytes of a packet begun in an earlier buffer that are still to come.
    pub skip: usize,
    /// Set once the stream could not be dissected: the shortcut is closed from then on.
    pub permanent_fallback: bool,
    /// Set once bytes of the stream were passed on: its start lies behind.
    pub started: bool,
}

impl Default for ReceiveLossy {
    fn default() -> (r: Self)
        ensures
            r.peer_conv == 0,
            r.backlog@ == Seq::<u8>::empty(),
            r.skip == 0,
            !r.permanent_fallback,
            !r.started,
    {
        ReceiveLossy {
            peer_conv: 0,
            backlog: Vec::new(),
            skip: 0,
            permanent_fallback: false,
            started: false,
        }
    }
}

fn has_conv_header(buf: &[u8], conv: u32) -> (r: bool)
    ensures
        r == starts_with(buf@, conv_header(conv)),
{
    if buf.len() < 4 {
        return false;
    }
    let r = buf[0] == (conv % 256) as u8 && buf[1] == (conv / 256 % 256) as u8 && buf[2] == (conv
        / 65536 % 256) as u8 && buf[3] == (conv / 16777216) as u8;
    proof {
        let head = buf@.subrange(0, 4);
        if r {
            assert(head =~= conv_header(conv));
        } else {
            assert(head[0] == buf@[0] && head[1] == buf@[1] && head[2] == buf@[2] && head[3]
                == buf@[3]);
        }
    }
    r
}

impl ReceiveLossy {
    /// Whether `recv`, a datagram from the peer, is taken as a shortcut
    /// packet. No datagram of the shortcut holds the start of the stream.
    pub open spec fn accepts(self, recv: Seq<u8>) -> bool {
        &&& !self.permanent_fallback
        &&& !starts_with(recv, conv_header(self.peer_conv))
        &&& spec_parse(recv, false) is Traffic
    }

    /// What `read_reliable` does with `buf` in the state `self`.
    pub open spec fn trace(self, buf: Seq<u8>) -> ReceiveTrace {
        if self.permanent_fallback {
            ReceiveTrace {
                flush_at: None,
                end: buf.len() as int,
                skip: self.skip,
                permanent_fallback: true,
                started: self.started,
            }
        } else {
            receive_from(buf, 0, self.skip, self.backlog@.len() > 0, self.started)
        }
    }

    /// Sorts a datagram from the peer: one that does not open with the
    /// conversation's number and starts with a complete traffic packet is a
    /// shortcut packet. The router gets it at once, unless a packet of the
    /// reliable channel is half written: then it joins the backlog.
    pub fn recv_lossy(&mut self, recv: &[u8]) -> (r: Delivery)
        ensures
            final(self).peer_conv == old(self).peer_conv,
            final(self).skip == old(self).skip,
            final(self).permanent_fallback == old(self).permanent_fallback,
            final(self).started == old(self).started,
            r == if !old(self).accepts(recv@) {
                Delivery::Declined
            } else if old(self).skip == 0 {
                Delivery::Forward
            } else {
                Delivery::Queued
            },
            final(self).backlog@ == if r == Delivery::Queued {
                old(self).backlog@ + recv@
            } else {
                old(self).backlog@
            },
    {
        if self.permanent_fallback {
            return Delivery::Declined;
        }
        if has_conv_header(recv, self.peer_conv) || !parse_yggdrasil_packet(
            recv,
            false,
        ).is_traffic() {
            return Delivery::Declined;
        }
        if self.skip == 0 {
            Delivery::Forward
        } else {
            self.backlog.extend_from_slice(recv);
            Delivery::Queued
        }
    }

    /// Gives up dissecting for good: the whole of `recv` is written, and a
    /// backlog that waited when the shortcut closed is discarded.
    pub fn recover(&mut self, recv: &[u8]) -> (plan: ReceivePlan)
        ensures
            final(self).permanent_fallback,
            final(self).peer_conv == old(self).peer_conv,
            final(self).skip == old(self).skip,
            final(self).started == old(self).started,
            final(self).backlog@ == if old(self).permanent_fallback {
                old(self).backlog@
            } else {
                Seq::<u8>::empty()
            },
            plan.head == 0,
            plan.backlog@ == Seq::<u8>::empty(),
            plan.end == recv@.len(),
            plan.left == 0,
    {
        if !self.permanent_fallback {
            self.permanent_fallback = true;
            self.backlog.clear();
        }
        ReceivePlan { head: 0, backlog: Vec::new(), end: recv.len(), left: 0 }
    }

    /// Plans the writing of one buffer read from the reliable channel. The
    /// bytes go to the router in order; a backlog of shortcut packets is put
    /// behind the first packet that this pass completes; a header cut off by
    /// the buffer's end waits for the next read.
    pub fn read_reliable(&mut self, recv: &[u8]) -> (plan: ReceivePlan)
        ensures
            final(self).peer_conv == old(self).peer_conv,
            final(self).skip == old(self).trace(recv@).skip,
            final(self).permanent_fallback == old(self).trace(recv@).permanent_fallback,
            final(self).started == old(self).trace(recv@).started,
            plan.end == old(self).trace(recv@).end,
            plan.left == recv@.len() - plan.end,
            match old(self).trace(recv@).flush_at {
                Some(at) => plan.head == at && plan.backlog@ == old(self).backlog@ && final(self).backlog@
                    == Seq::<u8>::empty(),
                None => plan.head == 0 && plan.backlog@ == Seq::<u8>::empty() && final(self).backlog@
                    == if old(self).permanent_fallback || !final(self).permanent_fallback {
                    old(self).backlog@
                } else {
                    Seq::<u8>::empty()
                },
            },
    {
        if self.permanent_fallback {
            return self.recover(recv);
        }
        let end: usize = recv.len();
        let mut pos: usize = 0;
        let mut head: usize = 0;
        let mut flushed: Vec<u8> = Vec::new();
        let ghost total = self.trace(recv@);
        let ghost mut flush_at: Option<int> = None;
        while pos < end
            invariant
                pos <= end,
                end == recv@.len(),
                total == old(self).trace(recv@),
                !old(self).permanent_fallback,
                !self.permanent_fallback,
                self.peer_conv == old(self).peer_conv,
                match flush_at {
                    Some(at) => head == at && flushed@ == old(self).backlog@ && self.backlog@
                        == Seq::<u8>::empty(),
                    None => head == 0 && flushed@ == Seq::<u8>::empty() && self.backlog@ == old(self).backlog@,
                },
                flush_at is Some ==> receive_from(
                    recv@,
                    pos as int,
                    self.skip,
                    self.backlog@.len() > 0,
                    self.started,
                ).flush_at is None,
                total == (ReceiveTrace {
                    flush_at: if flush_at is Some {
                        flush_at
                    } else {
                        receive_from(
                            recv@,
                            pos as int,
                            self.skip,
                            self.backlog@.len() > 0,
                            self.started,
                        ).flush_at
                    },
                    ..receive_from(
                        recv@,
                        pos as int,
                        self.skip,
                        self.backlog@.len() > 0,
                        self.started,
                    )
                }),
            decreases end - pos,
        {
            let ghost pending = self.backlog@.len() > 0;
            let ghost here = receive_from(recv@, pos as int, self.skip, pending, self.started);
            if self.skip != 0 {
                let n: usize = if self.skip <= end - pos {
                    self.skip
                } else {
                    end - pos
                };
                self.skip = self.skip - n;
                self.started = true;
                pos = pos + n;
                proof {
                    assert(here == receive_from(recv@, pos as int, self.skip, pending, true)) by {
                        reveal_with_fuel(receive_from, 1);
                    }
                }
            } else {
                let rest = slice_subrange(recv, pos, end);
                proof {
                    lemma_parse_bounds(rest@, !self.started);
                }
                match parse_yggdrasil_packet(rest, !self.started) {
                    Packet::Invalid => {
                        proof {
                            assert(here == (ReceiveTrace {
                                flush_at: None,
                                end: end as int,
                                skip: 0,
                                permanent_fallback: true,
                                started: true,
                            })) by {
                                reveal_with_fuel(receive_from, 1);
                            }
                        }
                        self.permanent_fallback = true;
                        self.started = true;
                        self.backlog.clear();
                        return ReceivePlan { head, backlog: flushed, end, left: 0 };
                    },
                    Packet::TruncatedHeader => {
                        proof {
                            assert(here == (ReceiveTrace {
                                flush_at: None,
                                end: pos as int,
                                skip: 0,
                                permanent_fallback: false,
                                started: self.started,
                            })) by {
                                reveal_with_fuel(receive_from, 1);
                            }
                        }
                        return ReceivePlan { head, backlog: flushed, end: pos, left: end - pos };
                    },
                    Packet::Truncated(n) => {
                        proof {
                            assert(here == (ReceiveTrace {
                                flush_at: None,
                                end: end as int,
                                skip: (n - (end - pos)) as usize,
                                permanent_fallback: false,
                                started: true,
                            })) by {
                                reveal_with_fuel(receive_from, 1);
                            }
                        }
                        self.skip = n - (end - pos);
                        self.started = true;
                        return ReceivePlan { head, backlog: flushed, end, left: 0 };
                    },
                    Packet::Traffic(n) | Packet::Meta(n) => {
                        proof {
                            let later = receive_from(recv@, pos + n, 0, false, true);
                            assert(here == if pending {
                                ReceiveTrace { flush_at: Some(pos + n), ..later }
                            } else {
                                later
                            }) by {
                                reveal_with_fuel(receive_from, 1);
                            }
                            lemma_no_second_flush(recv@, pos + n, 0, true);
                        }
                        pos = pos + n;
                        self.started = true;
                        if self.backlog.len() > 0 {
                            proof {
                                flush_at = Some(pos as int);
                            }
                            head = pos;
                            core::mem::swap(&mut self.backlog, &mut flushed);
                        }
                    },
                }
            }
        }
        proof {
            assert(receive_from(
                recv@,
                pos as int,
                self.skip,
                self.backlog@.len() > 0,
                self.started,
            ) == (ReceiveTrace {
                flush_at: None,
                end: end as int,
                skip: self.skip,
                permanent_fallback: false,
                started: self.started,
            })) by {
                reveal_with_fuel(receive_from, 1);
            }
        }
        ReceivePlan { head, backlog: flushed, end, left: 0 }
    }
}

/// A pass that has no backlog to write writes none.
pub proof fn lemma_no_second_flush(buf: Seq<u8>, pos: int, skip: usize, started: bool)
    ensures
        receive_from(buf, pos, skip, false, started).flush_at is None,
    decreases buf.len() - pos,
{
    let end = buf.len() as int;
    reveal_with_fuel(receive_from, 1);
    if 0 <= pos < end {
        if skip != 0 {
            let n = if skip <= end - pos {
                skip as int
            } else {
                end - pos
            };
            lemma_no_second_flush(buf, pos + n, (skip - n) as usize, true);
        } else {
            lemma_parse_bounds(buf.subrange(pos, end), !started);
            match spec_parse(buf.subrange(pos, end), !started) {
                Packet::Traffic(n) | Packet::Meta(n) => {
                    lemma_no_second_flush(buf, pos + n, 0, true);
                },
                _ => {},
            }
        }
    }
}

} // verus!
