//! The traversal of NATs and firewalls: the transactions that mark its
//! messages, the prober's decisions, and the sessions that a listener serves.

use crate::address::SocketAddress;
use crate::protocol::JUMPER_PREFIX;
use crate::stun_wire::{
    bytes_view, check_integrity, decode_header, encode_request, encode_success, sign,
    request_bytes, stun_header, stun_integrity, stun_signed, stun_success, Integrity, StunClass,
    StunHeader,
    BINDING_METHOD, DECODE_LIMIT,
};
use crate::utils::timeout::Nanos;
use std::collections::HashMap;
use vstd::prelude::*;
use vstd::std_specs::hash::*;

verus! {

broadcast use vstd::std_specs::hash::group_hash_axioms;

/// What authenticates the messages of a traversal over the Internet.
#[derive(Debug, Clone)]
pub struct InetTraversal {
    pub session_id: u64,
    /// Key of the message integrity of every message.
    pub shared_secret: String,
}

/// A traversal that waits for messages, with the channel on which the
/// listener hands them over.
#[derive(Debug)]
pub struct InetTraversalSession<C> {
    pub inet: InetTraversal,
    pub chan: C,
}

/// The eight bytes of `n`, least significant first.
pub open spec fn le_bytes(n: u64) -> Seq<u8> {
    Seq::new(8, |i: int| ((n as nat) / pow256(i as nat) % 256) as u8)
}

/// 256 to the power `i`.
pub open spec fn pow256(i: nat) -> nat
    decreases i,
{
    if i == 0 {
        1
    } else {
        256 * pow256((i - 1) as nat)
    }
}

/// The number that eight bytes write, least significant first.
pub open spec fn from_le_bytes(bytes: Seq<u8>) -> nat
    decreases bytes.len(),
{
    if bytes.len() == 0 {
        0
    } else {
        bytes[0] as nat + 256 * from_le_bytes(bytes.drop_first())
    }
}

/// The transaction of the messages of a session: the protocol's mark and the
/// session's id, least significant byte first.
pub open spec fn spec_stun_transaction(session_id: u64) -> Seq<u8> {
    JUMPER_PREFIX@ + le_bytes(session_id)
}

/// Makes the transaction that marks the messages of a session.
pub fn new_stun_transaction(session_id: u64) -> (r: [u8; 12])
    ensures
        r@ == spec_stun_transaction(session_id),
{
    let r: [u8; 12] = [
        JUMPER_PREFIX[0],
        JUMPER_PREFIX[1],
        JUMPER_PREFIX[2],
        JUMPER_PREFIX[3],
        (session_id % 256) as u8,
        (session_id / 0x100 % 256) as u8,
        (session_id / 0x1_0000 % 256) as u8,
        (session_id / 0x100_0000 % 256) as u8,
        (session_id / 0x1_0000_0000 % 256) as u8,
        (session_id / 0x100_0000_0000 % 256) as u8,
        (session_id / 0x1_0000_0000_0000 % 256) as u8,
        (session_id / 0x100_0000_0000_0000 % 256) as u8,
    ];
    proof {
        reveal_with_fuel(pow256, 9);
        assert(r@ =~= spec_stun_transaction(session_id));
    }
    r
}

/// The session that a transaction belongs to, if it bears the protocol's mark.
pub open spec fn spec_session_of(id: Seq<u8>) -> Option<u64> {
    if id.len() == 12 && id.subrange(0, 4) == JUMPER_PREFIX@ {
        Some(from_le_bytes(id.subrange(4, 12)) as u64)
    } else {
        None
    }
}

/// Reads the session's id from a transaction that bears the protocol's mark.
pub fn extract_session_id(id: &[u8; 12]) -> (r: Option<u64>)
    ensures
        r == spec_session_of(id@),
{
    if id[0] != JUMPER_PREFIX[0] || id[1] != JUMPER_PREFIX[1] || id[2] != JUMPER_PREFIX[2] || id[3]
        != JUMPER_PREFIX[3] {
        proof {
            let head = id@.subrange(0, 4);
            assert(head[0] == id@[0] && head[1] == id@[1] && head[2] == id@[2] && head[3]
                == id@[3]);
        }
        return None;
    }
    let r: u64 = (id[4] as u64) + (id[5] as u64) * 0x100 + (id[6] as u64) * 0x1_0000 + (
    id[7] as u64) * 0x100_0000 + (id[8] as u64) * 0x1_0000_0000 + (id[9] as u64)
        * 0x100_0000_0000 + (id[10] as u64) * 0x1_0000_0000_0000 + (id[11] as u64)
        * 0x100_0000_0000_0000;
    proof {
        assert(id@.subrange(0, 4) =~= JUMPER_PREFIX@);
        let tail = id@.subrange(4, 12);
        lemma_from_le_bytes_8(tail);
    }
    Some(r)
}

proof fn lemma_from_le_bytes_8(b: Seq<u8>)
    requires
        b.len() == 8,
    ensures
        from_le_bytes(b) == b[0] + b[1] * 0x100 + b[2] * 0x1_0000 + b[3] * 0x100_0000 + b[4]
            * 0x1_0000_0000 + b[5] * 0x100_0000_0000 + b[6] * 0x1_0000_0000_0000 + b[7]
            * 0x100_0000_0000_0000,
{
    let b1 = b.drop_first();
    let b2 = b1.drop_first();
    let b3 = b2.drop_first();
    let b4 = b3.drop_first();
    let b5 = b4.drop_first();
    let b6 = b5.drop_first();
    let b7 = b6.drop_first();
    let b8 = b7.drop_first();
    assert(from_le_bytes(b8) == 0);
    assert(from_le_bytes(b7) == b7[0] + 256 * from_le_bytes(b8));
    assert(from_le_bytes(b6) == b6[0] + 256 * from_le_bytes(b7));
    assert(from_le_bytes(b5) == b5[0] + 256 * from_le_bytes(b6));
    assert(from_le_bytes(b4) == b4[0] + 256 * from_le_bytes(b5));
    assert(from_le_bytes(b3) == b3[0] + 256 * from_le_bytes(b4));
    assert(from_le_bytes(b2) == b2[0] + 256 * from_le_bytes(b3));
    assert(from_le_bytes(b1) == b1[0] + 256 * from_le_bytes(b2));
    assert(from_le_bytes(b) == b[0] + 256 * from_le_bytes(b1));
}

/// A transaction made for a session gives the session back.
pub proof fn lemma_transaction_round_trip(session_id: u64)
    ensures
        spec_session_of(spec_stun_transaction(session_id)) == Some(session_id),
{
    let id = spec_stun_transaction(session_id);
    assert(id.subrange(0, 4) =~= JUMPER_PREFIX@);
    let tail = id.subrange(4, 12);
    assert(tail =~= le_bytes(session_id));
    lemma_from_le_bytes_8(tail);
    reveal_with_fuel(pow256, 9);
    let n = session_id;
    assert(n % 256 + (n / 0x100 % 256) * 0x100 + (n / 0x1_0000 % 256) * 0x1_0000 + (n
        / 0x100_0000 % 256) * 0x100_0000 + (n / 0x1_0000_0000 % 256) * 0x1_0000_0000 + (n
        / 0x100_0000_0000 % 256) * 0x100_0000_0000 + (n / 0x1_0000_0000_0000 % 256)
        * 0x1_0000_0000_0000 + (n / 0x100_0000_0000_0000 % 256) * 0x100_0000_0000_0000 == n)
        by (bit_vector);
}

/// Class and session of a message with the given header, if it is a binding
/// message of this protocol: the method is the binding method and the
/// transaction bears the protocol's mark.
pub open spec fn spec_classify(header: Option<StunHeader>) -> Option<(StunClass, u64)> {
    match header {
        Some(header) => if header.method != BINDING_METHOD {
            None
        } else {
            match spec_session_of(header.transaction_id@) {
                Some(session_id) => Some((header.class, session_id)),
                None => None,
            }
        },
        None => None,
    }
}

/// Class and session of the message in `buf`, if `buf` is a binding message
/// of this protocol. What is too long for the decoder is none.
pub open spec fn spec_parse_stun_message(buf: Seq<u8>) -> Option<(StunClass, u64)> {
    if buf.len() < DECODE_LIMIT {
        spec_classify(stun_header(buf))
    } else {
        None
    }
}

/// What the check of the message integrity of the message in `buf` against
/// `secret` finds. What is too long for the decoder counts as no message.
pub open spec fn spec_integrity(buf: Seq<u8>, secret: Seq<char>) -> Integrity {
    if buf.len() < DECODE_LIMIT {
        stun_integrity(buf, secret)
    } else {
        Integrity::Undecoded
    }
}

/// Checks the message integrity of the message in `buf` against `secret`.
pub fn integrity(buf: &[u8], secret: &str) -> (r: Integrity)
    ensures
        r == spec_integrity(buf@, secret@),
{
    if buf.len() < DECODE_LIMIT {
        check_integrity(buf, secret)
    } else {
        Integrity::Undecoded
    }
}

/// Reads class and session from the header of a message of a traversal.
pub fn classify(header: Option<StunHeader>) -> (r: Option<(StunClass, u64)>)
    ensures
        r == spec_classify(header),
{
    let header = match header {
        Some(header) => header,
        None => {
            return None;
        },
    };
    if header.method != BINDING_METHOD {
        return None;
    }
    match extract_session_id(&header.transaction_id) {
        Some(session_id) => Some((header.class, session_id)),
        None => None,
    }
}

/// Reads a datagram as a message of a traversal: a STUN binding message
/// whose transaction bears the protocol's mark. Gives the message's class and
/// the id of its session.
pub fn parse_stun_message(buf: &[u8]) -> (r: Option<(StunClass, u64)>)
    ensures
        r == spec_parse_stun_message(buf@),
{
    if buf.len() < DECODE_LIMIT {
        classify(decode_header(buf))
    } else {
        None
    }
}

/// Whether the message in `buf`, found to be of the session `session_id`,
/// belongs to the traversal `inet` and was made with its secret.
pub fn verify_stun_message_integrity(buf: &[u8], session_id: u64, inet: &InetTraversal) -> (r:
    bool)
    ensures
        r == (session_id == inet.session_id && spec_integrity(buf@, inet.shared_secret@)
            == Integrity::Valid),
{
    if session_id != inet.session_id {
        return false;
    }
    integrity(buf, inet.shared_secret.as_str()) == Integrity::Valid
}

/// A message as it is sent: signed with the secret where there is one, and
/// as it is where there is none. Nothing where there is no message, or where
/// it cannot be signed: what is too long for the decoder cannot.
pub open spec fn spec_signed(message: Option<Seq<u8>>, secret: Option<Seq<char>>) -> Option<
    Seq<u8>,
> {
    match (message, secret) {
        (Some(message), Some(secret)) => if message.len() < DECODE_LIMIT {
            stun_signed(message, secret)
        } else {
            None
        },
        (Some(message), None) => Some(message),
        (None, _) => None,
    }
}

/// Signs a message with the secret of a session, where there is a session.
pub fn signed(message: Option<Vec<u8>>, secret: Option<&str>) -> (r: Option<Vec<u8>>)
    ensures
        bytes_view(r) == spec_signed(
            bytes_view(message),
            match secret {
                Some(s) => Some(s@),
                None => None,
            },
        ),
{
    match message {
        Some(message) => match secret {
            Some(secret) => {
                if message.len() < DECODE_LIMIT {
                    sign(message.as_slice(), secret)
                } else {
                    None
                }
            },
            None => Some(message),
        },
        None => None,
    }
}

/// How often a traversal probes and how long it waits each time.
#[derive(Debug, Clone, Copy)]
pub struct TraversalParams {
    pub retry_count: u32,
    pub cycle: Nanos,
}

/// What reaches a prober while it waits.
#[derive(Debug, Clone, Copy, PartialEq, Eq, Structural)]
pub enum Origin {
    /// The socket of the traversal itself.
    Socket,
    /// A listener of this machine, which saw the message come from the given address.
    Listener(SocketAddress),
}

/// What a prober does next.
#[derive(Debug)]
pub enum Probe {
    /// The rounds are over.
    Done,
    /// Send these bytes to the peer, then wait for a message or for the cycle to pass.
    Send(Vec<u8>),
    /// The message of this round could not be encoded: wait without sending.
    Skip,
}

/// One end of a traversal: it probes the peer until the peer has
/// acknowledged, both have, or the rounds are used up.
#[derive(Debug)]
pub struct Prober {
    /// Rounds that a traversal starts with.
    pub retry_count: u32,
    /// Rounds that are left.
    pub counter: u64,
    /// The peer was heard: the messages acknowledge from now on.
    pub send_ack: bool,
    /// The peer has acknowledged.
    pub got_remote_ack: bool,
    /// The peer has left the traversal behind: no further round is needed.
    pub finished: bool,
    /// Where the peer is taken to be.
    pub remote: SocketAddress,
    /// The session of the traversal over the Internet; none while a firewall is warmed up.
    pub inet: Option<InetTraversal>,
}

impl Prober {
    /// The session's id in the transactions: 0 where there is no session.
    pub open spec fn session_id(&self) -> u64 {
        match self.inet {
            Some(inet) => inet.session_id,
            None => 0,
        }
    }

    /// The secret of the session, if there is one.
    pub open spec fn secret(&self) -> Option<Seq<char>> {
        match self.inet {
            Some(inet) => Some(inet.shared_secret@),
            None => None,
        }
    }

    /// The bytes of the message of the next round: a success response that
    /// names the peer's address once the peer was heard, a request before,
    /// signed with the session's secret where there is a session.
    pub open spec fn message(&self) -> Option<Seq<u8>> {
        spec_signed(
            if self.send_ack {
                stun_success(spec_stun_transaction(self.session_id()), self.remote)
            } else {
                Some(request_bytes(spec_stun_transaction(self.session_id())))
            },
            self.secret(),
        )
    }

    /// Whether rounds are left to run.
    pub open spec fn running(&self) -> bool {
        self.counter > 0 && !self.finished
    }

    /// The counter has not grown unless the prober acknowledges, and then
    /// only by the one extension that the first request brings.
    pub open spec fn wf(&self) -> bool {
        if self.send_ack {
            self.counter <= 2 * self.retry_count + 2
        } else {
            self.counter <= self.retry_count
        }
    }

    /// A prober before its first round.
    pub fn new(params: &TraversalParams, remote: SocketAddress, inet: Option<InetTraversal>) -> (r:
        Prober)
        ensures
            r.retry_count == params.retry_count,
            r.counter == params.retry_count,
            !r.send_ack,
            !r.got_remote_ack,
            !r.finished,
            r.remote == remote,
            r.inet == inet,
            r.wf(),
    {
        Prober {
            retry_count: params.retry_count,
            counter: params.retry_count as u64,
            send_ack: false,
            got_remote_ack: false,
            finished: false,
            remote,
            inet,
        }
    }

    /// Starts the next round, if one is left: counts it and gives the message to send.
    pub fn next(&mut self) -> (r: Probe)
        requires
            old(self).wf(),
        ensures
            final(self).wf(),
            final(self).retry_count == old(self).retry_count,
            final(self).send_ack == old(self).send_ack,
            final(self).got_remote_ack == old(self).got_remote_ack,
            final(self).finished == old(self).finished,
            final(self).remote == old(self).remote,
            final(self).inet == old(self).inet,
            final(self).counter == if old(self).running() {
                (old(self).counter - 1) as u64
            } else {
                old(self).counter
            },
            match r {
                Probe::Done => !old(self).running(),
                Probe::Send(bytes) => old(self).running() && old(self).message() == Some(bytes@),
                Probe::Skip => old(self).running() && old(self).message() is None,
            },
    {
        if self.counter == 0 || self.finished {
            return Probe::Done;
        }
        self.counter = self.counter - 1;
        let (session_id, secret): (u64, Option<&str>) = match &self.inet {
            Some(inet) => (inet.session_id, Some(inet.shared_secret.as_str())),
            None => (0, None),
        };
        let id = new_stun_transaction(session_id);
        let plain = if self.send_ack {
            encode_success(&id, self.remote)
        } else {
            encode_request(&id)
        };
        match signed(plain, secret) {
            Some(bytes) => Probe::Send(bytes),
            None => Probe::Skip,
        }
    }

    /// The class of the message that a datagram hands to the prober, if it
    /// hands it one, from what was read of the datagram. A datagram that
    /// starts with the protocol's mark comes from a peer that has left the
    /// traversal behind, and counts as an indication. Any other must be a
    /// binding message of this protocol, of the prober's session and made with
    /// its secret where there is a session. A request is no longer heard once
    /// the prober acknowledges.
    pub open spec fn spec_judge(
        &self,
        marked: bool,
        parsed: Option<(StunClass, u64)>,
        integrity: Integrity,
    ) -> Option<StunClass> {
        if marked {
            Some(StunClass::Indication)
        } else {
            match parsed {
                None => None,
                Some((class, session_id)) => if self.inet is Some && !(session_id
                    == self.session_id() && integrity == Integrity::Valid) {
                    None
                } else if class is Request && self.send_ack {
                    None
                } else {
                    Some(class)
                },
            }
        }
    }

    /// Decides whether a datagram is heard, from what was read of it:
    /// whether it starts with the protocol's mark, its class and session where
    /// it is a binding message of this protocol, and what the check of its
    /// message integrity against the session's secret found.
    pub fn judge(&self, marked: bool, parsed: Option<(StunClass, u64)>, integrity: Integrity) -> (r:
        Option<StunClass>)
        ensures
            r == self.spec_judge(marked, parsed, integrity),
    {
        if marked {
            return Some(StunClass::Indication);
        }
        let (class, session_id) = match parsed {
            Some(found) => found,
            None => {
                return None;
            },
        };
        match &self.inet {
            Some(inet) => {
                if session_id != inet.session_id || integrity != Integrity::Valid {
                    return None;
                }
            },
            None => {},
        }
        if class == StunClass::Request && self.send_ack {
            None
        } else {
            Some(class)
        }
    }

    /// What `hears` makes of a datagram.
    pub open spec fn spec_hears(&self, buf: Seq<u8>) -> Option<StunClass> {
        self.spec_judge(
            buf.len() >= 4 && buf.subrange(0, 4) == JUMPER_PREFIX@,
            spec_parse_stun_message(buf),
            match self.secret() {
                Some(secret) => spec_integrity(buf, secret),
                None => Integrity::Absent,
            },
        )
    }

    /// Sorts a datagram that arrived on the traversal's own socket: reads it
    /// and decides whether it is heard.
    pub fn hears(&self, buf: &[u8]) -> (r: Option<StunClass>)
        ensures
            r == self.spec_hears(buf@),
    {
        let marked = buf.len() >= 4 && buf[0] == JUMPER_PREFIX[0] && buf[1] == JUMPER_PREFIX[1]
            && buf[2] == JUMPER_PREFIX[2] && buf[3] == JUMPER_PREFIX[3];
        proof {
            if buf@.len() >= 4 {
                let head = buf@.subrange(0, 4);
                assert(head[0] == buf@[0] && head[1] == buf@[1] && head[2] == buf@[2] && head[3]
                    == buf@[3]);
                if marked {
                    assert(head =~= JUMPER_PREFIX@);
                }
            }
        }
        let found = match &self.inet {
            Some(inet) => integrity(buf, inet.shared_secret.as_str()),
            None => Integrity::Absent,
        };
        self.judge(marked, parse_stun_message(buf), found)
    }

    /// Whether the prober takes note of a message that a listener hands over:
    /// a request is no longer heard once the prober acknowledges.
    pub fn admits(&self, class: StunClass) -> (r: bool)
        ensures
            r == !(class is Request && self.send_ack),
    {
        !(class == StunClass::Request && self.send_ack)
    }

    /// Takes note of a message of the peer. A message that a listener saw
    /// come from another address moves the peer there: the new address is
    /// returned for the socket to be connected to. The first request makes
    /// the prober acknowledge and adds half of the first count to the rounds;
    /// the first success response is the peer's acknowledgement and leaves two
    /// rounds; an indication shows that the peer has left the traversal
    /// behind, which only a peer does that was acknowledged: it ends the
    /// traversal with success.
    pub fn on_message(&mut self, origin: Origin, class: StunClass) -> (r: Option<SocketAddress>)
        requires
            old(self).wf(),
        ensures
            final(self).wf(),
            final(self).retry_count == old(self).retry_count,
            final(self).inet == old(self).inet,
            r == match origin {
                Origin::Listener(from) if from != old(self).remote => Some(from),
                _ => None,
            },
            final(self).remote == match origin {
                Origin::Listener(from) => from,
                Origin::Socket => old(self).remote,
            },
            final(self).send_ack == (old(self).send_ack || class is Request || (class
                is SuccessResponse && !old(self).got_remote_ack)),
            final(self).got_remote_ack == (old(self).got_remote_ack || class is SuccessResponse
                || class is Indication),
            final(self).finished == (old(self).finished || class is Indication),
            final(self).counter == if class is Request && !old(self).send_ack {
                (old(self).counter + old(self).retry_count / 2) as u64
            } else if class is SuccessResponse && !old(self).got_remote_ack {
                2
            } else {
                old(self).counter
            },
    {
        let mut moved: Option<SocketAddress> = None;
        match origin {
            Origin::Listener(from) => {
                if from != self.remote {
                    moved = Some(from);
                    self.remote = from;
                }
            },
            Origin::Socket => {},
        }
        match class {
            StunClass::Request => {
                if !self.send_ack {
                    self.counter = self.counter + (self.retry_count / 2) as u64;
                    self.send_ack = true;
                }
            },
            StunClass::SuccessResponse => {
                if !self.got_remote_ack {
                    self.send_ack = true;
                    self.got_remote_ack = true;
                    self.counter = 2;
                }
            },
            StunClass::Indication => {
                self.finished = true;
                self.got_remote_ack = true;
            },
            StunClass::ErrorResponse => {},
        }
        moved
    }

    /// Whether the traversal has succeeded: the peer has acknowledged, or
    /// has shown that it was acknowledged itself.
    pub fn succeeded(&self) -> (r: bool)
        ensures
            r == self.got_remote_ack,
    {
        self.got_remote_ack
    }
}

/// The traversals over the Internet that wait for messages, by the ids of
/// their sessions.
#[derive(Debug)]
pub struct TraversalSessions<C> {
    pub sessions: HashMap<u64, InetTraversalSession<C>>,
}

impl<C> TraversalSessions<C> {
    /// Every traversal is entered under the id of its own session.
    pub open spec fn wf(&self) -> bool {
        forall|id: u64| #[trigger]
            self.sessions@.contains_key(id) ==> self.sessions@[id].inet.session_id == id
    }

    /// No traversal waits.
    pub fn new() -> (r: Self)
        ensures
            r.wf(),
            r.sessions@ == Map::<u64, InetTraversalSession<C>>::empty(),
    {
        TraversalSessions { sessions: HashMap::new() }
    }

    /// Enters a traversal with the channel on which it waits. Refuses, and
    /// hands the traversal back, where one of the same session is entered already.
    pub fn register(&mut self, session: InetTraversalSession<C>) -> (r: Result<
        (),
        InetTraversalSession<C>,
    >)
        requires
            old(self).wf(),
        ensures
            final(self).wf(),
            match r {
                Ok(()) => !old(self).sessions@.contains_key(session.inet.session_id) && final(self).sessions@ == old(self).sessions@.insert(session.inet.session_id, session),
                Err(back) => old(self).sessions@.contains_key(session.inet.session_id) && back
                    == session && final(self).sessions@ == old(self).sessions@,
            },
    {
        let id = session.inet.session_id;
        if self.sessions.contains_key(&id) {
            return Err(session);
        }
        self.sessions.insert(id, session);
        Ok(())
    }

    /// Strikes the traversal of the session `session_id`.
    pub fn remove(&mut self, session_id: u64)
        requires
            old(self).wf(),
        ensures
            final(self).wf(),
            final(self).sessions@ == old(self).sessions@.remove(session_id),
    {
        self.sessions.remove(&session_id);
    }

    /// The traversal that a message of the session `session_id` is for.
    pub fn addressee(&self, session_id: u64) -> (r: Option<&InetTraversalSession<C>>)
        requires
            self.wf(),
        ensures
            match r {
                Some(session) => self.sessions@.contains_key(session_id)
                    && self.sessions@[session_id] == *session && session.inet.session_id
                    == session_id,
                None => !self.sessions@.contains_key(session_id),
            },
    {
        self.sessions.get(&session_id)
    }
}

} // verus!
