//! What the two daemons tell each other over the overlay, and what each
//! derives from it.

use crate::address::{OverlayAddress, SocketAddress, Transport};
use crate::bridge::{
    peering_direction, protocol_supported, spec_peering_direction, spec_protocol_supported,
    BridgeParams, ConnectionMode, PeeringProtocol,
};
use crate::chance::random_u32;
use crate::network::InetTraversal;
use crate::stun::Mapping;
use crate::text::{decimal, decimal_digits, digit_char, has_prefix, hex, hex_digits, less, lex_less, starts_with};
use vstd::prelude::*;

verus! {

/// The four bytes that mark a datagram of this protocol.
pub const JUMPER_PREFIX: [u8; 4] = [0x6a, 0x6d, 0x70, 0x72];

/// Number of the protocol, as a node advertises it.
pub const PROTOCOL_VERSION: u8 = 4;

/// What a side says of itself when a handshake begins.
#[derive(Debug)]
pub struct Header {
    /// Name and number of the protocol that the side speaks.
    pub version: String,
    /// A random number: the two of them make the session's id.
    pub rand: u32,
    /// A random number: the two of them make the shared secret.
    pub secret_rand: u32,
    /// The schemes by which the side's router can peer.
    pub supported_protocols: Vec<PeeringProtocol>,
    /// Those of them on which the router listens.
    pub server_available: Vec<PeeringProtocol>,
    /// The side's addresses as the Internet sees them.
    pub candidates: Vec<SocketAddress>,
    /// Whether the side offers the lossy shortcut.
    pub yggdrasil_dpi: bool,
    /// Half of a password for the peering, where the side asks for one.
    pub nonce: Option<String>,
}

impl Header {
    /// The header of this side for a handshake, with two numbers drawn at
    /// random for the session's id and the shared secret.
    pub fn new(
        version: String,
        supported_protocols: Vec<PeeringProtocol>,
        server_available: Vec<PeeringProtocol>,
        candidates: Vec<SocketAddress>,
        yggdrasil_dpi: bool,
        nonce: Option<String>,
    ) -> (r: Header)
        ensures
            r.version == version,
            r.supported_protocols == supported_protocols,
            r.server_available == server_available,
            r.candidates == candidates,
            r.yggdrasil_dpi == yggdrasil_dpi,
            r.nonce == nonce,
    {
        Header {
            version,
            rand: random_u32(),
            secret_rand: random_u32(),
            supported_protocols,
            server_available,
            candidates,
            yggdrasil_dpi,
            nonce,
        }
    }
}

/// The external addresses of the mappings, in their order: the candidates
/// that a side names in its header.
pub fn candidates_of(mappings: &Vec<Mapping>) -> (r: Vec<SocketAddress>)
    ensures
        r@.len() == mappings@.len(),
        forall|i: int| 0 <= i < mappings@.len() ==> r@[i] == mappings@[i].external,
{
    let mut out: Vec<SocketAddress> = Vec::new();
    let mut i: usize = 0;
    while i < mappings.len()
        invariant
            i <= mappings@.len(),
            out@.len() == i,
            forall|j: int| 0 <= j < i ==> out@[j] == mappings@[j].external,
        decreases mappings@.len() - i,
    {
        out.push(mappings[i].external);
        i = i + 1;
    }
    out
}

/// Why a handshake ends without a rendezvous.
#[derive(Debug, Clone, Copy, PartialEq, Eq, Structural)]
pub enum HandshakeError {
    /// The peer speaks another protocol.
    VersionMismatch,
    /// Both sides drew the same random number: the attempt ends without a fault.
    Collision,
    /// No scheme by which the two routers can peer.
    NoCommonProtocol,
    /// No address family in which both sides have an external address.
    NoCommonFamily,
}

/// What every version of the protocol starts its name with.
pub open spec fn version_prefix() -> Seq<char> {
    seq![
        'y', 'g', 'g', 'd', 'r', 'a', 's', 'i', 'l', '-', 'j', 'u', 'm', 'p', 'e', 'r', '-', 'v',
    ]
}

/// The name of the version `major.minor` of the protocol.
pub open spec fn spec_version_string(major: u8, minor: u8) -> Seq<char> {
    version_prefix() + decimal_digits(major as nat) + seq!['.'] + decimal_digits(minor as nat)
}

/// Writes the name of a version of the protocol.
pub fn version_string(major: u8, minor: u8) -> (r: String)
    ensures
        r@ == spec_version_string(major, minor),
{
    proof {
        reveal_strlit("yggdrasil-jumper-v");
        reveal_strlit(".");
    }
    assert("yggdrasil-jumper-v"@ =~= version_prefix());
    assert("."@ =~= seq!['.']);
    let mut r = String::from_str("yggdrasil-jumper-v");
    r.append(decimal(major as u64).as_str());
    r.append(".");
    r.append(decimal(minor as u64).as_str());
    r
}

/// Whether a peer that names its version so can be talked to: the name of
/// the protocol counts, the number behind it does not.
pub fn version_compatible(version: &str) -> (r: bool)
    ensures
        r == has_prefix(version@, version_prefix()),
{
    proof {
        reveal_strlit("yggdrasil-jumper-v");
    }
    assert("yggdrasil-jumper-v"@ =~= version_prefix());
    starts_with(version, "yggdrasil-jumper-v")
}

/// The lower of two numbers.
pub open spec fn lower(a: u32, b: u32) -> u32 {
    if a <= b {
        a
    } else {
        b
    }
}

/// The higher of two numbers.
pub open spec fn higher(a: u32, b: u32) -> u32 {
    if a <= b {
        b
    } else {
        a
    }
}

/// The id of the session of two sides that drew `a` and `b`: the higher
/// number in the upper 32 bits, the lower one in the lower 32 bits.
pub open spec fn spec_session_id(a: u32, b: u32) -> u64 {
    (higher(a, b) * 0x1_0000_0000 + lower(a, b)) as u64
}

/// Computes the id of a traversal session from the random numbers of the two sides.
pub fn session_id(a: u32, b: u32) -> (r: u64)
    ensures
        r == spec_session_id(a, b),
{
    let (lo, hi) = if a <= b {
        (a, b)
    } else {
        (b, a)
    };
    let r: u64 = ((hi as u64) << 32) | (lo as u64);
    assert(((hi as u64) << 32) | (lo as u64) == hi * 0x1_0000_0000 + lo) by (bit_vector);
    r
}

/// Both sides compute the same id.
pub proof fn lemma_session_id_symmetric(a: u32, b: u32)
    ensures
        spec_session_id(a, b) == spec_session_id(b, a),
{
}

/// The secret that two sides share who drew `a` and `b`: the lower number and
/// then the higher one, each in eight digits of base 16.
pub open spec fn spec_shared_secret(a: u32, b: u32) -> Seq<char> {
    hex_digits(lower(a, b) as nat, 8) + hex_digits(higher(a, b) as nat, 8)
}

/// Computes the secret that authenticates the traversal messages of a session.
pub fn shared_secret(a: u32, b: u32) -> (r: String)
    ensures
        r@ == spec_shared_secret(a, b),
{
    let (lo, hi) = if a <= b {
        (a, b)
    } else {
        (b, a)
    };
    let mut r = hex(lo, 8);
    r.append(hex(hi, 8).as_str());
    r
}

/// The character is a digit of base 16 in lower case.
pub open spec fn is_lower_hex(c: char) -> bool {
    ('0' <= c && c <= '9') || ('a' <= c && c <= 'f')
}

/// Digits of base 16 are as many as asked for, each a digit in lower case.
pub proof fn lemma_hex_digits_shape(n: nat, width: nat)
    ensures
        hex_digits(n, width).len() == width,
        forall|i: int| 0 <= i < width ==> is_lower_hex(#[trigger] hex_digits(n, width)[i]),
    decreases width,
{
    if width > 0 {
        lemma_hex_digits_shape(n / 16, (width - 1) as nat);
        let d = n % 16;
        assert(is_lower_hex(digit_char(d)));
    }
}

/// Both sides compute the same secret, and it is sixteen digits of base 16
/// in lower case.
pub proof fn lemma_shared_secret_shape(a: u32, b: u32)
    ensures
        spec_shared_secret(a, b) == spec_shared_secret(b, a),
        spec_shared_secret(a, b).len() == 16,
        forall|i: int| 0 <= i < 16 ==> is_lower_hex(#[trigger] spec_shared_secret(a, b)[i]),
{
    lemma_hex_digits_shape(lower(a, b) as nat, 8);
    lemma_hex_digits_shape(higher(a, b) as nat, 8);
}

/// Number of the conversation on the reliable channel of a bridge: the lower
/// of 1 and the two random numbers combined bit by bit. It is 0 only where
/// the two numbers are the same.
pub fn peer_conv(a: u32, b: u32) -> (r: u32)
    ensures
        r == if (a ^ b) < 1 {
            a ^ b
        } else {
            1
        },
        (r == 0) == (a == b),
{
    let x: u32 = a ^ b;
    assert((a ^ b == 0) == (a == b)) by (bit_vector);
    if x < 1 {
        x
    } else {
        1
    }
}

/// The first address in `list` of the family asked for.
pub open spec fn first_of_family(list: Seq<SocketAddress>, ipv4: bool) -> Option<SocketAddress>
    decreases list.len(),
{
    if list.len() == 0 {
        None
    } else if list[0].spec_is_ipv4() == ipv4 {
        Some(list[0])
    } else {
        first_of_family(list.drop_first(), ipv4)
    }
}

/// Finds the first address of a family among the candidates of a side.
pub fn first_candidate(list: &Vec<SocketAddress>, ipv4: bool) -> (r: Option<SocketAddress>)
    ensures
        r == first_of_family(list@, ipv4),
{
    let mut i: usize = 0;
    assert(list@.skip(0) =~= list@);
    while i < list.len()
        invariant
            i <= list@.len(),
            first_of_family(list@, ipv4) == first_of_family(list@.skip(i as int), ipv4),
        decreases list@.len() - i,
    {
        proof {
            assert(list@.skip(i as int).drop_first() =~= list@.skip(i + 1));
        }
        if list[i].is_ipv4() == ipv4 {
            return Some(list[i]);
        }
        i = i + 1;
    }
    None
}

/// The first mapping in `list` over `transport` whose external address is of
/// the family asked for.
pub open spec fn first_mapping(list: Seq<Mapping>, transport: Transport, ipv4: bool) -> Option<
    Mapping,
>
    decreases list.len(),
{
    if list.len() == 0 {
        None
    } else if list[0].transport == transport && list[0].external.spec_is_ipv4() == ipv4 {
        Some(list[0])
    } else {
        first_mapping(list.drop_first(), transport, ipv4)
    }
}

fn find_mapping(list: &Vec<Mapping>, transport: Transport, ipv4: bool) -> (r: Option<Mapping>)
    ensures
        r == first_mapping(list@, transport, ipv4),
{
    let mut i: usize = 0;
    assert(list@.skip(0) =~= list@);
    while i < list.len()
        invariant
            i <= list@.len(),
            first_mapping(list@, transport, ipv4) == first_mapping(
                list@.skip(i as int),
                transport,
                ipv4,
            ),
        decreases list@.len() - i,
    {
        proof {
            assert(list@.skip(i as int).drop_first() =~= list@.skip(i + 1));
        }
        if list[i].transport == transport && list[i].external.is_ipv4() == ipv4 {
            return Some(list[i]);
        }
        i = i + 1;
    }
    None
}

/// The mapping of this side and the candidate of the peer that a traversal
/// runs between: of one family, IPv6 before IPv4, each the first of its list.
pub open spec fn spec_select_candidates(
    mappings: Seq<Mapping>,
    transport: Transport,
    remote: Seq<SocketAddress>,
) -> Option<(Mapping, SocketAddress)> {
    let mine6 = first_mapping(mappings, transport, false);
    let theirs6 = first_of_family(remote, false);
    let mine4 = first_mapping(mappings, transport, true);
    let theirs4 = first_of_family(remote, true);
    match (mine6, theirs6, mine4, theirs4) {
        (Some(mine), Some(theirs), _, _) => Some((mine, theirs)),
        (_, _, Some(mine), Some(theirs)) => Some((mine, theirs)),
        _ => None,
    }
}

/// Picks the two endpoints of a traversal: a mapping of this side over
/// `transport` and a candidate of the peer, both of the same family, IPv6
/// where both sides have it.
pub fn select_candidates(
    mappings: &Vec<Mapping>,
    transport: Transport,
    remote: &Vec<SocketAddress>,
) -> (r: Option<(Mapping, SocketAddress)>)
    ensures
        r == spec_select_candidates(mappings@, transport, remote@),
        match r {
            Some((mine, theirs)) => mine.transport == transport && mine.external.spec_is_ipv4()
                == theirs.spec_is_ipv4(),
            None => true,
        },
{
    proof {
        lemma_first_of_family(remote@, true);
        lemma_first_of_family(remote@, false);
        lemma_first_mapping(mappings@, transport, true);
        lemma_first_mapping(mappings@, transport, false);
    }
    match (find_mapping(mappings, transport, false), first_candidate(remote, false)) {
        (Some(mine), Some(theirs)) => {
            return Some((mine, theirs));
        },
        _ => {},
    }
    match (find_mapping(mappings, transport, true), first_candidate(remote, true)) {
        (Some(mine), Some(theirs)) => Some((mine, theirs)),
        _ => None,
    }
}

/// What `first_of_family` finds is of the family asked for.
pub proof fn lemma_first_of_family(list: Seq<SocketAddress>, ipv4: bool)
    ensures
        first_of_family(list, ipv4) is Some ==> first_of_family(list, ipv4)->0.spec_is_ipv4()
            == ipv4 && list.contains(first_of_family(list, ipv4)->0),
    decreases list.len(),
{
    if list.len() > 0 {
        if list[0].spec_is_ipv4() != ipv4 {
            lemma_first_of_family(list.drop_first(), ipv4);
            if first_of_family(list, ipv4) is Some {
                let found = first_of_family(list, ipv4)->0;
                let i = choose|i: int| 0 <= i < list.drop_first().len() && list.drop_first()[i] == found;
                assert(list[i + 1] == found);
            }
        } else {
            assert(list[0] == first_of_family(list, ipv4)->0);
        }
    }
}

/// What `first_mapping` finds is over the transport and of the family asked for.
pub proof fn lemma_first_mapping(list: Seq<Mapping>, transport: Transport, ipv4: bool)
    ensures
        first_mapping(list, transport, ipv4) is Some ==> {
            let found = first_mapping(list, transport, ipv4)->0;
            found.transport == transport && found.external.spec_is_ipv4() == ipv4 && list.contains(
                found,
            )
        },
    decreases list.len(),
{
    if list.len() > 0 {
        if list[0].transport == transport && list[0].external.spec_is_ipv4() == ipv4 {
            assert(list[0] == first_mapping(list, transport, ipv4)->0);
        } else {
            lemma_first_mapping(list.drop_first(), transport, ipv4);
            if first_mapping(list, transport, ipv4) is Some {
                let found = first_mapping(list, transport, ipv4)->0;
                let i = choose|i: int| 0 <= i < list.drop_first().len() && list.drop_first()[i] == found;
                assert(list[i + 1] == found);
            }
        }
    }
}

/// The password of a peering: the two nonces one after the other, the one
/// that comes later in the order of a dictionary first, a missing nonce
/// counting as empty. There is none where neither side gave a nonce.
pub open spec fn spec_peering_password(mine: Option<Seq<char>>, theirs: Option<Seq<char>>) -> Option<
    Seq<char>,
> {
    if mine is None && theirs is None {
        None
    } else {
        let a = if mine is Some {
            mine->0
        } else {
            Seq::<char>::empty()
        };
        let b = if theirs is Some {
            theirs->0
        } else {
            Seq::<char>::empty()
        };
        if lex_less(a, b) {
            Some(b + a)
        } else {
            Some(a + b)
        }
    }
}

/// Derives the password that both sides append to the peer's URI.
pub fn peering_password(mine: &Option<String>, theirs: &Option<String>) -> (r: Option<String>)
    ensures
        match r {
            Some(password) => spec_peering_password(
                match mine {
                    Some(n) => Some(n@),
                    None => None,
                },
                match theirs {
                    Some(n) => Some(n@),
                    None => None,
                },
            ) == Some(password@),
            None => mine is None && theirs is None,
        },
{
    proof {
        reveal_strlit("");
    }
    assert(""@ =~= Seq::<char>::empty());
    let a: &str = match mine {
        Some(n) => n.as_str(),
        None => "",
    };
    let b: &str = match theirs {
        Some(n) => n.as_str(),
        None => "",
    };
    if mine.is_none() && theirs.is_none() {
        return None;
    }
    if less(a, b) {
        let mut r = String::from_str(b);
        r.append(a);
        Some(r)
    } else {
        let mut r = String::from_str(a);
        r.append(b);
        Some(r)
    }
}

/// What a handshake settles.
#[derive(Debug)]
pub struct Rendezvous {
    /// Id and secret of the traversal session.
    pub inet: InetTraversal,
    /// The mapping of this side that the traversal starts from.
    pub mapping: Mapping,
    /// What the bridge is made with once the traversal has succeeded.
    pub params: BridgeParams,
    /// The password of the peering, where a side asked for one.
    pub password: Option<String>,
}

/// What the two sides settle on, or why they settle on nothing.
pub open spec fn spec_negotiate(
    me: &Header,
    peer: &Header,
    mappings: Seq<Mapping>,
    transport: Transport,
    my_address: OverlayAddress,
    peer_address: OverlayAddress,
) -> Result<(PeeringProtocol, ConnectionMode, Mapping, SocketAddress), HandshakeError> {
    let lossy = me.yggdrasil_dpi && peer.yggdrasil_dpi;
    let direction = if lossy {
        spec_protocol_supported(me, peer, PeeringProtocol::Tcp, my_address, peer_address)
    } else {
        spec_peering_direction(me, peer, my_address, peer_address)
    };
    let pair = spec_select_candidates(mappings, transport, peer.candidates@);
    if !has_prefix(peer.version@, version_prefix()) {
        Err(HandshakeError::VersionMismatch)
    } else if me.rand == peer.rand || me.secret_rand == peer.secret_rand {
        Err(HandshakeError::Collision)
    } else {
        match (direction, pair) {
            (None, _) => Err(HandshakeError::NoCommonProtocol),
            (_, None) => Err(HandshakeError::NoCommonFamily),
            (Some((protocol, mode)), Some((mapping, remote))) => Ok(
                (protocol, mode, mapping, remote),
            ),
        }
    }
}

/// Settles a rendezvous from the two headers of a handshake. The peer must
/// speak this protocol and the random numbers of the two sides must differ.
/// The scheme is the first that both can use, TCP alone where both offer the
/// lossy shortcut. The endpoints are a mapping of this side and a candidate of
/// the peer of one family.
pub fn negotiate(
    self_header: &Header,
    remote_header: &Header,
    mappings: &Vec<Mapping>,
    transport: Transport,
    self_address: OverlayAddress,
    remote_address: OverlayAddress,
) -> (r: Result<Rendezvous, HandshakeError>)
    ensures
        match r {
            Ok(found) => {
                &&& spec_negotiate(
                    self_header,
                    remote_header,
                    mappings@,
                    transport,
                    self_address,
                    remote_address,
                ) == Ok::<_, HandshakeError>(
                    (
                        found.params.protocol,
                        found.params.connection_mode,
                        found.mapping,
                        found.params.peer_addr,
                    ),
                )
                &&& spec_peering_password(
                    match self_header.nonce {
                        Some(n) => Some(n@),
                        None => None,
                    },
                    match remote_header.nonce {
                        Some(n) => Some(n@),
                        None => None,
                    },
                ) == match found.password {
                    Some(p) => Some(p@),
                    None => None,
                }
                &&& found.inet.session_id == spec_session_id(self_header.rand, remote_header.rand)
                &&& found.inet.shared_secret@ == spec_shared_secret(
                    self_header.secret_rand,
                    remote_header.secret_rand,
                )
                &&& found.params.peer_conv == if (self_header.rand ^ remote_header.rand) < 1 {
                    self_header.rand ^ remote_header.rand
                } else {
                    1
                }
                &&& found.params.yggdrasil_dpi == (self_header.yggdrasil_dpi
                    && remote_header.yggdrasil_dpi)
                &&& found.params.monitor_address == remote_address
            },
            Err(e) => spec_negotiate(
                self_header,
                remote_header,
                mappings@,
                transport,
                self_address,
                remote_address,
            ) == Err::<(PeeringProtocol, ConnectionMode, Mapping, SocketAddress), _>(e),
        },
{
    if !version_compatible(remote_header.version.as_str()) {
        return Err(HandshakeError::VersionMismatch);
    }
    if self_header.rand == remote_header.rand || self_header.secret_rand
        == remote_header.secret_rand {
        return Err(HandshakeError::Collision);
    }
    let lossy = self_header.yggdrasil_dpi && remote_header.yggdrasil_dpi;
    let direction = if lossy {
        protocol_supported(
            self_header,
            remote_header,
            PeeringProtocol::Tcp,
            self_address,
            remote_address,
        )
    } else {
        peering_direction(self_header, remote_header, self_address, remote_address)
    };
    let (protocol, connection_mode) = match direction {
        Some(d) => d,
        None => {
            return Err(HandshakeError::NoCommonProtocol);
        },
    };
    let (mapping, remote) = match select_candidates(mappings, transport, &remote_header.candidates) {
        Some(p) => p,
        None => {
            return Err(HandshakeError::NoCommonFamily);
        },
    };
    Ok(
        Rendezvous {
            inet: InetTraversal {
                session_id: session_id(self_header.rand, remote_header.rand),
                shared_secret: shared_secret(self_header.secret_rand, remote_header.secret_rand),
            },
            mapping,
            params: BridgeParams {
                protocol,
                connection_mode,
                peer_addr: remote,
                peer_conv: peer_conv(self_header.rand, remote_header.rand),
                yggdrasil_dpi: lossy,
                monitor_address: remote_address,
            },
            password: peering_password(&self_header.nonce, &remote_header.nonce),
        },
    )
}

/// What opens every datagram of a header exchange: the protocol's mark and
/// two zero bytes.
pub const EXCHANGE_MARK: [u8; 6] = [0x6a, 0x6d, 0x70, 0x72, 0, 0];

/// What a datagram of a header exchange is.
#[derive(Debug, Clone, Copy, PartialEq, Eq, Structural)]
pub enum Received {
    /// Nothing of the exchange.
    Noise,
    /// The peer's receipt for this side's header.
    Receipt,
    /// The peer's header: its text starts at byte 6 of the datagram.
    Header,
}

/// Sorts a datagram of a header exchange: the mark alone is a receipt, the
/// mark with more behind it carries a header, anything else is noise.
pub fn classify_datagram(buf: &[u8]) -> (r: Received)
    ensures
        r == if !(buf@.len() >= 6 && buf@.subrange(0, 6) == EXCHANGE_MARK@) {
            Received::Noise
        } else if buf@.len() == 6 {
            Received::Receipt
        } else {
            Received::Header
        },
{
    if buf.len() < 6 {
        return Received::Noise;
    }
    let marked = buf[0] == EXCHANGE_MARK[0] && buf[1] == EXCHANGE_MARK[1] && buf[2]
        == EXCHANGE_MARK[2] && buf[3] == EXCHANGE_MARK[3] && buf[4] == EXCHANGE_MARK[4] && buf[5]
        == EXCHANGE_MARK[5];
    proof {
        let head = buf@.subrange(0, 6);
        assert(head[0] == buf@[0] && head[1] == buf@[1] && head[2] == buf@[2] && head[3] == buf@[3]
            && head[4] == buf@[4] && head[5] == buf@[5]);
        if marked {
            assert(head =~= EXCHANGE_MARK@);
        }
    }
    if !marked {
        Received::Noise
    } else if buf.len() == 6 {
        Received::Receipt
    } else {
        Received::Header
    }
}

/// The datagram that carries a header: the mark and the header's text.
pub fn header_datagram(text: &[u8]) -> (r: Vec<u8>)
    ensures
        r@ == EXCHANGE_MARK@ + text@,
{
    let mut out: Vec<u8> = Vec::new();
    out.push(EXCHANGE_MARK[0]);
    out.push(EXCHANGE_MARK[1]);
    out.push(EXCHANGE_MARK[2]);
    out.push(EXCHANGE_MARK[3]);
    out.push(EXCHANGE_MARK[4]);
    out.push(EXCHANGE_MARK[5]);
    assert(out@ =~= EXCHANGE_MARK@);
    out.extend_from_slice(text);
    out
}

/// One side of a header exchange over datagrams: it sends its header until
/// the peer has given a receipt, gives a receipt for every header of the peer,
/// and is done once it has both the peer's receipt and the peer's header.
#[derive(Debug, Clone, Copy, PartialEq, Eq, Structural)]
pub struct Exchange {
    pub got_receipt: bool,
    pub got_header: bool,
}

impl Exchange {
    /// An exchange that has begun with the sending of this side's header.
    pub fn new() -> (r: Exchange)
        ensures
            !r.got_receipt,
            !r.got_header,
    {
        Exchange { got_receipt: false, got_header: false }
    }

    /// Takes note of a datagram. Says whether a receipt is to be sent: it
    /// is for every header of the peer.
    pub fn on_datagram(&mut self, received: Received) -> (send_receipt: bool)
        ensures
            send_receipt == (received is Header),
            final(self).got_receipt == (old(self).got_receipt || received is Receipt),
            final(self).got_header == (old(self).got_header || received is Header),
    {
        match received {
            Received::Noise => false,
            Received::Receipt => {
                self.got_receipt = true;
                false
            },
            Received::Header => {
                self.got_header = true;
                true
            },
        }
    }

    /// Whether this side's header is sent again when the time for a receipt has passed.
    pub fn resends(&self) -> (r: bool)
        ensures
            r == !self.got_receipt,
    {
        !self.got_receipt
    }

    /// Whether the exchange is over.
    pub fn is_done(&self) -> (r: bool)
        ensures
            r == (self.got_receipt && self.got_header),
    {
        self.got_receipt && self.got_header
    }
}

/// The status by which a side tells the other that its traversal has succeeded.
pub open spec fn traversal_succeed() -> Seq<char> {
    seq![
        't', 'r', 'a', 'v', 'e', 'r', 's', 'a', 'l', '-', 's', 'u', 'c', 'c', 'e', 'e', 'd',
    ]
}

/// The text of the status of a traversal that has succeeded.
pub fn status_traversal_succeed() -> (r: &'static str)
    ensures
        r@ == traversal_succeed(),
{
    proof {
        reveal_strlit("traversal-succeed");
    }
    assert("traversal-succeed"@ =~= traversal_succeed());
    "traversal-succeed"
}

/// Whether a status says that the peer's traversal has succeeded.
pub fn is_traversal_succeed(status: &str) -> (r: bool)
    ensures
        r == (status@ == traversal_succeed()),
{
    crate::text::same(status, status_traversal_succeed())
}

/// The length of the header of a frame, in bytes.
pub const FRAME_HEADER_LEN: usize = 4;

/// A message as a stream carries it: the length of the body in four bytes,
/// most significant first, and the body.
pub open spec fn spec_frame(body: Seq<u8>) -> Seq<u8> {
    seq![
        (body.len() / 0x100_0000 % 256) as u8,
        (body.len() / 0x1_0000 % 256) as u8,
        (body.len() / 0x100 % 256) as u8,
        (body.len() % 256) as u8,
    ] + body
}

/// Frames a message for a stream. A body of `2^32` bytes or more has no frame.
pub fn frame(body: &[u8]) -> (r: Option<Vec<u8>>)
    ensures
        match r {
            Some(framed) => body@.len() < 0x1_0000_0000 && framed@ == spec_frame(body@),
            None => body@.len() >= 0x1_0000_0000,
        },
{
    let n: usize = body.len();
    if n as u64 >= 0x1_0000_0000 {
        return None;
    }
    let mut out: Vec<u8> = Vec::new();
    out.push((n / 0x100_0000 % 256) as u8);
    out.push((n / 0x1_0000 % 256) as u8);
    out.push((n / 0x100 % 256) as u8);
    out.push((n % 256) as u8);
    out.extend_from_slice(body);
    assert(out@ =~= spec_frame(body@));
    Some(out)
}

/// The length that the header of a frame announces.
pub open spec fn announced(buf: Seq<u8>) -> int {
    buf[0] * 0x100_0000 + buf[1] * 0x1_0000 + buf[2] * 0x100 + buf[3]
}

/// Where the first frame of `buf` ends, if all of it has arrived.
pub fn frame_end(buf: &[u8]) -> (r: Option<usize>)
    ensures
        match r {
            Some(end) => buf@.len() >= 4 && end == 4 + announced(buf@) && end <= buf@.len(),
            None => buf@.len() < 4 || 4 + announced(buf@) > buf@.len(),
        },
{
    if buf.len() < FRAME_HEADER_LEN {
        return None;
    }
    let body: u64 = (buf[0] as u64) * 0x100_0000 + (buf[1] as u64) * 0x1_0000 + (buf[2] as u64)
        * 0x100 + (buf[3] as u64);
    if body > (buf.len() - FRAME_HEADER_LEN) as u64 {
        return None;
    }
    Some(FRAME_HEADER_LEN + body as usize)
}

/// A frame is read back as it was made: it ends where its body ends,
/// whatever follows it in the stream.
pub proof fn lemma_frame_round_trip(body: Seq<u8>, rest: Seq<u8>)
    requires
        body.len() < 0x1_0000_0000,
    ensures
        announced(spec_frame(body) + rest) == body.len(),
        (spec_frame(body) + rest).subrange(4, 4 + body.len() as int) == body,
{
    let stream = spec_frame(body) + rest;
    let n = body.len() as u32;
    assert(n / 0x100_0000 % 256 * 0x100_0000 + n / 0x1_0000 % 256 * 0x1_0000 + n / 0x100 % 256
        * 0x100 + n % 256 == n) by (bit_vector);
    assert(stream.subrange(4, 4 + body.len() as int) =~= body);
}

} // verus!
