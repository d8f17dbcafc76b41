//! External addresses: what a lookup asks a STUN server and reads from its
//! answer, and the bookkeeping of the monitor that publishes the mappings.

use crate::address::{SocketAddress, Transport};
use crate::chance::shuffle;
use crate::stun_wire::{
    bytes_view, decode_header, decode_mapped, decode_xor_mapped, decode_xor_mapped2,
    encode_request, encode_success, request_bytes, stun_header, stun_mapped, stun_success,
    stun_xor_mapped, stun_xor_mapped2, StunHeader, DECODE_LIMIT,
};
use crate::utils::timeout::{exponential, linear, Nanos, Timeout, LONGEST};
use vstd::prelude::*;

verus! {

/// A local socket and the address under which the Internet sees it.
#[derive(Debug, Clone, Copy, PartialEq, Eq, Structural)]
pub struct Mapping {
    pub external: SocketAddress,
    pub local: SocketAddress,
    pub transport: Transport,
}

/// The request of a lookup: a binding request whose transaction is twelve
/// zero bytes, without attributes.
pub fn binding_request() -> (r: Option<Vec<u8>>)
    ensures
        bytes_view(r) == Some(request_bytes(seq![0u8; 12])),
{
    let id: [u8; 12] = [0, 0, 0, 0, 0, 0, 0, 0, 0, 0, 0, 0];
    assert(id@ =~= seq![0u8; 12]);
    encode_request(&id)
}

/// The address that an answer gives, from the attributes that it carries:
/// the XOR-mapped address before the one of the older code point, and that
/// before the plain mapped address.
pub fn pick_address(
    xor_mapped: Option<SocketAddress>,
    xor_mapped2: Option<SocketAddress>,
    mapped: Option<SocketAddress>,
) -> (r: Option<SocketAddress>)
    ensures
        r == if xor_mapped is Some {
            xor_mapped
        } else if xor_mapped2 is Some {
            xor_mapped2
        } else {
            mapped
        },
{
    if xor_mapped.is_some() {
        xor_mapped
    } else if xor_mapped2.is_some() {
        xor_mapped2
    } else {
        mapped
    }
}

/// Reads the external address from the answer of a STUN server. What is too
/// long for the decoder gives none.
pub fn external_address(response: &[u8]) -> (r: Option<SocketAddress>)
    ensures
        r == if response@.len() >= DECODE_LIMIT {
            None
        } else if stun_xor_mapped(response@) is Some {
            stun_xor_mapped(response@)
        } else if stun_xor_mapped2(response@) is Some {
            stun_xor_mapped2(response@)
        } else {
            stun_mapped(response@)
        },
{
    if response.len() >= DECODE_LIMIT {
        return None;
    }
    let first = decode_xor_mapped(response);
    if first.is_some() {
        return first;
    }
    pick_address(None, decode_xor_mapped2(response), decode_mapped(response))
}

/// The answer of a server to a message with the given header that came
/// from `from`: a success response of the same transaction that names `from`
/// as the XOR-mapped address. What is no STUN message gets no answer.
pub open spec fn spec_response(header: Option<StunHeader>, from: SocketAddress) -> Option<
    Seq<u8>,
> {
    match header {
        Some(header) => stun_success(header.transaction_id@, from),
        None => None,
    }
}

/// Answers a STUN message as a server does: it tells the sender the
/// address that the message came from. What is too long for the decoder
/// gets no answer.
pub fn binding_response(request: &[u8], from: SocketAddress) -> (r: Option<Vec<u8>>)
    ensures
        bytes_view(r) == if request@.len() < DECODE_LIMIT {
            spec_response(stun_header(request@), from)
        } else {
            None
        },
{
    if request.len() >= DECODE_LIMIT {
        return None;
    }
    match decode_header(request) {
        Some(header) => encode_success(&header.transaction_id, from),
        None => None,
    }
}

/// How a lookup waits for its answers.
#[derive(Debug, Clone, Copy)]
pub struct LookupSettings {
    pub stun_udp_retry_count: u32,
    pub stun_udp_response_timeout: Nanos,
    pub stun_udp_exponential_timeout: bool,
    pub stun_tcp_response_timeout: Nanos,
}

impl LookupSettings {
    /// The exponential schedule can be made: it has a timeout, and all of
    /// them together are no longer than a span of time can be.
    pub open spec fn wf(self) -> bool {
        self.stun_udp_exponential_timeout ==> self.stun_udp_retry_count >= 1
            && self.stun_udp_response_timeout * self.stun_udp_retry_count <= LONGEST
    }
}

/// The timeouts of a lookup: over a socket that may lose datagrams, the
/// schedule of retries that the settings ask for; over a stream, one long timeout.
pub fn lookup_timeouts(settings: &LookupSettings, unreliable: bool) -> (r: Timeout)
    requires
        settings.wf(),
    ensures
        r.wf(),
        r.remaining() == if !unreliable {
            linear(settings.stun_tcp_response_timeout as nat, 1)
        } else if settings.stun_udp_exponential_timeout {
            exponential(
                settings.stun_udp_response_timeout as nat,
                settings.stun_udp_retry_count as nat,
            )
        } else {
            linear(settings.stun_udp_response_timeout as nat, settings.stun_udp_retry_count as nat)
        },
{
    if unreliable {
        Timeout::new(
            settings.stun_udp_response_timeout,
            settings.stun_udp_retry_count,
            settings.stun_udp_exponential_timeout,
        )
    } else {
        Timeout::new_linear(settings.stun_tcp_response_timeout, 1)
    }
}

/// A STUN server and whether it still counts as reachable.
#[derive(Debug)]
pub struct Server {
    pub server: String,
    pub available: bool,
}

/// The STUN servers of the configuration, in the order in which they are tried.
#[derive(Debug)]
pub struct ServerPool {
    pub servers: Vec<Server>,
}

/// No server of the list counts as reachable.
pub open spec fn none_available(servers: Seq<Server>) -> bool {
    forall|i: int| 0 <= i < servers.len() ==> !(#[trigger] servers[i]).available
}

/// `at` is the first place from `from` on with a server that counts as reachable.
pub open spec fn first_available(servers: Seq<Server>, from: int, at: int) -> bool {
    &&& from <= at < servers.len()
    &&& servers[at].available
    &&& forall|j: int| from <= j < at ==> !(#[trigger] servers[j]).available
}

impl ServerPool {
    /// A pool of the given servers, all of which count as reachable.
    pub fn new(names: &Vec<String>) -> (r: ServerPool)
        ensures
            r.servers@.len() == names@.len(),
            forall|i: int|
                0 <= i < names@.len() ==> (#[trigger] r.servers@[i]).server@ == names@[i]@
                    && r.servers@[i].available,
    {
        let mut servers: Vec<Server> = Vec::new();
        let mut i: usize = 0;
        while i < names.len()
            invariant
                i <= names@.len(),
                servers@.len() == i,
                forall|j: int|
                    0 <= j < i ==> (#[trigger] servers@[j]).server@ == names@[j]@
                        && servers@[j].available,
            decreases names@.len() - i,
        {
            servers.push(Server { server: names[i].clone(), available: true });
            i = i + 1;
        }
        ServerPool { servers }
    }

    /// Gives every server another chance once none counts as reachable.
    pub fn revive(&mut self)
        ensures
            final(self).servers@.len() == old(self).servers@.len(),
            forall|i: int|
                0 <= i < old(self).servers@.len() ==> (#[trigger] final(self).servers@[i]).server
                    == old(self).servers@[i].server && final(self).servers@[i].available == (
                old(self).servers@[i].available || none_available(old(self).servers@)),
    {
        let mut i: usize = 0;
        while i < self.servers.len()
            invariant
                self.servers@ == old(self).servers@,
                i <= self.servers@.len(),
                forall|j: int| 0 <= j < i ==> !(#[trigger] self.servers@[j]).available,
            decreases self.servers@.len() - i,
        {
            if self.servers[i].available {
                return ;
            }
            i = i + 1;
        }
        let mut k: usize = 0;
        while k < self.servers.len()
            invariant
                none_available(old(self).servers@),
                self.servers@.len() == old(self).servers@.len(),
                k <= self.servers@.len(),
                forall|j: int|
                    0 <= j < self.servers@.len() ==> (#[trigger] self.servers@[j]).server == old(
                        self,
                    ).servers@[j].server,
                forall|j: int| 0 <= j < k ==> (#[trigger] self.servers@[j]).available,
            decreases self.servers@.len() - k,
        {
            self.servers[k].available = true;
            k = k + 1;
        }
    }

    /// Puts the servers in an order left to chance.
    pub fn shuffle(&mut self)
        ensures
            final(self).servers@.to_multiset() == old(self).servers@.to_multiset(),
    {
        shuffle(&mut self.servers);
    }

    /// The first server from place `from` on that counts as reachable.
    pub fn next_available(&self, from: usize) -> (r: Option<usize>)
        ensures
            match r {
                Some(at) => first_available(self.servers@, from as int, at as int),
                None => forall|j: int|
                    from <= j < self.servers@.len() ==> !(#[trigger] self.servers@[j]).available,
            },
    {
        let mut i: usize = from;
        while i < self.servers.len()
            invariant
                from <= i,
                forall|j: int| from <= j < i && j < self.servers@.len() ==> !(
                #[trigger] self.servers@[j]).available,
            decreases self.servers@.len() - i,
        {
            if self.servers[i].available {
                return Some(i);
            }
            i = i + 1;
        }
        None
    }

    /// Takes note that the server at `index` did not answer.
    pub fn mark_failed(&mut self, index: usize)
        requires
            index < old(self).servers@.len(),
        ensures
            final(self).servers@.len() == old(self).servers@.len(),
            forall|i: int|
                0 <= i < old(self).servers@.len() ==> (#[trigger] final(self).servers@[i]).server
                    == old(self).servers@[i].server && final(self).servers@[i].available == (
                old(self).servers@[i].available && i != index),
    {
        self.servers[index].available = false;
    }
}

/// No two mappings of the list are of the same local socket and transport.
pub open spec fn distinct_sockets(list: Seq<Mapping>) -> bool {
    forall|i: int, j: int|
        0 <= i < j < list.len() ==> !((#[trigger] list[i]).local == (#[trigger] list[j]).local
            && list[i].transport == list[j].transport)
}

/// The list holds a mapping of the local socket and the transport of `mapping`.
pub open spec fn has_socket(list: Seq<Mapping>, mapping: Mapping) -> bool {
    exists|i: int|
        0 <= i < list.len() && (#[trigger] list[i]).local == mapping.local && list[i].transport
            == mapping.transport
}

/// Adds the mapping that a lookup found to those of this round, unless the
/// round has one of the same local socket and transport already. Says
/// whether it was added.
pub fn add_mapping(found: &mut Vec<Mapping>, mapping: Mapping) -> (r: bool)
    ensures
        distinct_sockets(old(found)@) ==> distinct_sockets(final(found)@),
        r == !has_socket(old(found)@, mapping),
        final(found)@ == if r {
            old(found)@.push(mapping)
        } else {
            old(found)@
        },
{
    let mut i: usize = 0;
    while i < found.len()
        invariant
            found@ == old(found)@,
            i <= found@.len(),
            forall|j: int|
                0 <= j < i ==> !((#[trigger] found@[j]).local == mapping.local
                    && found@[j].transport == mapping.transport),
        decreases found@.len() - i,
    {
        if found[i].local == mapping.local && found[i].transport == mapping.transport {
            return false;
        }
        i = i + 1;
    }
    found.push(mapping);
    true
}

/// Whether the two lists hold the same mappings in the same order.
pub fn same_mappings(a: &Vec<Mapping>, b: &Vec<Mapping>) -> (r: bool)
    ensures
        r == (a@ == b@),
{
    if a.len() != b.len() {
        return false;
    }
    let mut i: usize = 0;
    while i < a.len()
        invariant
            a@.len() == b@.len(),
            i <= a@.len(),
            forall|j: int| 0 <= j < i ==> a@[j] == b@[j],
        decreases a@.len() - i,
    {
        if a[i] != b[i] {
            return false;
        }
        i = i + 1;
    }
    assert(a@ =~= b@);
    true
}

/// The mappings of a round that are published: those of the daemon's own
/// local sockets, and of them the first of each local socket and transport.
pub open spec fn publishable(locals: Seq<SocketAddress>, found: Seq<Mapping>) -> Seq<Mapping>
    decreases found.len(),
{
    if found.len() == 0 {
        seq![]
    } else {
        let before = publishable(locals, found.drop_last());
        if locals.contains(found.last().local) && !has_socket(before, found.last()) {
            before.push(found.last())
        } else {
            before
        }
    }
}

/// Every mapping of the list is of one of the local sockets.
pub open spec fn of_locals(locals: Seq<SocketAddress>, list: Seq<Mapping>) -> bool {
    forall|i: int| 0 <= i < list.len() ==> locals.contains((#[trigger] list[i]).local)
}

/// What is published holds no two mappings of the same local socket and
/// transport, and none of a socket that is not the daemon's own.
pub proof fn lemma_publishable(locals: Seq<SocketAddress>, found: Seq<Mapping>)
    ensures
        distinct_sockets(publishable(locals, found)),
        of_locals(locals, publishable(locals, found)),
    decreases found.len(),
{
    if found.len() > 0 {
        lemma_publishable(locals, found.drop_last());
        let before = publishable(locals, found.drop_last());
        let all = publishable(locals, found);
        if locals.contains(found.last().local) && !has_socket(before, found.last()) {
            assert forall|i: int, j: int| 0 <= i < j < all.len() implies !((
            #[trigger] all[i]).local == (#[trigger] all[j]).local && all[i].transport
                == all[j].transport) by {
                if j == all.len() - 1 {
                    assert(before[i] == all[i]);
                } else {
                    assert(before[i] == all[i] && before[j] == all[j]);
                }
            }
            assert forall|i: int| 0 <= i < all.len() implies locals.contains(
                (#[trigger] all[i]).local,
            ) by {
                if i < all.len() - 1 {
                    assert(before[i] == all[i]);
                }
            }
        }
    }
}

/// Whether `local` is one of the local sockets.
pub fn is_local(locals: &Vec<SocketAddress>, local: SocketAddress) -> (r: bool)
    ensures
        r == locals@.contains(local),
{
    let mut i: usize = 0;
    while i < locals.len()
        invariant
            i <= locals@.len(),
            forall|j: int| 0 <= j < i ==> locals@[j] != local,
        decreases locals@.len() - i,
    {
        if locals[i] == local {
            return true;
        }
        i = i + 1;
    }
    false
}

/// Publishes the mappings of a round where they differ from the published
/// ones, and says whether it did. Whatever the round found, what is published
/// holds one mapping at most of each local socket and transport, the first
/// that was found, and only mappings of the daemon's own local sockets.
pub fn publish(published: &mut Vec<Mapping>, locals: &Vec<SocketAddress>, found: &Vec<Mapping>) -> (r:
    bool)
    ensures
        final(published)@ == publishable(locals@, found@),
        r == (old(published)@ != publishable(locals@, found@)),
        distinct_sockets(final(published)@),
        of_locals(locals@, final(published)@),
{
    let mut kept: Vec<Mapping> = Vec::new();
    let mut i: usize = 0;
    while i < found.len()
        invariant
            i <= found@.len(),
            kept@ == publishable(locals@, found@.take(i as int)),
        decreases found@.len() - i,
    {
        proof {
            assert(found@.take(i + 1).drop_last() =~= found@.take(i as int));
        }
        if is_local(locals, found[i].local) {
            add_mapping(&mut kept, found[i]);
        }
        i = i + 1;
    }
    proof {
        assert(found@.take(found@.len() as int) =~= found@);
        lemma_publishable(locals@, found@);
    }
    if same_mappings(published, &kept) {
        false
    } else {
        *published = kept;
        true
    }
}

/// How the monitor waits for its next round.
#[derive(Debug, Clone, Copy, PartialEq, Eq, Structural)]
pub enum Wait {
    /// For the delay between two lookups.
    Delay,
    /// Until a new session asks for an external address and the delay has
    /// passed, and then on while a bridge stands.
    Suspend,
}

/// Chooses how the monitor waits after a round: it looks up again after the
/// delay while no address is published, or while the last session that asked
/// for one did so less than the delay ago; else it suspends.
pub fn next_wait(published_none: bool, since_required: Nanos, delay: Nanos) -> (r: Wait)
    ensures
        r == if published_none || since_required < delay {
            Wait::Delay
        } else {
            Wait::Suspend
        },
{
    if published_none || since_required < delay {
        Wait::Delay
    } else {
        Wait::Suspend
    }
}

} // verus!
