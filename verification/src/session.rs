//! The session manager's bookkeeping: which sessions of the router are worked
//! on, which are worth an attempt, and when an attempt starts.

use crate::address::OverlayAddress;
use crate::protocol::PROTOCOL_VERSION;
use crate::utils::timeout::Nanos;
use std::collections::{HashMap, HashSet};
use vstd::prelude::*;
use vstd::std_specs::hash::*;

verus! {

broadcast use vstd::std_specs::hash::group_hash_axioms;

/// How far the work on a session of the router has come.
#[derive(Debug, Clone, Copy, PartialEq, Eq, Structural)]
pub enum SessionStage {
    /// A rendezvous is under way.
    Session,
    /// A bridge stands.
    Bridge,
}

impl SessionStage {
    pub open spec fn spec_is_bridge(&self) -> bool {
        *self is Bridge
    }

    pub open spec fn spec_is_session(&self) -> bool {
        *self is Session
    }

    #[verifier::when_used_as_spec(spec_is_bridge)]
    pub fn is_bridge(&self) -> (r: bool)
        ensures
            r == (*self is Bridge),
    {
        match self {
            SessionStage::Bridge => true,
            SessionStage::Session => false,
        }
    }

    #[verifier::when_used_as_spec(spec_is_session)]
    pub fn is_session(&self) -> (r: bool)
        ensures
            r == (*self is Session),
    {
        match self {
            SessionStage::Session => true,
            SessionStage::Bridge => false,
        }
    }
}

/// What is remembered of a peer between attempts.
#[derive(Debug, Clone, Copy, PartialEq, Eq, Structural)]
pub struct SessionCache {
    /// Whether the peer runs this daemon, as far as known.
    pub jumper_supported: Option<bool>,
    /// Traversals through the overlay that failed in a row.
    pub failed_yggdrasil_traversal: u32,
}

impl Default for SessionCache {
    fn default() -> (r: Self)
        ensures
            r.jumper_supported is None,
            r.failed_yggdrasil_traversal == 0,
    {
        SessionCache { jumper_supported: None, failed_yggdrasil_traversal: 0 }
    }
}

/// What a node may say of this daemon in its node info.
#[derive(Debug, Clone, Copy, PartialEq, Eq, Structural)]
pub enum JumperFlag {
    /// Nothing.
    Absent,
    /// A truth value.
    Flag(bool),
    /// A number, given where it is a whole number that is not negative.
    Number(Option<u64>),
    /// Anything else.
    Other,
}

/// Whether a node that says `flag` of this daemon runs it in this version of
/// the protocol: it says so plainly, or it names the protocol's number.
pub fn advertises_jumper(flag: JumperFlag) -> (r: bool)
    ensures
        r == (flag == JumperFlag::Flag(true) || flag == JumperFlag::Number(
            Some(PROTOCOL_VERSION as u64),
        )),
{
    match flag {
        JumperFlag::Flag(true) => true,
        JumperFlag::Number(Some(n)) => n == PROTOCOL_VERSION as u64,
        _ => false,
    }
}

/// What the cache says of an attempt on a peer.
#[derive(Debug, Clone, Copy, PartialEq, Eq, Structural)]
pub enum Support {
    /// The peer is worth an attempt.
    Supported,
    /// The peer is left alone.
    Unsupported,
    /// The peer's node info must be asked first.
    Unknown,
}

impl SessionCache {
    /// Whether as many traversals have failed as the limit allows.
    pub open spec fn exhausted(self, limit: Option<u32>) -> bool {
        limit is Some && self.failed_yggdrasil_traversal >= limit->0
    }

    /// Takes note of the outcome of a traversal through the overlay: a
    /// success clears the count of failures, a failure adds to it.
    pub fn record_traversal(&mut self, succeeded: bool)
        requires
            old(self).failed_yggdrasil_traversal < u32::MAX,
        ensures
            final(self).jumper_supported == old(self).jumper_supported,
            final(self).failed_yggdrasil_traversal == if succeeded {
                0
            } else {
                (old(self).failed_yggdrasil_traversal + 1) as u32
            },
    {
        if succeeded {
            self.failed_yggdrasil_traversal = 0;
        } else {
            self.failed_yggdrasil_traversal = self.failed_yggdrasil_traversal + 1;
        }
    }
}

/// What is known of whether a peer is worth an attempt. A peer whose
/// traversals failed as often as the limit allows is left alone; so is one
/// known not to run this daemon. A peer known to run it is worth an attempt,
/// and so is every other where nodes need not advertise the daemon.
pub open spec fn spec_support(
    cache: Option<SessionCache>,
    limit: Option<u32>,
    only_peers_advertising_jumper: bool,
) -> Support {
    if cache is Some && cache->0.exhausted(limit) {
        Support::Unsupported
    } else if cache is Some && cache->0.jumper_supported is Some {
        if cache->0.jumper_supported->0 {
            Support::Supported
        } else {
            Support::Unsupported
        }
    } else if !only_peers_advertising_jumper {
        Support::Supported
    } else {
        Support::Unknown
    }
}

/// Looks up what is known of whether a peer is worth an attempt.
pub fn support(
    cache: Option<&SessionCache>,
    limit: Option<u32>,
    only_peers_advertising_jumper: bool,
) -> (r: Support)
    ensures
        r == spec_support(
            match cache {
                Some(c) => Some(*c),
                None => None,
            },
            limit,
            only_peers_advertising_jumper,
        ),
{
    match cache {
        Some(c) => {
            match limit {
                Some(limit) => {
                    if c.failed_yggdrasil_traversal >= limit {
                        return Support::Unsupported;
                    }
                },
                None => {},
            }
            match c.jumper_supported {
                Some(true) => {
                    return Support::Supported;
                },
                Some(false) => {
                    return Support::Unsupported;
                },
                None => {},
            }
        },
        None => {},
    }
    if !only_peers_advertising_jumper {
        Support::Supported
    } else {
        Support::Unknown
    }
}

/// First byte of the address of a node.
pub const ADDRESS_PREFIX: u8 = 0x02;

/// First byte of an address in the subnet of a node.
pub const SUBNET_PREFIX: u8 = 0x03;

/// The first byte of an address.
pub open spec fn first_octet(address: OverlayAddress) -> u8 {
    (address / 0x100_0000_0000_0000_0000_0000_0000_0000) as u8
}

/// The key of the subnet that an address lies in: its first eight bytes,
/// the first of them set to that of a node's address where the address is a
/// node's or one of a node's subnet.
pub open spec fn subnet_key(address: OverlayAddress) -> u64 {
    let head = address / 0x1_0000_0000_0000_0000;
    if first_octet(address) == SUBNET_PREFIX {
        (head - 0x0100_0000_0000_0000) as u64
    } else {
        head as u64
    }
}

/// The addresses of `list` that stand for themselves.
pub open spec fn literals(list: Seq<OverlayAddress>) -> Set<OverlayAddress> {
    Set::new(|a: OverlayAddress| list.contains(a) && first_octet(a) != SUBNET_PREFIX)
}

/// The keys of the subnets that `list` names.
pub open spec fn subnets(list: Seq<OverlayAddress>) -> Set<u64> {
    Set::new(
        |k: u64|
            exists|i: int|
                0 <= i < list.len() && first_octet(#[trigger] list[i]) == SUBNET_PREFIX
                    && subnet_key(list[i]) == k,
    )
}

/// Whether the whitelist `list` lets `address` through: the address stands in
/// the list for itself, or the list names the subnet that it lies in.
pub open spec fn whitelisted(list: Seq<OverlayAddress>, address: OverlayAddress) -> bool {
    literals(list).contains(address) || subnets(list).contains(subnet_key(address))
}

fn octet(address: OverlayAddress) -> (r: u8)
    ensures
        r == first_octet(address),
{
    (address / 0x100_0000_0000_0000_0000_0000_0000_0000) as u8
}

fn key_of(address: OverlayAddress) -> (r: u64)
    ensures
        r == subnet_key(address),
{
    let head: u128 = address / 0x1_0000_0000_0000_0000;
    if octet(address) == SUBNET_PREFIX {
        (head - 0x0100_0000_0000_0000) as u64
    } else {
        head as u64
    }
}

/// The peers that the daemon considers, where it does not consider all.
#[derive(Debug)]
pub struct Whitelist {
    pub addresses: HashSet<u128>,
    pub subnets: HashSet<u64>,
}

impl Whitelist {
    /// Reads a list of addresses: one that starts like an address of a
    /// subnet names the subnet, every other stands for itself.
    pub fn new(list: &Vec<OverlayAddress>) -> (r: Whitelist)
        ensures
            r.addresses@ == literals(list@),
            r.subnets@ == subnets(list@),
    {
        let mut addresses: HashSet<u128> = HashSet::new();
        let mut nets: HashSet<u64> = HashSet::new();
        let mut i: usize = 0;
        while i < list.len()
            invariant
                i <= list@.len(),
                addresses@ == literals(list@.take(i as int)),
                nets@ == subnets(list@.take(i as int)),
            decreases list@.len() - i,
        {
            let address = list[i];
            proof {
                let before = list@.take(i as int);
                let after = list@.take(i + 1);
                assert(after =~= before.push(address));
                assert forall|a: OverlayAddress| after.contains(a) <==> before.contains(a) || a
                    == address by {
                    if before.contains(a) {
                        let j = choose|j: int| 0 <= j < before.len() && before[j] == a;
                        assert(after[j] == a);
                    }
                    if a == address {
                        assert(after[i as int] == a);
                    }
                }
                if first_octet(address) == SUBNET_PREFIX {
                    assert(literals(after) =~= literals(before));
                    assert forall|k: u64| subnets(after).contains(k) <==> subnets(
                        before,
                    ).contains(k) || k == subnet_key(address) by {
                        if subnets(before).contains(k) {
                            let j = choose|j: int|
                                0 <= j < before.len() && first_octet(#[trigger] before[j])
                                    == SUBNET_PREFIX && subnet_key(before[j]) == k;
                            assert(after[j] == before[j]);
                        }
                        if k == subnet_key(address) {
                            assert(after[i as int] == address);
                        }
                        if subnets(after).contains(k) {
                            let j = choose|j: int|
                                0 <= j < after.len() && first_octet(#[trigger] after[j])
                                    == SUBNET_PREFIX && subnet_key(after[j]) == k;
                            if j < i {
                                assert(before[j] == after[j]);
                            }
                        }
                    }
                    assert(subnets(after) =~= subnets(before).insert(subnet_key(address)));
                } else {
                    assert(literals(after) =~= literals(before).insert(address));
                    assert forall|k: u64| subnets(after).contains(k) <==> subnets(
                        before,
                    ).contains(k) by {
                        if subnets(before).contains(k) {
                            let j = choose|j: int|
                                0 <= j < before.len() && first_octet(#[trigger] before[j])
                                    == SUBNET_PREFIX && subnet_key(before[j]) == k;
                            assert(after[j] == before[j]);
                        }
                        if subnets(after).contains(k) {
                            let j = choose|j: int|
                                0 <= j < after.len() && first_octet(#[trigger] after[j])
                                    == SUBNET_PREFIX && subnet_key(after[j]) == k;
                            assert(before[j] == after[j]);
                        }
                    }
                    assert(subnets(after) =~= subnets(before));
                }
            }
            if octet(address) == SUBNET_PREFIX {
                nets.insert(key_of(address));
            } else {
                addresses.insert(address);
            }
            i = i + 1;
        }
        proof {
            assert(list@.take(list@.len() as int) =~= list@);
            assert(literals(list@.take(0)) =~= Set::<OverlayAddress>::empty());
        }
        Whitelist { addresses, subnets: nets }
    }

    pub open spec fn spec_contains(&self, address: OverlayAddress) -> bool {
        self.addresses@.contains(address) || self.subnets@.contains(subnet_key(address))
    }

    /// Whether the whitelist lets `address` through.
    #[verifier::when_used_as_spec(spec_contains)]
    pub fn contains(&self, address: OverlayAddress) -> (r: bool)
        ensures
            r == self.spec_contains(address),
    {
        let key = key_of(address);
        self.addresses.contains(&address) || self.subnets.contains(&key)
    }
}

/// A whitelist read from `list` lets exactly those addresses through that
/// stand in the list for themselves or lie in a subnet that the list names.
pub proof fn lemma_whitelist_matches(list: Seq<OverlayAddress>, address: OverlayAddress)
    ensures
        whitelisted(list, address) <==> (list.contains(address) && first_octet(address)
            != SUBNET_PREFIX) || (exists|i: int|
            0 <= i < list.len() && first_octet(#[trigger] list[i]) == SUBNET_PREFIX && subnet_key(
                list[i],
            ) == subnet_key(address)),
{
}

/// Takes note in the cache of the outcome of a traversal to the node at
/// `address`: a success clears the peer's count of failures, a failure adds
/// to it. A peer that the cache does not know is entered.
pub fn note_traversal(
    cache: &mut HashMap<u128, SessionCache>,
    address: OverlayAddress,
    succeeded: bool,
)
    requires
        old(cache)@.contains_key(address) ==> old(cache)@[address].failed_yggdrasil_traversal
            < u32::MAX,
    ensures
        final(cache)@ == old(cache)@.insert(
            address,
            SessionCache {
                jumper_supported: if old(cache)@.contains_key(address) {
                    old(cache)@[address].jumper_supported
                } else {
                    None
                },
                failed_yggdrasil_traversal: if succeeded {
                    0
                } else if old(cache)@.contains_key(address) {
                    (old(cache)@[address].failed_yggdrasil_traversal + 1) as u32
                } else {
                    1
                },
            },
        ),
{
    let mut entry = match cache.get(&address) {
        Some(known) => *known,
        None => SessionCache::default(),
    };
    entry.record_traversal(succeeded);
    cache.insert(address, entry);
}

/// Takes note in the cache of whether the node at `address` runs this
/// daemon. A peer that the cache does not know is entered.
pub fn note_jumper(cache: &mut HashMap<u128, SessionCache>, address: OverlayAddress, supported: bool)
    ensures
        final(cache)@ == old(cache)@.insert(
            address,
            SessionCache {
                jumper_supported: Some(supported),
                failed_yggdrasil_traversal: if old(cache)@.contains_key(address) {
                    old(cache)@[address].failed_yggdrasil_traversal
                } else {
                    0
                },
            },
        ),
{
    let mut entry = match cache.get(&address) {
        Some(known) => *known,
        None => SessionCache::default(),
    };
    entry.jumper_supported = Some(supported);
    cache.insert(address, entry);
}

/// A session of the router, as its admin socket reports it.
#[derive(Debug, Clone)]
pub struct SessionEntry {
    pub address: OverlayAddress,
    pub key: String,
    /// How long the session has lasted, where the router says so.
    pub uptime: Option<Nanos>,
}

/// A peer of the router, as its admin socket reports it.
#[derive(Debug, Clone)]
pub struct PeerEntry {
    pub address: Option<OverlayAddress>,
    /// The URI under which the peer was added.
    pub remote: Option<String>,
    pub up: bool,
}

/// The peer stands, came by a known URI, and is the node at `address`.
pub open spec fn peers_with(peer: PeerEntry, address: OverlayAddress) -> bool {
    peer.up && peer.remote is Some && peer.address == Some(address)
}

/// Whether the router peers with the node at `address` already.
pub fn is_peered(peers: &Vec<PeerEntry>, address: OverlayAddress) -> (r: bool)
    ensures
        r == exists|i: int| 0 <= i < peers@.len() && peers_with(#[trigger] peers@[i], address),
{
    let mut i: usize = 0;
    while i < peers.len()
        invariant
            i <= peers@.len(),
            forall|j: int| 0 <= j < i ==> !peers_with(#[trigger] peers@[j], address),
        decreases peers@.len() - i,
    {
        let peer = &peers[i];
        let here = match peer.address {
            Some(a) => a == address,
            None => false,
        };
        if peer.up && peer.remote.is_some() && here {
            return true;
        }
        i = i + 1;
    }
    false
}

/// The sessions that are worked on, each with its stage. An address has one
/// stage at most.
#[derive(Debug)]
pub struct ActiveSessions {
    pub stages: HashMap<u128, SessionStage>,
    /// The addresses whose stage is `Bridge`.
    pub bridges: HashSet<u128>,
}

impl View for ActiveSessions {
    type V = Map<OverlayAddress, SessionStage>;

    open spec fn view(&self) -> Map<OverlayAddress, SessionStage> {
        self.stages@
    }
}

impl ActiveSessions {
    /// The set of bridges is the set of addresses whose stage is `Bridge`.
    pub open spec fn wf(&self) -> bool {
        forall|a: OverlayAddress|
            self.bridges@.contains(a) <==> self.stages@.contains_key(a) && self.stages@[a]
                is Bridge
    }

    /// No session is worked on.
    pub fn new() -> (r: ActiveSessions)
        ensures
            r.wf(),
            r@ == Map::<OverlayAddress, SessionStage>::empty(),
    {
        ActiveSessions { stages: HashMap::new(), bridges: HashSet::new() }
    }

    /// The stage of the session with the node at `address`, if it is worked on.
    pub fn stage(&self, address: OverlayAddress) -> (r: Option<SessionStage>)
        ensures
            r == if self@.contains_key(address) {
                Some(self@[address])
            } else {
                None
            },
    {
        match self.stages.get(&address) {
            Some(stage) => Some(*stage),
            None => None,
        }
    }

    /// Starts the work on a session, unless the address is worked on already.
    /// Says whether it did.
    pub fn begin_session(&mut self, address: OverlayAddress) -> (r: bool)
        requires
            old(self).wf(),
        ensures
            final(self).wf(),
            r == !old(self)@.contains_key(address),
            final(self)@ == if r {
                old(self)@.insert(address, SessionStage::Session)
            } else {
                old(self)@
            },
    {
        if self.stages.contains_key(&address) {
            return false;
        }
        self.stages.insert(address, SessionStage::Session);
        true
    }

    /// Records the bridge to the node at `address`. Refuses where a bridge to
    /// that node stands already; the record stays as it is then.
    pub fn begin_bridge(&mut self, address: OverlayAddress) -> (r: bool)
        requires
            old(self).wf(),
        ensures
            final(self).wf(),
            r == !(old(self)@.contains_key(address) && old(self)@[address] is Bridge),
            final(self)@ == old(self)@.insert(address, SessionStage::Bridge),
    {
        let before = self.stages.insert(address, SessionStage::Bridge);
        self.bridges.insert(address);
        match before {
            Some(SessionStage::Bridge) => false,
            _ => true,
        }
    }

    /// Ends the work on the session with the node at `address`.
    pub fn end(&mut self, address: OverlayAddress)
        requires
            old(self).wf(),
        ensures
            final(self).wf(),
            final(self)@ == old(self)@.remove(address),
    {
        self.stages.remove(&address);
        self.bridges.remove(&address);
    }

    /// Whether a bridge stands.
    pub fn any_bridge(&self) -> (r: bool)
        requires
            self.wf(),
        ensures
            r == exists|a: OverlayAddress| self@.contains_key(a) && self@[a] is Bridge,
    {
        let none = self.bridges.is_empty();
        proof {
            if none {
                assert forall|a: OverlayAddress| !(self@.contains_key(a) && self@[a] is Bridge) by {
                    assert(!self.bridges@.contains(a));
                }
            } else {
                let a = choose|a: OverlayAddress| self.bridges@.contains(a);
                assert(self@.contains_key(a) && self@[a] is Bridge);
            }
        }
        !none
    }
}

/// What the session manager goes by.
#[derive(Debug, Clone, Copy)]
pub struct ManagerSettings {
    /// Leave sessions alone whose node the router peers with already.
    pub avoid_redundant_peering: bool,
    /// Try only nodes that advertise this daemon.
    pub only_peers_advertising_jumper: bool,
    /// Number of failed traversals after which a peer is left alone.
    pub failed_yggdrasil_traversal_limit: Option<u32>,
}

/// How the attempt on a session begins.
#[derive(Debug, Clone, Copy, PartialEq, Eq, Structural)]
pub enum Admission {
    /// With the rendezvous itself.
    Start,
    /// With a look at the peer's node info, on which the rendezvous depends.
    AskNodeInfo,
}

/// A session to start work on: its place in the router's list, and how the work begins.
#[derive(Debug, Clone, Copy, PartialEq, Eq, Structural)]
pub struct Spawn {
    pub index: usize,
    pub admission: Admission,
}

/// What the manager knows when it goes through the router's sessions.
pub struct Outlook {
    pub settings: ManagerSettings,
    pub whitelist: Option<Whitelist>,
    pub peers: Seq<PeerEntry>,
    pub cache: Map<OverlayAddress, SessionCache>,
}

impl Outlook {
    /// How the attempt on the session with the node at `address` begins, if
    /// one is made. The rules, in their order: the whitelist must let the
    /// address through; the router must not peer with the node already, where
    /// redundant peerings are avoided; the address must not be worked on; the
    /// cache must not say that the peer is to be left alone.
    pub open spec fn verdict(
        self,
        active: Map<OverlayAddress, SessionStage>,
        address: OverlayAddress,
    ) -> Option<Admission> {
        let known = if self.cache.contains_key(address) {
            Some(self.cache[address])
        } else {
            None
        };
        if self.whitelist is Some && !self.whitelist->0.spec_contains(address) {
            None
        } else if self.settings.avoid_redundant_peering && exists|i: int|
            0 <= i < self.peers.len() && peers_with(#[trigger] self.peers[i], address) {
            None
        } else if active.contains_key(address) {
            None
        } else {
            match spec_support(
                known,
                self.settings.failed_yggdrasil_traversal_limit,
                self.settings.only_peers_advertising_jumper,
            ) {
                Support::Unsupported => None,
                Support::Supported => Some(Admission::Start),
                Support::Unknown => Some(Admission::AskNodeInfo),
            }
        }
    }

    /// The sessions from place `from` on that work starts on, in their
    /// order, where `active` is worked on already. A session that work starts
    /// on counts as worked on for the ones behind it.
    pub open spec fn spawns(
        self,
        sessions: Seq<SessionEntry>,
        from: int,
        active: Map<OverlayAddress, SessionStage>,
    ) -> Seq<Spawn>
        decreases sessions.len() - from,
    {
        if from < 0 || from >= sessions.len() {
            seq![]
        } else {
            match self.verdict(active, sessions[from].address) {
                None => self.spawns(sessions, from + 1, active),
                Some(admission) => seq![Spawn { index: from as usize, admission }] + self.spawns(
                    sessions,
                    from + 1,
                    active.insert(sessions[from].address, SessionStage::Session),
                ),
            }
        }
    }

    /// What is worked on after the sessions from place `from` on were gone through.
    pub open spec fn active_after(
        self,
        sessions: Seq<SessionEntry>,
        from: int,
        active: Map<OverlayAddress, SessionStage>,
    ) -> Map<OverlayAddress, SessionStage>
        decreases sessions.len() - from,
    {
        if from < 0 || from >= sessions.len() {
            active
        } else {
            match self.verdict(active, sessions[from].address) {
                None => self.active_after(sessions, from + 1, active),
                Some(_) => self.active_after(
                    sessions,
                    from + 1,
                    active.insert(sessions[from].address, SessionStage::Session),
                ),
            }
        }
    }
}

/// Decides how the attempt on one session begins, if one is made.
pub fn consider(
    address: OverlayAddress,
    settings: &ManagerSettings,
    whitelist: &Option<Whitelist>,
    peers: &Vec<PeerEntry>,
    cache: &HashMap<u128, SessionCache>,
    active: &ActiveSessions,
) -> (r: Option<Admission>)
    ensures
        r == (Outlook {
            settings: *settings,
            whitelist: *whitelist,
            peers: peers@,
            cache: cache@,
        }).verdict(active@, address),
{
    match whitelist {
        Some(list) => {
            if !list.contains(address) {
                return None;
            }
        },
        None => {},
    }
    let ghost outlook = Outlook {
        settings: *settings,
        whitelist: *whitelist,
        peers: peers@,
        cache: cache@,
    };
    if settings.avoid_redundant_peering && is_peered(peers, address) {
        proof {
            let i = choose|i: int| 0 <= i < peers@.len() && peers_with(#[trigger] peers@[i], address);
            assert(peers_with(outlook.peers[i], address));
        }
        return None;
    }
    if active.stage(address).is_some() {
        return None;
    }
    match support(
        cache.get(&address),
        settings.failed_yggdrasil_traversal_limit,
        settings.only_peers_advertising_jumper,
    ) {
        Support::Unsupported => None,
        Support::Supported => Some(Admission::Start),
        Support::Unknown => Some(Admission::AskNodeInfo),
    }
}

/// Goes through the sessions that the router reports and starts work on
/// those that the rules let through: each is recorded as worked on, and
/// listed for the caller to run its rendezvous. The list is empty exactly
/// where no external address is needed on account of a new session.
pub fn select_sessions(
    sessions: &Vec<SessionEntry>,
    settings: &ManagerSettings,
    whitelist: &Option<Whitelist>,
    peers: &Vec<PeerEntry>,
    cache: &HashMap<u128, SessionCache>,
    active: &mut ActiveSessions,
) -> (r: Vec<Spawn>)
    requires
        old(active).wf(),
    ensures
        final(active).wf(),
        r@ == (Outlook {
            settings: *settings,
            whitelist: *whitelist,
            peers: peers@,
            cache: cache@,
        }).spawns(sessions@, 0, old(active)@),
        final(active)@ == (Outlook {
            settings: *settings,
            whitelist: *whitelist,
            peers: peers@,
            cache: cache@,
        }).active_after(sessions@, 0, old(active)@),
{
    let ghost outlook = Outlook {
        settings: *settings,
        whitelist: *whitelist,
        peers: peers@,
        cache: cache@,
    };
    let mut spawned: Vec<Spawn> = Vec::new();
    let mut i: usize = 0;
    while i < sessions.len()
        invariant
            i <= sessions@.len(),
            active.wf(),
            outlook == (Outlook {
                settings: *settings,
                whitelist: *whitelist,
                peers: peers@,
                cache: cache@,
            }),
            outlook.spawns(sessions@, 0, old(active)@) == spawned@ + outlook.spawns(
                sessions@,
                i as int,
                active@,
            ),
            outlook.active_after(sessions@, 0, old(active)@) == outlook.active_after(
                sessions@,
                i as int,
                active@,
            ),
        decreases sessions@.len() - i,
    {
        let address = sessions[i].address;
        let ghost before = spawned@;
        let ghost was = active@;
        match consider(address, settings, whitelist, peers, cache, active) {
            Some(admission) => {
                let spawn = Spawn { index: i, admission };
                active.begin_session(address);
                spawned.push(spawn);
                proof {
                    let later = outlook.spawns(sessions@, i + 1, active@);
                    assert(before + (seq![spawn] + later) =~= before.push(spawn) + later);
                }
            },
            None => {},
        }
        i = i + 1;
    }
    proof {
        assert(spawned@ + Seq::<Spawn>::empty() =~= spawned@);
    }
    spawned
}

/// A session that every rule lets through is started: where the rules let
/// the address of the session at place `at` through, as the record of active
/// sessions stands before the pass, work starts on a session with that
/// address, at that place or before it.
pub proof fn lemma_admitted_is_started(
    outlook: Outlook,
    sessions: Seq<SessionEntry>,
    from: int,
    active: Map<OverlayAddress, SessionStage>,
    at: int,
)
    requires
        0 <= from <= at < sessions.len() <= usize::MAX,
        outlook.verdict(active, sessions[at].address) is Some,
    ensures
        exists|k: int|
            0 <= k < outlook.spawns(sessions, from, active).len() && from <= (
            #[trigger] outlook.spawns(sessions, from, active)[k]).index <= at && sessions[outlook.spawns(
                sessions,
                from,
                active,
            )[k].index as int].address == sessions[at].address,
    decreases sessions.len() - from,
{
    let all = outlook.spawns(sessions, from, active);
    let here = sessions[from].address;
    let wanted = sessions[at].address;
    match outlook.verdict(active, here) {
        None => {
            assert(from < at);
            lemma_admitted_is_started(outlook, sessions, from + 1, active, at);
        },
        Some(admission) => {
            let next = active.insert(here, SessionStage::Session);
            let rest = outlook.spawns(sessions, from + 1, next);
            assert(all =~= seq![Spawn { index: from as usize, admission }] + rest);
            if here == wanted {
                assert(all[0].index == from);
            } else {
                assert(from < at);
                assert(next.contains_key(wanted) == active.contains_key(wanted));
                assert(outlook.verdict(next, wanted) == outlook.verdict(active, wanted));
                lemma_admitted_is_started(outlook, sessions, from + 1, next, at);
                let k = choose|k: int|
                    0 <= k < rest.len() && from + 1 <= (#[trigger] rest[k]).index <= at
                        && sessions[rest[k].index as int].address == wanted;
                assert(all[k + 1] == rest[k]);
            }
        },
    }
}

/// Work never starts twice on one address: the sessions that a pass of the
/// manager starts work on were not worked on before the pass, no two of them
/// are with the same node, and each is recorded as a rendezvous under way.
/// What was recorded before the pass keeps its stage. And no session that
/// every rule lets through is passed over. The record of active sessions, a
/// map from addresses to stages, so keeps one stage for each address at most.
pub proof fn lemma_spawns_are_new(
    outlook: Outlook,
    sessions: Seq<SessionEntry>,
    from: int,
    active: Map<OverlayAddress, SessionStage>,
)
    requires
        0 <= from <= sessions.len() <= usize::MAX,
    ensures
        forall|i: int|
            0 <= i < outlook.spawns(sessions, from, active).len() ==> {
                let at = (#[trigger] outlook.spawns(sessions, from, active)[i]).index as int;
                from <= at < sessions.len() && !active.contains_key(sessions[at].address)
                    && outlook.active_after(sessions, from, active).contains_key(
                    sessions[at].address,
                ) && outlook.active_after(sessions, from, active)[sessions[at].address]
                    is Session
            },
        forall|at: int|
            from <= at < sessions.len() && outlook.verdict(active, (#[trigger] sessions[at]).address)
                is Some ==> outlook.active_after(sessions, from, active).contains_key(
                sessions[at].address,
            ) && outlook.active_after(sessions, from, active)[sessions[at].address] is Session,
        forall|i: int, j: int|
            0 <= i < j < outlook.spawns(sessions, from, active).len() ==> sessions[(
            #[trigger] outlook.spawns(sessions, from, active)[i]).index as int].address
                != sessions[(#[trigger] outlook.spawns(
                sessions,
                from,
                active,
            )[j]).index as int].address,
        forall|a: OverlayAddress| #[trigger]
            active.contains_key(a) ==> outlook.active_after(sessions, from, active).contains_key(a)
                && outlook.active_after(sessions, from, active)[a] == active[a],
    decreases sessions.len() - from,
{
    if from < sessions.len() {
        let address = sessions[from].address;
        let all = outlook.spawns(sessions, from, active);
        let done = outlook.active_after(sessions, from, active);
        match outlook.verdict(active, address) {
            None => {
                lemma_spawns_are_new(outlook, sessions, from + 1, active);
                assert forall|at: int|
                    from <= at < sessions.len() && outlook.verdict(
                        active,
                        (#[trigger] sessions[at]).address,
                    ) is Some implies done.contains_key(sessions[at].address)
                    && done[sessions[at].address] is Session by {
                    assert(at > from);
                }
            },
            Some(admission) => {
                let next = active.insert(address, SessionStage::Session);
                let rest = outlook.spawns(sessions, from + 1, next);
                lemma_spawns_are_new(outlook, sessions, from + 1, next);
                assert(all =~= seq![Spawn { index: from as usize, admission }] + rest);
                assert forall|i: int| 0 < i < all.len() implies all[i] == rest[i - 1] by {}
                assert(next.contains_key(address));
                assert(!active.contains_key(address));
                let after = outlook.active_after(sessions, from, active);
                assert(after == outlook.active_after(sessions, from + 1, next));
                assert forall|a: OverlayAddress| #[trigger]
                    active.contains_key(a) implies after.contains_key(a) && after[a]
                    == active[a] by {
                    assert(next.contains_key(a) && next[a] == active[a]);
                }
                assert(after.contains_key(address) && after[address] == next[address]);
                assert forall|i: int| 0 <= i < all.len() implies {
                    let at = (#[trigger] all[i]).index as int;
                    from <= at < sessions.len() && !active.contains_key(sessions[at].address)
                        && after.contains_key(sessions[at].address)
                        && after[sessions[at].address] is Session
                } by {
                    if i > 0 {
                        let at = rest[i - 1].index as int;
                        assert(!next.contains_key(sessions[at].address));
                    } else {
                        assert(after.contains_key(address));
                    }
                }
                assert forall|at: int|
                    from <= at < sessions.len() && outlook.verdict(
                        active,
                        (#[trigger] sessions[at]).address,
                    ) is Some implies after.contains_key(sessions[at].address)
                    && after[sessions[at].address] is Session by {
                    let wanted = sessions[at].address;
                    if wanted != address {
                        assert(at > from);
                        assert(next.contains_key(wanted) == active.contains_key(wanted));
                        assert(outlook.verdict(next, wanted) == outlook.verdict(active, wanted));
                    }
                }
                assert forall|i: int, j: int| 0 <= i < j < all.len() implies sessions[(
                #[trigger] all[i]).index as int].address != sessions[(
                #[trigger] all[j]).index as int].address by {
                    let at = rest[j - 1].index as int;
                    assert(!next.contains_key(sessions[at].address));
                    if i > 0 {
                        assert(all[i] == rest[i - 1]);
                    }
                }
            },
        }
    }
}

/// Whether an attempt on a session that has lasted `uptime` is put off: the
/// peer counts as idle for the span `delay` after every full `period` of the
/// session. A period of no length puts nothing off.
pub open spec fn spec_inactive(uptime: Nanos, period: Nanos, delay: Nanos) -> bool {
    period > 0 && exists|k: int| k >= 1 && k * period <= uptime <= #[trigger] (k * period) + delay
}

/// Says whether the session's uptime lies in an inactivity window.
pub fn is_inactive(uptime: Nanos, period: Nanos, delay: Nanos) -> (r: bool)
    ensures
        r == spec_inactive(uptime, period, delay),
{
    if period == 0 {
        return false;
    }
    let r = uptime >= period && uptime % period <= delay;
    proof {
        let q = (uptime / period) as int;
        let p = period as int;
        let u = uptime as int;
        assert(u == q * p + u % p && 0 <= u % p < p) by (nonlinear_arith)
            requires
                q == u / p,
                p > 0,
                u >= 0,
        ;
        if r {
            assert(q >= 1) by (nonlinear_arith)
                requires
                    u >= p,
                    p > 0,
                    u == q * p + u % p,
                    0 <= u % p < p,
            ;
            assert(q * p <= u <= (q * p) + delay);
        } else {
            assert forall|k: int| k >= 1 implies !(k * p <= u <= #[trigger] (k * p) + delay) by {
                if k * p <= u {
                    assert(k <= q && u - k * p >= u % p) by (nonlinear_arith)
                        requires
                            k * p <= u,
                            p > 0,
                            u == q * p + u % p,
                            0 <= u % p < p,
                    ;
                    assert(u >= p) by (nonlinear_arith)
                        requires
                            k >= 1,
                            k * p <= u,
                            p > 0,
                    ;
                }
            }
        }
    }
    r
}

/// How long an attempt waits so that both sides start together: up to the
/// next whole multiple of `align` in the session's uptime, and `align` where
/// the uptime is not known. Nothing where `align` has no length.
pub fn alignment_delay(uptime: Option<Nanos>, align: Nanos) -> (r: Nanos)
    ensures
        r == match uptime {
            Some(uptime) if align > 0 => (align - uptime % align) as Nanos,
            _ => align,
        },
{
    match uptime {
        Some(uptime) => {
            if align > 0 {
                align - uptime % align
            } else {
                align
            }
        },
        None => align,
    }
}

} // verus!
