//! What the daemon makes of its router: the schemes by which the router can
//! peer, and where its admin socket is.

use crate::address::OverlayAddress;
use crate::bridge::{PeeringProtocol, RouterVersion};
use crate::text::{find, position, same};
use vstd::prelude::*;

verus! {

/// What the daemon knows of its router.
#[derive(Debug)]
pub struct RouterState {
    /// The schemes by which the router can peer.
    pub supported_protocols: Vec<PeeringProtocol>,
    /// Those of them on which it listens.
    pub server_available: Vec<PeeringProtocol>,
    pub version: RouterVersion,
    pub address: OverlayAddress,
}

/// The part of a URI before its first `://`: the whole of it where it has none.
pub open spec fn scheme_part(uri: Seq<char>) -> Seq<char> {
    match position(uri, seq![':', '/', '/']) {
        Some(at) => uri.subrange(0, at),
        None => uri,
    }
}

/// The router listens on an address of the scheme `protocol`.
pub open spec fn listens_on(listen: Seq<String>, protocol: PeeringProtocol) -> bool {
    exists|i: int| 0 <= i < listen.len() && scheme_part((#[trigger] listen[i])@) == protocol.spec_scheme()
}

/// The schemes of `configured`, in their order, by which a router of the
/// release `version` can peer.
pub open spec fn enabled(configured: Seq<PeeringProtocol>, version: RouterVersion) -> Seq<
    PeeringProtocol,
>
    decreases configured.len(),
{
    if configured.len() == 0 {
        seq![]
    } else {
        let before = enabled(configured.drop_last(), version);
        if configured.last() is Quic && !(version is From050) {
            before
        } else {
            before.push(configured.last())
        }
    }
}

/// The schemes of `protocols`, in their order, on which the router listens.
pub open spec fn listening(protocols: Seq<PeeringProtocol>, listen: Seq<String>) -> Seq<
    PeeringProtocol,
>
    decreases protocols.len(),
{
    if protocols.len() == 0 {
        seq![]
    } else {
        let before = listening(protocols.drop_last(), listen);
        if listens_on(listen, protocols.last()) {
            before.push(protocols.last())
        } else {
            before
        }
    }
}

/// Whether one of the router's listen URIs is of the scheme `protocol`.
pub fn has_listener(listen: &Vec<String>, protocol: PeeringProtocol) -> (r: bool)
    ensures
        r == listens_on(listen@, protocol),
{
    proof {
        reveal_strlit("://");
    }
    assert("://"@ =~= seq![':', '/', '/']);
    let mut i: usize = 0;
    while i < listen.len()
        invariant
            i <= listen@.len(),
            "://"@ == seq![':', '/', '/'],
            forall|j: int|
                0 <= j < i ==> scheme_part((#[trigger] listen@[j])@) != protocol.spec_scheme(),
        decreases listen@.len() - i,
    {
        let uri = listen[i].as_str();
        let scheme = match find(uri, "://") {
            Some(at) => uri.substring_char(0, at),
            None => uri,
        };
        if same(scheme, protocol.scheme()) {
            return true;
        }
        i = i + 1;
    }
    false
}

/// Chooses the schemes of a router from those of the configuration: the
/// ones by which a router of this release can peer, and among them the ones
/// on which the router listens.
pub fn router_protocols(
    configured: &Vec<PeeringProtocol>,
    listen: &Vec<String>,
    version: RouterVersion,
) -> (r: (Vec<PeeringProtocol>, Vec<PeeringProtocol>))
    ensures
        r.0@ == enabled(configured@, version),
        r.1@ == listening(enabled(configured@, version), listen@),
{
    let mut supported: Vec<PeeringProtocol> = Vec::new();
    let mut i: usize = 0;
    while i < configured.len()
        invariant
            i <= configured@.len(),
            supported@ == enabled(configured@.take(i as int), version),
        decreases configured@.len() - i,
    {
        proof {
            assert(configured@.take(i + 1).drop_last() =~= configured@.take(i as int));
        }
        if configured[i].is_supported_by_router(&version) {
            supported.push(configured[i]);
        }
        i = i + 1;
    }
    proof {
        assert(configured@.take(configured@.len() as int) =~= configured@);
    }
    let mut available: Vec<PeeringProtocol> = Vec::new();
    let mut k: usize = 0;
    while k < supported.len()
        invariant
            k <= supported@.len(),
            available@ == listening(supported@.take(k as int), listen@),
        decreases supported@.len() - k,
    {
        proof {
            assert(supported@.take(k + 1).drop_last() =~= supported@.take(k as int));
        }
        if has_listener(listen, supported[k]) {
            available.push(supported[k]);
        }
        k = k + 1;
    }
    proof {
        assert(supported@.take(supported@.len() as int) =~= supported@);
    }
    (supported, available)
}

/// Where an admin socket of the router is.
#[derive(Debug)]
pub enum AdminEndpoint {
    /// A socket of the file system, at the given path.
    Unix(String),
    /// A TCP socket, at the given host and port.
    Tcp(String),
}

/// Why a URI names no admin socket.
#[derive(Debug, Clone, Copy, PartialEq, Eq, Structural)]
pub enum AdminUriError {
    /// The URI has no `://`.
    NoScheme,
    /// The scheme is neither `unix` nor `tcp`.
    InvalidProtocol,
}

/// Reads the URI of an admin socket: `unix://` and a path, or `tcp://` and
/// a host with a port.
pub fn admin_endpoint(uri: &str) -> (r: Result<AdminEndpoint, AdminUriError>)
    ensures
        match r {
            Ok(AdminEndpoint::Unix(path)) => {
                let at = position(uri@, seq![':', '/', '/']);
                at is Some && uri@.subrange(0, at->0) == seq!['u', 'n', 'i', 'x'] && path@
                    == uri@.subrange(at->0 + 3, uri@.len() as int)
            },
            Ok(AdminEndpoint::Tcp(address)) => {
                let at = position(uri@, seq![':', '/', '/']);
                at is Some && uri@.subrange(0, at->0) == seq!['t', 'c', 'p'] && address@
                    == uri@.subrange(at->0 + 3, uri@.len() as int)
            },
            Err(AdminUriError::NoScheme) => position(uri@, seq![':', '/', '/']) is None,
            Err(AdminUriError::InvalidProtocol) => {
                let at = position(uri@, seq![':', '/', '/']);
                at is Some && uri@.subrange(0, at->0) != seq!['u', 'n', 'i', 'x'] && uri@.subrange(
                    0,
                    at->0,
                ) != seq!['t', 'c', 'p']
            },
        },
{
    proof {
        reveal_strlit("://");
        reveal_strlit("unix");
        reveal_strlit("tcp");
    }
    assert("://"@ =~= seq![':', '/', '/']);
    assert("unix"@ =~= seq!['u', 'n', 'i', 'x']);
    assert("tcp"@ =~= seq!['t', 'c', 'p']);
    let at = match find(uri, "://") {
        Some(at) => at,
        None => {
            return Err(AdminUriError::NoScheme);
        },
    };
    let n: usize = uri.unicode_len();
    let scheme = uri.substring_char(0, at);
    let rest = uri.substring_char(at + 3, n);
    if same(scheme, "unix") {
        Ok(AdminEndpoint::Unix(String::from_str(rest)))
    } else if same(scheme, "tcp") {
        Ok(AdminEndpoint::Tcp(String::from_str(rest)))
    } else {
        Err(AdminUriError::InvalidProtocol)
    }
}

} // verus!
