//! A local socket with its external address, without the transport.

use crate::address::{SocketAddress, Transport};
use crate::stun::Mapping;
use vstd::prelude::*;

verus! {

/// A local socket and the address under which the Internet sees it.
#[derive(Debug, Clone, Copy, PartialEq, Eq, Structural)]
pub struct ExternalAddress {
    pub external: SocketAddress,
    pub local: SocketAddress,
}

impl ExternalAddress {
    /// The mapping of this socket over `transport`.
    pub fn over(&self, transport: Transport) -> (r: Mapping)
        ensures
            r == (Mapping { external: self.external, local: self.local, transport }),
    {
        Mapping { external: self.external, local: self.local, transport }
    }
}

} // verus!
