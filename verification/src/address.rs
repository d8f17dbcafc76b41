//! Addresses as plain numbers: an address of the overlay is the 128 bits of
//! an IPv6 address, most significant byte first.

use vstd::prelude::*;

verus! {

/// An address of the overlay.
pub type OverlayAddress = u128;

/// An address of the Internet with a port: what a socket is bound or connected to.
#[derive(Debug, Clone, Copy, PartialEq, Eq, Structural)]
#[allow(inconsistent_fields)]
pub enum SocketAddress {
    V4 { ip: u32, port: u16 },
    V6 { ip: u128, port: u16 },
}

impl SocketAddress {
    pub open spec fn spec_is_ipv4(&self) -> bool {
        *self is V4
    }

    pub open spec fn spec_port(&self) -> u16 {
        match *self {
            SocketAddress::V4 { port, .. } => port,
            SocketAddress::V6 { port, .. } => port,
        }
    }

    /// Whether the address is one of IPv4.
    #[verifier::when_used_as_spec(spec_is_ipv4)]
    pub fn is_ipv4(&self) -> (r: bool)
        ensures
            r == (*self is V4),
    {
        match self {
            SocketAddress::V4 { .. } => true,
            SocketAddress::V6 { .. } => false,
        }
    }

    /// The port.
    #[verifier::when_used_as_spec(spec_port)]
    pub fn port(&self) -> (r: u16)
        ensures
            r == self.spec_port(),
    {
        match self {
            SocketAddress::V4 { port, .. } => *port,
            SocketAddress::V6 { port, .. } => *port,
        }
    }

    /// Whether both addresses are of one family.
    pub fn same_family(&self, other: &SocketAddress) -> (r: bool)
        ensures
            r == (self.spec_is_ipv4() == other.spec_is_ipv4()),
    {
        self.is_ipv4() == other.is_ipv4()
    }
}

/// How the packets between two daemons travel.
#[derive(Debug, Clone, Copy, PartialEq, Eq, Structural)]
pub enum Transport {
    Tcp,
    Udp,
}

} // verus!
