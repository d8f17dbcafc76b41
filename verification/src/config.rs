//! The daemon's configuration as plain values, and what is asked of it.

use crate::address::OverlayAddress;
use crate::bridge::PeeringProtocol;
use crate::utils::timeout::Nanos;
use vstd::prelude::*;

verus! {

/// Nanoseconds in a second.
pub const SECOND: Nanos = 1_000_000_000;

/// The daemon's configuration.
#[derive(Debug)]
pub struct ConfigInner {
    /// Listen URIs of the router that the daemon may dial.
    pub yggdrasil_listen: Vec<String>,
    /// URIs of the router's admin socket, tried in their order.
    pub yggdrasil_admin_listen: Vec<String>,
    /// The schemes by which the daemon lets the router peer.
    pub yggdrasil_protocols: Vec<PeeringProtocol>,
    pub allow_ipv4: bool,
    pub allow_ipv6: bool,
    /// Port of the daemon in the overlay.
    pub listen_port: u16,
    pub yggdrasil_firewall_traversal_udp_retry_count: u32,
    pub yggdrasil_firewall_traversal_udp_cycle: Nanos,
    pub nat_traversal_udp_retry_count: u32,
    pub nat_traversal_udp_cycle: Nanos,
    pub stun_servers: Vec<String>,
    pub stun_randomize: bool,
    pub stun_udp_retry_count: u32,
    pub stun_udp_response_timeout: Nanos,
    pub stun_udp_exponential_timeout: bool,
    pub stun_tcp_response_timeout: Nanos,
    /// The peers that the daemon considers, where it does not consider all.
    pub whitelist: Option<Vec<OverlayAddress>>,
    pub only_peers_advertising_jumper: bool,
    /// Failed traversals after which a peer is left alone; never 0.
    pub failed_yggdrasil_traversal_limit: Option<u32>,
    pub yggdrasil_dpi: bool,
    pub yggdrasil_dpi_udp_mtu: usize,
    pub yggdrasil_dpi_fallback_to_reliable: bool,
    pub yggdrasil_admin_reconnect: bool,
    pub avoid_redundant_peering: bool,
    pub peer_unconnected_check_delay: Nanos,
    pub resolve_external_address_delay: Nanos,
    pub yggdrasilctl_query_delay: Nanos,
    pub connect_as_client_timeout: Nanos,
    pub peer_getnodeinfo_timeout: Nanos,
    pub session_cache_invalidation_timeout: Nanos,
    /// Must be the same on both sides of a rendezvous.
    pub align_uptime_timeout: Nanos,
    pub inactivity_delay: Nanos,
    pub inactivity_delay_period: Nanos,
}

/// The settings that a configuration file is expected to name: the rest has
/// defaults of its own.
#[derive(Debug)]
pub struct Listed {
    pub yggdrasil_listen: Vec<String>,
    pub yggdrasil_admin_listen: Vec<String>,
    pub yggdrasil_protocols: Vec<PeeringProtocol>,
    pub allow_ipv4: bool,
    pub allow_ipv6: bool,
    pub listen_port: u16,
    pub stun_servers: Vec<String>,
    pub stun_randomize: bool,
}

/// Why a configuration cannot be used.
#[derive(Debug, Clone, Copy, PartialEq, Eq, Structural)]
pub enum ConfigError {
    /// No admin socket of the router is named.
    NoAdminSocket,
    /// Neither IPv4 nor IPv6 is allowed.
    NoAddressFamily,
}

impl ConfigInner {
    /// The configuration with the given listed settings and the default of
    /// every other.
    pub fn with_defaults(listed: Listed) -> (r: ConfigInner)
        ensures
            r.yggdrasil_listen == listed.yggdrasil_listen,
            r.yggdrasil_admin_listen == listed.yggdrasil_admin_listen,
            r.yggdrasil_protocols == listed.yggdrasil_protocols,
            r.allow_ipv4 == listed.allow_ipv4,
            r.allow_ipv6 == listed.allow_ipv6,
            r.listen_port == listed.listen_port,
            r.stun_servers == listed.stun_servers,
            r.stun_randomize == listed.stun_randomize,
            r.yggdrasil_firewall_traversal_udp_retry_count == 5,
            r.yggdrasil_firewall_traversal_udp_cycle == SECOND,
            r.nat_traversal_udp_retry_count == 15,
            r.nat_traversal_udp_cycle == SECOND / 2,
            r.stun_udp_retry_count == 4,
            r.stun_udp_response_timeout == SECOND / 2,
            r.stun_udp_exponential_timeout,
            r.stun_tcp_response_timeout == 4 * SECOND,
            r.whitelist is None,
            !r.only_peers_advertising_jumper,
            r.failed_yggdrasil_traversal_limit is None,
            !r.yggdrasil_dpi,
            r.yggdrasil_dpi_udp_mtu == 1452,
            r.yggdrasil_dpi_fallback_to_reliable,
            !r.yggdrasil_admin_reconnect,
            r.avoid_redundant_peering,
            r.peer_unconnected_check_delay == 15 * SECOND,
            r.resolve_external_address_delay == 25 * SECOND,
            r.yggdrasilctl_query_delay == 10 * SECOND,
            r.connect_as_client_timeout == 5 * SECOND,
            r.peer_getnodeinfo_timeout == 10 * SECOND,
            r.session_cache_invalidation_timeout == 3 * 3600 * SECOND,
            r.align_uptime_timeout == 20 * SECOND,
            r.inactivity_delay == 90 * SECOND,
            r.inactivity_delay_period == 300 * SECOND,
    {
        ConfigInner {
            yggdrasil_listen: listed.yggdrasil_listen,
            yggdrasil_admin_listen: listed.yggdrasil_admin_listen,
            yggdrasil_protocols: listed.yggdrasil_protocols,
            allow_ipv4: listed.allow_ipv4,
            allow_ipv6: listed.allow_ipv6,
            listen_port: listed.listen_port,
            yggdrasil_firewall_traversal_udp_retry_count: 5,
            yggdrasil_firewall_traversal_udp_cycle: SECOND,
            nat_traversal_udp_retry_count: 15,
            nat_traversal_udp_cycle: SECOND / 2,
            stun_servers: listed.stun_servers,
            stun_randomize: listed.stun_randomize,
            stun_udp_retry_count: 4,
            stun_udp_response_timeout: SECOND / 2,
            stun_udp_exponential_timeout: true,
            stun_tcp_response_timeout: 4 * SECOND,
            whitelist: None,
            only_peers_advertising_jumper: false,
            failed_yggdrasil_traversal_limit: None,
            yggdrasil_dpi: false,
            yggdrasil_dpi_udp_mtu: 1452,
            yggdrasil_dpi_fallback_to_reliable: true,
            yggdrasil_admin_reconnect: false,
            avoid_redundant_peering: true,
            peer_unconnected_check_delay: 15 * SECOND,
            resolve_external_address_delay: 25 * SECOND,
            yggdrasilctl_query_delay: 10 * SECOND,
            connect_as_client_timeout: 5 * SECOND,
            peer_getnodeinfo_timeout: 10 * SECOND,
            session_cache_invalidation_timeout: 3 * 3600 * SECOND,
            align_uptime_timeout: 20 * SECOND,
            inactivity_delay: 90 * SECOND,
            inactivity_delay_period: 300 * SECOND,
        }
    }

    /// Accepts a configuration that names an admin socket of the router and
    /// allows an address family, and hands it back; refuses every other.
    pub fn verify(self) -> (r: Result<ConfigInner, ConfigError>)
        ensures
            match r {
                Ok(config) => config == self && self.yggdrasil_admin_listen@.len() > 0 && (
                self.allow_ipv4 || self.allow_ipv6),
                Err(ConfigError::NoAdminSocket) => self.yggdrasil_admin_listen@.len() == 0,
                Err(ConfigError::NoAddressFamily) => self.yggdrasil_admin_listen@.len() > 0
                    && !self.allow_ipv4 && !self.allow_ipv6,
            },
    {
        if self.yggdrasil_admin_listen.len() == 0 {
            return Err(ConfigError::NoAdminSocket);
        }
        if !self.allow_ipv4 && !self.allow_ipv6 {
            return Err(ConfigError::NoAddressFamily);
        }
        Ok(self)
    }
}

} // verus!
