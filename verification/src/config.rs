//! The configuration surface at the core's boundary, as plain values,
//! with the startup validation that makes `ConfigInvalid` fatal.

use vstd::prelude::*;

use crate::addr::{IpAddress, SockAddr};
use crate::errors::ErrorKind;
use crate::tunnel::OutRule;

verus! {

/// Upstream DNS servers for the resolver.
pub struct InDnsResolverConfig {
    pub server: Vec<String>,
}

impl Default for InDnsResolverConfig {
    /// No explicit servers: the system resolver is used.
    fn default() -> (c: Self)
        ensures
            c.server@.len() == 0,
    {
        InDnsResolverConfig { server: Vec::new() }
    }
}

/// Where the fake-IP DNS listens.
pub struct InFakeIpDnsConfig {
    pub listen: SockAddr,
}

impl Default for InFakeIpDnsConfig {
    /// The local stub-resolver address.
    fn default() -> (c: Self)
        ensures
            c.listen == (SockAddr { ip: IpAddress::V4 { a: 127, b: 0, c: 0, d: 53 }, port: 53 }),
    {
        InFakeIpDnsConfig {
            listen: SockAddr { ip: IpAddress::V4 { a: 127, b: 0, c: 0, d: 53 }, port: 53 },
        }
    }
}

/// Where the transparent proxy listens, and the mark its sockets carry.
pub struct InTransparentProxyConfig {
    pub listen: SockAddr,
    pub traffic_mark: u32,
}

impl Default for InTransparentProxyConfig {
    /// A loopback listener and a distinctive mark that keeps the proxy's
    /// own upstream traffic out of the redirect loop.
    fn default() -> (c: Self)
        ensures
            c.listen == (SockAddr { ip: IpAddress::V4 { a: 127, b: 0, c: 0, d: 1 }, port: 12345 }),
            c.traffic_mark == 255,
    {
        InTransparentProxyConfig {
            listen: SockAddr { ip: IpAddress::V4 { a: 127, b: 0, c: 0, d: 1 }, port: 12345 },
            traffic_mark: 255,
        }
    }
}

/// The IN side's tunneling settings.
pub struct InTunnelingConfig {
    pub stun_server: Vec<String>,
    pub match_server: String,
    pub connections: usize,
}

/// GeoLite2 database source for routing classification.
pub struct InRoutingGeoLite2Config {
    pub url: String,
    pub update_interval: Option<String>,
}

impl Default for InRoutingGeoLite2Config {
    /// No source configured: classification stays off until one is set.
    fn default() -> (c: Self)
        ensures
            c.url@.len() == 0,
            c.update_interval is None,
    {
        InRoutingGeoLite2Config { url: String::new(), update_interval: None }
    }
}

/// One IN-side routing rule: the labels a tunnel must carry.
pub struct InRule {
    pub required_labels: Vec<String>,
}

/// The IN side's routing settings.
pub struct InRoutingConfig {
    pub geolite2: InRoutingGeoLite2Config,
    pub rules: Vec<InRule>,
}

impl Default for InRoutingConfig {
    /// No rules: every tunnel qualifies.
    fn default() -> (c: Self)
        ensures
            c.rules@.len() == 0,
            c.geolite2.url@.len() == 0,
    {
        InRoutingConfig { geolite2: Default::default(), rules: Vec::new() }
    }
}

/// The IN side's whole configuration.
pub struct InConfig {
    pub dns_resolver: InDnsResolverConfig,
    pub fake_ip_dns: InFakeIpDnsConfig,
    pub transparent_proxy: InTransparentProxyConfig,
    pub tunneling: InTunnelingConfig,
    pub routing: InRoutingConfig,
}

/// The OUT side's tunneling settings.
pub struct OutTunnelingConfig {
    pub label: Vec<String>,
    pub priority: i64,
    pub stun_server: Vec<String>,
    pub match_server: String,
}

/// The OUT side's routing settings.
pub struct OutRoutingConfig {
    pub rules: Vec<OutRule>,
}

impl Default for OutRoutingConfig {
    /// No rules: every destination is admitted.
    fn default() -> (c: Self)
        ensures
            c.rules@.len() == 0,
    {
        OutRoutingConfig { rules: Vec::new() }
    }
}

/// The OUT side's whole configuration.
pub struct OutConfig {
    pub tunneling: OutTunnelingConfig,
    pub routing: OutRoutingConfig,
}

/// How many concurrent tunnels an IN keeps when none is configured.
pub fn tunnel_connections_default() -> (n: usize)
    ensures
        n == 1,
{
    1
}

/// A usable IN configuration names a match server and keeps at least one
/// slot.
pub open spec fn in_config_valid(c: &InConfig) -> bool {
    c.tunneling.match_server@.len() > 0 && c.tunneling.connections >= 1
}

/// Checks the IN configuration at startup; failure is fatal.
pub fn validate_in(c: &InConfig) -> (r: Result<(), ErrorKind>)
    ensures
        r is Ok <==> in_config_valid(c),
        r is Err ==> r->Err_0 == ErrorKind::ConfigInvalid,
{
    if c.tunneling.match_server.as_str().unicode_len() == 0 {
        return Err(ErrorKind::ConfigInvalid);
    }
    if c.tunneling.connections < 1 {
        return Err(ErrorKind::ConfigInvalid);
    }
    Ok(())
}

/// A usable OUT configuration names a match server.
pub open spec fn out_config_valid(c: &OutConfig) -> bool {
    c.tunneling.match_server@.len() > 0
}

/// Checks the OUT configuration at startup; failure is fatal.
pub fn validate_out(c: &OutConfig) -> (r: Result<(), ErrorKind>)
    ensures
        r is Ok <==> out_config_valid(c),
        r is Err ==> r->Err_0 == ErrorKind::ConfigInvalid,
{
    if c.tunneling.match_server.as_str().unicode_len() == 0 {
        return Err(ErrorKind::ConfigInvalid);
    }
    Ok(())
}

} // verus!
