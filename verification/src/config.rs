//! The decoded configuration tree.
//!
//! A configuration arrives already decoded from its file: this module only
//! holds the records that the managers read. Each handler's `settings` is
//! kept as the blob it was configured with, since handlers with the same
//! protocol and the same blob share one instance; where a protocol has
//! settings of its own, their decoded form stands beside the blob.

use crate::router::Rule;
use vstd::prelude::*;

verus! {

/// Settings of a trojan outbound.
pub struct TrojanOutboundSettings {
    pub address: String,
    pub port: u32,
    pub password: String,
    pub server_name: String,
}

/// Settings of a tun inbound.
pub struct TunInboundSettings {
    pub auto: bool,
}

/// One configured outbound.
pub struct Outbound {
    pub tag: String,
    pub protocol: String,
    /// The settings blob as configured.
    pub settings: Vec<u8>,
    /// What `settings` decodes to as trojan settings, or why it does not
    /// decode as such.
    pub trojan: Result<TrojanOutboundSettings, String>,
}

/// One configured inbound.
pub struct Inbound {
    pub tag: String,
    pub protocol: String,
    pub address: String,
    pub port: u32,
    /// The settings blob as configured.
    pub settings: Vec<u8>,
    /// What `settings` decodes to as tun settings, or why it does not
    /// decode as such.
    pub tun: Result<TunInboundSettings, String>,
}

/// Static host entry of the resolver: a name and its addresses.
pub struct Host {
    pub name: String,
    pub values: Vec<String>,
}

/// Resolver configuration.
pub struct Dns {
    pub servers: Vec<String>,
    pub hosts: Vec<Host>,
}

/// Routing configuration.
pub struct Router {
    pub rules: Vec<Rule>,
}

/// The whole configuration.
pub struct Config {
    pub dns: Dns,
    pub router: Router,
    pub inbounds: Vec<Inbound>,
    pub outbounds: Vec<Outbound>,
}

} // verus!
