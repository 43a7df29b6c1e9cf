//! The descriptor of one client flow.

use vstd::prelude::*;

verus! {

/// The kind of a flow.
#[derive(Debug, Clone, Copy, PartialEq, Eq, Structural)]
pub enum Network {
    Tcp,
    Udp,
}

/// An IP address as a number: the four bytes of an IPv4 address or the
/// sixteen of an IPv6 address, first byte highest.
#[derive(Debug, Clone, Copy, PartialEq, Eq, Structural)]
pub enum IpAddress {
    V4(u32),
    V6(u128),
}

/// An IP address and a port.
#[derive(Debug, Clone, Copy, PartialEq, Eq, Structural)]
pub struct SocketAddress {
    pub ip: IpAddress,
    pub port: u16,
}

/// Where a flow wants to go.
pub enum Destination {
    /// A domain name and a port.
    Domain(String, u16),
    /// An address.
    Ip(SocketAddress),
}

/// A destination with its name as characters.
pub enum DestinationView {
    Domain(Seq<char>, u16),
    Ip(SocketAddress),
}

impl View for Destination {
    type V = DestinationView;

    open spec fn view(&self) -> DestinationView {
        match *self {
            Destination::Domain(name, port) => DestinationView::Domain(name@, port),
            Destination::Ip(a) => DestinationView::Ip(a),
        }
    }
}

/// Whether two socket addresses are the same.
pub fn same_address(a: &SocketAddress, b: &SocketAddress) -> (r: bool)
    ensures
        r == (*a == *b),
{
    let same_ip = match (a.ip, b.ip) {
        (IpAddress::V4(x), IpAddress::V4(y)) => x == y,
        (IpAddress::V6(x), IpAddress::V6(y)) => x == y,
        _ => false,
    };
    same_ip && a.port == b.port
}

impl Destination {
    /// Whether two destinations are the same: the same name and port, or
    /// the same address.
    pub fn same(&self, other: &Destination) -> (r: bool)
        ensures
            r == (self@ == other@),
    {
        match (self, other) {
            (Destination::Domain(a, p), Destination::Domain(b, q)) => *p == *q && a.as_str().eq(
                b.as_str(),
            ),
            (Destination::Ip(a), Destination::Ip(b)) => same_address(a, b),
            _ => false,
        }
    }

    /// A copy of the destination.
    pub fn copy(&self) -> (r: Destination)
        ensures
            r@ == self@,
    {
        match self {
            Destination::Domain(name, port) => Destination::Domain(name.clone(), *port),
            Destination::Ip(a) => Destination::Ip(*a),
        }
    }

    /// The port of the destination.
    pub open spec fn port_of(self) -> u16 {
        match self {
            Destination::Domain(_, port) => port,
            Destination::Ip(a) => a.port,
        }
    }

    /// The port of the destination.
    pub fn port(&self) -> (r: u16)
        ensures
            r == self.port_of(),
    {
        match self {
            Destination::Domain(_, port) => *port,
            Destination::Ip(a) => a.port,
        }
    }
}

/// One client flow, as the inbound that accepted it describes it. A session
/// is made once and handed on by shared reference.
pub struct Session {
    pub network: Network,
    pub source: SocketAddress,
    pub destination: Destination,
    /// The tag of the inbound that accepted the flow.
    pub inbound_tag: String,
    /// The client the flow comes from, where the inbound carries several.
    pub client: Option<String>,
    /// When the flow was accepted, in milliseconds.
    pub created_at: u64,
}

} // verus!
