//! The dispatcher's decisions: which outbound handler a flow is handed to,
//! and how the two halves of a splice end.

use crate::outbound::OutboundHandler;
use crate::outbound::OutboundManager;
use crate::router::Router;
use crate::session::IpAddress;
use crate::session::Network;
use crate::session::Session;
use crate::tagmap::slot_of;
use vstd::prelude::*;

verus! {

/// Why a flow is not handed to an outbound.
#[derive(Debug, Clone, Copy, PartialEq, Eq, Structural)]
pub enum DispatchError {
    /// No outbound is configured.
    NoOutbound,
    /// The outbound chosen for the flow has no capability for its kind.
    ProtocolError,
}

/// The handler has the capability for flows of this kind.
pub open spec fn capable(h: OutboundHandler, network: Network) -> bool {
    match network {
        Network::Tcp => h.stream,
        Network::Udp => h.datagram,
    }
}

/// The tag names a handler of the catalog that has the capability for
/// flows of this kind.
pub open spec fn serves(manager: OutboundManager, tag: Seq<char>, network: Network) -> bool {
    &&& slot_of(manager.entries(), tag) matches Some(slot)
    &&& slot < manager.pool().len()
    &&& capable(manager.pool()[slot as int], network)
}

/// The tag of the outbound for a flow of kind `network` that the router
/// sends to `routed`: the routed tag where it names a handler with the
/// capability for the flow's kind, the default tag otherwise.
pub open spec fn outbound_tag(manager: OutboundManager, routed: Option<Seq<char>>, network: Network) -> Option<
    Seq<char>,
> {
    match routed {
        Some(tag) => if serves(manager, tag, network) {
            Some(tag)
        } else {
            manager.default_tag()
        },
        None => manager.default_tag(),
    }
}

/// What the dispatcher does with a flow of kind `network` that the router
/// sends to `routed`: the slot of the handler it is handed to, or why it is
/// handed to none.
pub open spec fn dispatched(manager: OutboundManager, routed: Option<Seq<char>>, network: Network) -> Result<
    usize,
    DispatchError,
> {
    match outbound_tag(manager, routed, network) {
        None => Err(DispatchError::NoOutbound),
        Some(tag) => if serves(manager, tag, network) {
            Ok(slot_of(manager.entries(), tag)->0)
        } else {
            Err(DispatchError::ProtocolError)
        },
    }
}

/// Whether a handler has the capability for flows of this kind.
pub fn has_capability(h: &OutboundHandler, network: Network) -> (r: bool)
    ensures
        r == capable(*h, network),
{
    match network {
        Network::Tcp => h.stream,
        Network::Udp => h.datagram,
    }
}

/// Whether `tag` names a handler with the capability for flows of this kind.
fn tag_serves(manager: &OutboundManager, tag: &str, network: Network) -> (r: Option<usize>)
    requires
        manager.wf(),
    ensures
        match r {
            Some(slot) => serves(*manager, tag@, network) && slot_of(manager.entries(), tag@)
                == Some(slot),
            None => !serves(*manager, tag@, network),
        },
{
    match manager.instance_of(tag) {
        Some(slot) => match manager.get(tag) {
            Some(h) => if has_capability(h, network) {
                Some(slot)
            } else {
                None
            },
            None => None,
        },
        None => None,
    }
}

/// The handler that a flow of kind `network` is handed to when the router
/// sends it to `routed`.
///
/// The routed tag is kept where it names a handler with the capability for
/// the flow's kind; otherwise the default outbound takes the flow. A flow is
/// never handed to a handler without the capability for its kind: where the
/// default outbound has none either, the flow is refused.
pub fn select_outbound<'a>(manager: &'a OutboundManager, routed: Option<&String>, network: Network) -> (r:
    Result<&'a OutboundHandler, DispatchError>)
    requires
        manager.wf(),
    ensures
        match dispatched(
            *manager,
            match routed {
                Some(tag) => Some(tag@),
                None => None,
            },
            network,
        ) {
            Ok(slot) => slot < manager.pool().len() && r == Ok::<&OutboundHandler, DispatchError>(
                &manager.pool()[slot as int],
            ),
            Err(e) => r matches Err(f) && f == e,
        },
        r matches Ok(h) ==> capable(*h, network),
{
    if let Some(tag) = routed {
        if tag_serves(manager, tag.as_str(), network).is_some() {
            match manager.get(tag.as_str()) {
                Some(h) => {
                    return Ok(h);
                },
                None => {},
            }
        }
    }
    match manager.default_handler() {
        None => Err(DispatchError::NoOutbound),
        Some(tag) => {
            if tag_serves(manager, tag.as_str(), network).is_some() {
                match manager.get(tag.as_str()) {
                    Some(h) => Ok(h),
                    None => Err(DispatchError::ProtocolError),
                }
            } else {
                Err(DispatchError::ProtocolError)
            }
        },
    }
}

/// The handler that the stream of `session` is dialled through.
///
/// `resolved` holds the addresses that the destination's name was resolved
/// to, and is empty where it could not be resolved.
pub fn dispatch_stream<'a>(
    router: &Router,
    manager: &'a OutboundManager,
    session: &Session,
    resolved: &Vec<IpAddress>,
) -> (r: Result<&'a OutboundHandler, DispatchError>)
    requires
        manager.wf(),
    ensures
        match dispatched(*manager, router.route(*session, resolved@), Network::Tcp) {
            Ok(slot) => slot < manager.pool().len() && r == Ok::<&OutboundHandler, DispatchError>(
                &manager.pool()[slot as int],
            ),
            Err(e) => r matches Err(f) && f == e,
        },
        r matches Ok(h) ==> h.stream,
{
    select_outbound(manager, router.pick_route(session, resolved), Network::Tcp)
}

/// The handler that gives the datagram endpoint of `session`'s flow.
///
/// `resolved` holds the addresses that the destination's name was resolved
/// to, and is empty where it could not be resolved.
pub fn dispatch_datagram<'a>(
    router: &Router,
    manager: &'a OutboundManager,
    session: &Session,
    resolved: &Vec<IpAddress>,
) -> (r: Result<&'a OutboundHandler, DispatchError>)
    requires
        manager.wf(),
    ensures
        match dispatched(*manager, router.route(*session, resolved@), Network::Udp) {
            Ok(slot) => slot < manager.pool().len() && r == Ok::<&OutboundHandler, DispatchError>(
                &manager.pool()[slot as int],
            ),
            Err(e) => r matches Err(f) && f == e,
        },
        r matches Ok(h) ==> h.datagram,
{
    select_outbound(manager, router.pick_route(session, resolved), Network::Udp)
}

/// The tag chosen for a flow names a handler with the capability for the
/// flow's kind, or is the default tag.
pub proof fn lemma_capable_or_default(
    manager: OutboundManager,
    routed: Option<Seq<char>>,
    network: Network,
)
    ensures
        outbound_tag(manager, routed, network) matches Some(tag) ==> serves(manager, tag, network)
            || Some(tag) == manager.default_tag(),
        dispatched(manager, routed, network) matches Ok(slot) ==> slot < manager.pool().len()
            && capable(manager.pool()[slot as int], network),
{
}

/// One direction of a splice.
#[derive(Debug, Clone, Copy, PartialEq, Eq, Structural)]
pub enum Half {
    /// From the client to the remote side.
    Uplink,
    /// From the remote side to the client.
    Downlink,
}

/// One end of a splice.
#[derive(Debug, Clone, Copy, PartialEq, Eq, Structural)]
pub enum Side {
    Client,
    Remote,
}

/// The pair of copy loops between a client and a remote endpoint.
#[derive(Debug, Clone, Copy, PartialEq, Eq, Structural)]
pub struct Splice {
    /// Whether the copy from the client to the remote side has ended.
    pub uplink_ended: bool,
    /// Whether the copy from the remote side to the client has ended.
    pub downlink_ended: bool,
}

/// What the caller does when a half has ended.
#[derive(Debug, Clone, Copy, PartialEq, Eq, Structural)]
pub struct SpliceStep {
    /// The end whose writing side is shut down.
    pub shutdown: Option<Side>,
    /// Whether both endpoints are released.
    pub release: bool,
}

impl Splice {
    /// Whether the half has ended.
    pub open spec fn ended(self, half: Half) -> bool {
        match half {
            Half::Uplink => self.uplink_ended,
            Half::Downlink => self.downlink_ended,
        }
    }

    /// Both halves have ended.
    pub open spec fn done(self) -> bool {
        self.uplink_ended && self.downlink_ended
    }

    /// A splice whose halves both copy.
    pub fn new() -> (r: Self)
        ensures
            !r.uplink_ended,
            !r.downlink_ended,
    {
        Splice { uplink_ended: false, downlink_ended: false }
    }

    /// Notes that `half` has ended, at its end of input or with an error.
    ///
    /// The end that the half wrote to has its writing side shut down; the
    /// other half goes on. Once both halves have ended both endpoints are
    /// released. A half that had ended before changes nothing.
    pub fn half_ended(&mut self, half: Half) -> (r: SpliceStep)
        ensures
            final(self).uplink_ended == (old(self).uplink_ended || half is Uplink),
            final(self).downlink_ended == (old(self).downlink_ended || half is Downlink),
            r.shutdown == if old(self).ended(half) {
                None
            } else {
                Some(
                    match half {
                        Half::Uplink => Side::Remote,
                        Half::Downlink => Side::Client,
                    },
                )
            },
            r.release == (!old(self).done() && final(self).done()),
    {
        let was_done = self.uplink_ended && self.downlink_ended;
        let shutdown = match half {
            Half::Uplink => {
                let first = !self.uplink_ended;
                self.uplink_ended = true;
                if first {
                    Some(Side::Remote)
                } else {
                    None
                }
            },
            Half::Downlink => {
                let first = !self.downlink_ended;
                self.downlink_ended = true;
                if first {
                    Some(Side::Client)
                } else {
                    None
                }
            },
        };
        SpliceStep { shutdown, release: !was_done && self.uplink_ended && self.downlink_ended }
    }
}

} // verus!
