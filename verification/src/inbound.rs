//! The inbound listeners.
//!
//! The manager turns the configured inbounds into the listeners to run: a
//! network listener for each inbound that names a known handler and a port,
//! and the tun listener where the platform has one.

use crate::config::Inbound;
use crate::session::Destination;
use crate::session::Network;
use crate::session::Session;
use crate::session::SocketAddress;
use crate::tagmap::distinct_tags;
use crate::tagmap::lemma_slot_of;
use crate::tagmap::lemma_slot_of_entry;
use crate::tagmap::put;
use crate::tagmap::slot_of;
use crate::tagmap::slots_below;
use crate::tagmap::tag_entries;
use crate::tagmap::tag_map_get;
use crate::tagmap::tag_map_len;
use crate::tagmap::tag_map_new;
use crate::tagmap::tag_map_put;
use crate::tagmap::tag_map_slot_at;
use crate::tagmap::TagEntry;
use crate::ConfigError;
use indexmap::IndexMap;
use vstd::prelude::*;

verus! {

/// The platform the gateway runs on.
#[derive(Debug, Clone, Copy, PartialEq, Eq, Structural)]
pub enum Platform {
    Windows,
    Linux,
    Macos,
    Ios,
    Android,
}

/// Whether the gateway itself listens on the tun device on `platform`. On
/// Windows the device is served by a helper process instead.
pub open spec fn has_tun_listener_on(platform: Platform) -> bool {
    !(platform is Windows)
}

/// An inbound handler: a tag and the capabilities it accepts with.
pub struct InboundHandler {
    pub tag: String,
    pub stream: bool,
    pub datagram: bool,
}

/// A listener on a network address.
pub struct NetworkInboundListener {
    pub address: String,
    pub port: u16,
    pub handler: InboundHandler,
}

impl NetworkInboundListener {
    /// The session of a flow that the listener has accepted. It carries the
    /// tag of the listener's handler.
    pub fn accept(
        &self,
        network: Network,
        source: SocketAddress,
        destination: Destination,
        client: Option<String>,
        now: u64,
    ) -> (r: Session)
        ensures
            r.network == network,
            r.source == source,
            r.destination == destination,
            r.inbound_tag@ == self.handler.tag@,
            r.client == client,
            r.created_at == now,
    {
        Session {
            network,
            source,
            destination,
            inbound_tag: self.handler.tag.clone(),
            client,
            created_at: now,
        }
    }
}

/// The listener on the tun device.
pub struct TunInboundListener {
    /// The tag of the inbound the listener was configured by.
    pub tag: String,
    /// The settings blob of that inbound.
    pub settings: Vec<u8>,
}

/// Why the manager has no runner to give.
#[derive(Debug, Clone, Copy, PartialEq, Eq, Structural)]
pub enum InboundError {
    /// No tun inbound is configured.
    NoTunInbound,
}

impl InboundError {
    /// What the error says.
    pub open spec fn text(self) -> Seq<char> {
        "no tun inbound"@
    }

    /// What the error says, for a person to read.
    pub fn message(&self) -> (r: String)
        ensures
            r@ == self.text(),
    {
        "no tun inbound".to_owned()
    }
}

/// The error says that the settings of `inbound` do not decode, and why.
pub open spec fn settings_error(e: ConfigError, inbound: Inbound) -> bool {
    &&& e matches ConfigError::InvalidInboundSettings(tag, why)
    &&& tag@ == inbound.tag@
    &&& inbound.tun matches Err(reason)
    &&& why@ == reason@
}

/// The inbound is served by the tun listener.
pub open spec fn is_tun(inbound: Inbound, platform: Platform) -> bool {
    has_tun_listener_on(platform) && inbound.protocol@ == "tun"@
}

/// The protocol has an inbound handler. The socks handler is the one there is.
pub open spec fn has_handler(protocol: Seq<char>) -> bool {
    protocol == "socks"@
}

/// The inbound gets a network listener: it is not the tun inbound, has a
/// port, and its protocol has a handler.
pub open spec fn listens(inbound: Inbound, platform: Platform) -> bool {
    !is_tun(inbound, platform) && inbound.port != 0 && has_handler(inbound.protocol@)
}

/// The position of the first tun inbound among the first `k` whose settings
/// do not decode.
pub open spec fn tun_failure(inbounds: Seq<Inbound>, platform: Platform, k: nat) -> Option<int>
    decreases k,
{
    if k == 0 {
        None
    } else {
        match tun_failure(inbounds, platform, (k - 1) as nat) {
            Some(i) => Some(i),
            None => if is_tun(inbounds[k - 1], platform) && inbounds[k - 1].tun is Err {
                Some(k - 1)
            } else {
                None
            },
        }
    }
}

/// The position of the last tun inbound among the first `k`.
pub open spec fn last_tun(inbounds: Seq<Inbound>, platform: Platform, k: nat) -> Option<int>
    decreases k,
{
    if k == 0 {
        None
    } else if is_tun(inbounds[k - 1], platform) {
        Some(k - 1)
    } else {
        last_tun(inbounds, platform, (k - 1) as nat)
    }
}

/// The positions of the inbounds among the first `k` that get a network
/// listener, in order. The listener of the `j`-th of them sits in slot `j`.
pub open spec fn listening(inbounds: Seq<Inbound>, platform: Platform, k: nat) -> Seq<int>
    decreases k,
{
    if k == 0 {
        Seq::empty()
    } else if listens(inbounds[k - 1], platform) {
        listening(inbounds, platform, (k - 1) as nat).push(k - 1)
    } else {
        listening(inbounds, platform, (k - 1) as nat)
    }
}

/// The tag map after the first `k` inbounds: each inbound that gets a
/// listener has put its tag for its listener's slot.
pub open spec fn listener_entries(inbounds: Seq<Inbound>, platform: Platform, k: nat) -> Seq<TagEntry>
    decreases k,
{
    if k == 0 {
        Seq::empty()
    } else if listens(inbounds[k - 1], platform) {
        put(
            listener_entries(inbounds, platform, (k - 1) as nat),
            inbounds[k - 1].tag@,
            listening(inbounds, platform, (k - 1) as nat).len() as usize,
        )
    } else {
        listener_entries(inbounds, platform, (k - 1) as nat)
    }
}

/// `l` is the listener of `inbound`.
pub open spec fn listener_for(l: NetworkInboundListener, inbound: Inbound) -> bool {
    &&& l.address@ == inbound.address@
    &&& l.port == inbound.port % 0x10000
    &&& l.handler.tag@ == inbound.tag@
    &&& l.handler.stream
    &&& l.handler.datagram
}

/// The listeners the gateway runs.
pub struct InboundManager {
    network_listeners: IndexMap<String, usize>,
    listeners: Vec<NetworkInboundListener>,
    tun_listener: Option<TunInboundListener>,
    tun_auto: bool,
}

impl InboundManager {
    /// The tags of the network listeners with the slots of their listeners,
    /// in insertion order.
    pub closed spec fn entries(&self) -> Seq<TagEntry> {
        tag_entries(self.network_listeners)
    }

    /// The network listeners, by slot.
    pub closed spec fn pool(&self) -> Seq<NetworkInboundListener> {
        self.listeners@
    }

    /// The tun listener.
    pub closed spec fn tun(&self) -> Option<TunInboundListener> {
        self.tun_listener
    }

    /// Whether the tun device's addresses and routes are set up automatically.
    pub closed spec fn auto(&self) -> bool {
        self.tun_auto
    }

    /// The manager's invariant: no tag occurs twice and every tag's slot
    /// lies in the pool.
    pub open spec fn wf(&self) -> bool {
        distinct_tags(self.entries()) && slots_below(self.entries(), self.pool().len())
    }

    /// The manager holds the listeners that the configured inbounds give on
    /// `platform`.
    pub open spec fn holds(&self, inbounds: Seq<Inbound>, platform: Platform) -> bool {
        let n = inbounds.len();
        let chosen = listening(inbounds, platform, n);
        &&& tun_failure(inbounds, platform, n) is None
        &&& self.wf()
        &&& self.entries() == listener_entries(inbounds, platform, n)
        &&& self.pool().len() == chosen.len()
        &&& forall|j: int| 0 <= j < chosen.len() ==> 0 <= #[trigger] chosen[j] < n
        &&& forall|j: int|
            0 <= j < chosen.len() ==> listener_for(#[trigger] self.pool()[j], inbounds[chosen[j]])
        &&& match last_tun(inbounds, platform, n) {
            Some(i) => ({
                &&& self.tun() matches Some(l)
                &&& l.tag@ == inbounds[i].tag@
                &&& l.settings@ == inbounds[i].settings@
                &&& inbounds[i].tun matches Ok(s)
                &&& self.auto() == s.auto
            }),
            None => self.tun() is None && !self.auto(),
        }
    }

    /// The listeners that the configured inbounds give on `platform`.
    ///
    /// A tun inbound, where the platform has a tun listener, becomes the tun
    /// listener and decides whether the device is set up automatically; the
    /// last one counts. Any other inbound gets a network listener under its
    /// own tag if it has a port and its protocol has a handler; of two
    /// inbounds with one tag the later one's listener counts. Fails at the
    /// first tun inbound whose settings do not decode.
    pub fn new(inbounds: &Vec<Inbound>, platform: Platform) -> (r: Result<Self, ConfigError>)
        ensures
            match r {
                Ok(m) => m.holds(inbounds@, platform),
                Err(e) => ({
                    &&& tun_failure(inbounds@, platform, inbounds@.len()) matches Some(i)
                    &&& 0 <= i < inbounds@.len()
                    &&& settings_error(e, inbounds@[i])
                }),
            },
    {
        let tun_platform = match platform {
            Platform::Windows => false,
            _ => true,
        };
        let mut network_listeners = tag_map_new();
        let mut listeners: Vec<NetworkInboundListener> = Vec::new();
        let mut tun_listener: Option<TunInboundListener> = None;
        let mut tun_auto = false;
        let mut k: usize = 0;
        while k < inbounds.len()
            invariant
                k <= inbounds.len(),
                tun_platform == has_tun_listener_on(platform),
                tun_failure(inbounds@, platform, k as nat) is None,
                tag_entries(network_listeners) == listener_entries(inbounds@, platform, k as nat),
                distinct_tags(tag_entries(network_listeners)),
                slots_below(tag_entries(network_listeners), listeners@.len()),
                listeners@.len() == listening(inbounds@, platform, k as nat).len(),
                forall|j: int|
                    0 <= j < listeners@.len() ==> listener_for(
                        #[trigger] listeners@[j],
                        inbounds@[listening(inbounds@, platform, k as nat)[j]],
                    ),
                match last_tun(inbounds@, platform, k as nat) {
                    Some(i) => ({
                        &&& 0 <= i < k
                        &&& tun_listener matches Some(l)
                        &&& l.tag@ == inbounds@[i].tag@
                        &&& l.settings@ == inbounds@[i].settings@
                        &&& inbounds@[i].tun matches Ok(s)
                        &&& tun_auto == s.auto
                    }),
                    None => tun_listener is None && !tun_auto,
                },
            decreases inbounds.len() - k,
        {
            let inbound = &inbounds[k];
            let ghost chosen = listening(inbounds@, platform, k as nat);
            if tun_platform && inbound.protocol.as_str().eq("tun") {
                tun_listener = Some(
                    TunInboundListener {
                        tag: inbound.tag.clone(),
                        settings: inbound.settings.clone(),
                    },
                );
                match &inbound.tun {
                    Ok(settings) => {
                        tun_auto = settings.auto;
                    },
                    Err(why) => {
                        proof {
                            lemma_tun_failure_stays(
                                inbounds@,
                                platform,
                                (k + 1) as nat,
                                inbounds@.len(),
                            );
                        }
                        return Err(
                            ConfigError::InvalidInboundSettings(inbound.tag.clone(), why.clone()),
                        );
                    },
                }
            } else if inbound.port != 0 {
                if inbound.protocol.as_str().eq("socks") {
                    let listener = NetworkInboundListener {
                        address: inbound.address.clone(),
                        port: (inbound.port % 0x10000) as u16,
                        handler: InboundHandler {
                            tag: inbound.tag.clone(),
                            stream: true,
                            datagram: true,
                        },
                    };
                    let slot = listeners.len();
                    let ghost before = listeners@;
                    listeners.push(listener);
                    tag_map_put(
                        &mut network_listeners,
                        inbound.tag.clone(),
                        slot,
                        Ghost((slot + 1) as nat),
                    );
                    assert forall|j: int| 0 <= j < listeners@.len() implies listener_for(
                        #[trigger] listeners@[j],
                        inbounds@[listening(inbounds@, platform, (k + 1) as nat)[j]],
                    ) by {
                        assert(listens(*inbound, platform));
                        assert(listening(inbounds@, platform, (k + 1) as nat) == chosen.push(
                            k as int,
                        ));
                        if j < slot {
                            assert(listeners@[j] == before[j]);
                        }
                    }
                }
            }
            k += 1;
        }
        proof {
            lemma_listening_bound(inbounds@, platform, inbounds@.len());
        }
        Ok(InboundManager { network_listeners, listeners, tun_listener, tun_auto })
    }

    /// The network listener of the inbound with the tag `tag`.
    pub fn get(&self, tag: &str) -> (r: Option<&NetworkInboundListener>)
        requires
            self.wf(),
        ensures
            match slot_of(self.entries(), tag@) {
                Some(slot) => slot < self.pool().len() && r == Some(&self.pool()[slot as int]),
                None => r is None,
            },
    {
        let found = tag_map_get(&self.network_listeners, tag);
        proof {
            let entries = self.entries();
            lemma_slot_of(entries, tag@);
            if let Some(slot) = found {
                let i = choose|i: int| 0 <= i < entries.len() && entries[i] == (tag@, slot);
                lemma_slot_of_entry(entries, i);
            }
        }
        match found {
            Some(slot) => Some(&self.listeners[slot]),
            None => None,
        }
    }

    /// The network listeners to run, in the order in which their tags were
    /// inserted.
    pub fn get_network_runners(&self) -> (r: Vec<&NetworkInboundListener>)
        requires
            self.wf(),
        ensures
            r@.len() == self.entries().len(),
            forall|i: int|
                0 <= i < r@.len() ==> (#[trigger] self.entries()[i]).1 < self.pool().len() && *r@[i]
                    == self.pool()[self.entries()[i].1 as int],
    {
        let n = tag_map_len(&self.network_listeners);
        let mut out: Vec<&NetworkInboundListener> = Vec::new();
        let mut i: usize = 0;
        while i < n
            invariant
                i <= n,
                n == self.entries().len(),
                self.wf(),
                out@.len() == i,
                forall|j: int|
                    0 <= j < i ==> (#[trigger] self.entries()[j]).1 < self.pool().len() && *out@[j]
                        == self.pool()[self.entries()[j].1 as int],
            decreases n - i,
        {
            match tag_map_slot_at(&self.network_listeners, i) {
                Some(slot) => {
                    assert(self.entries()[i as int].1 == slot);
                    out.push(&self.listeners[slot]);
                },
                None => {},
            }
            i += 1;
        }
        out
    }

    /// The tun listener to run.
    pub fn get_tun_runner(&self) -> (r: Result<&TunInboundListener, InboundError>)
        ensures
            match r {
                Ok(l) => self.tun() == Some(*l),
                Err(e) => self.tun() is None && e == InboundError::NoTunInbound,
            },
    {
        match &self.tun_listener {
            Some(listener) => Ok(listener),
            None => Err(InboundError::NoTunInbound),
        }
    }

    /// Whether a tun listener is configured.
    pub fn has_tun_listener(&self) -> (r: bool)
        ensures
            r == self.tun() is Some,
    {
        self.tun_listener.is_some()
    }

    /// Whether the tun device's addresses and routes are set up automatically.
    pub fn tun_auto(&self) -> (r: bool)
        ensures
            r == self.auto(),
    {
        self.tun_auto
    }
}

/// The inbounds that get a listener among the first `k` lie among the first `k`.
pub proof fn lemma_listening_bound(inbounds: Seq<Inbound>, platform: Platform, k: nat)
    ensures
        forall|j: int|
            0 <= j < listening(inbounds, platform, k).len() ==> 0 <= #[trigger] listening(
                inbounds,
                platform,
                k,
            )[j] < k,
    decreases k,
{
    if k > 0 {
        lemma_listening_bound(inbounds, platform, (k - 1) as nat);
        let before = listening(inbounds, platform, (k - 1) as nat);
        let now = listening(inbounds, platform, k);
        assert forall|j: int| 0 <= j < now.len() implies 0 <= #[trigger] now[j] < k by {
            if j < before.len() {
                assert(now[j] == before[j]);
            }
        }
    }
}

/// Once a tun inbound has failed to decode, the failure stays the first one.
proof fn lemma_tun_failure_stays(inbounds: Seq<Inbound>, platform: Platform, k: nat, n: nat)
    requires
        k <= n,
        tun_failure(inbounds, platform, k) is Some,
    ensures
        tun_failure(inbounds, platform, n) == tun_failure(inbounds, platform, k),
    decreases n,
{
    if n > k {
        lemma_tun_failure_stays(inbounds, platform, k, (n - 1) as nat);
    }
}

} // verus!
