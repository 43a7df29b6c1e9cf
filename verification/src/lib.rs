//! Session-dispatch core of a local proxy gateway.
//!
//! The crate holds the decisions of the gateway and proves them:
//!
//! - `outbound`: which handler instances a configuration gives, and which
//!   tags share one;
//! - `inbound`: which listeners the configured inbounds give;
//! - `router` and `dispatch`: which outbound a session is sent to, and how
//!   the two halves of a splice end;
//! - `nat_manager`: the table of datagram flows;
//! - `dns_client`: the resolver's static hosts and its cache of answers;
//! - `socks` and `trojan`: the bytes that open a flow and frame a datagram;
//! - `cmd`, `command` and `tun`: what the tables of the platform's network
//!   shell say, and the command lines that set the host's routes;
//! - this module: the life of a runtime instance from start to shutdown.
//!
//! Sockets, processes and the scheduler are the caller's: each function
//! takes what was read and gives what is to be done.

use crate::cmd::row_view;
use crate::config::Host;
use crate::inbound::tun_failure;
use crate::inbound::InboundManager;
use crate::inbound::Platform;
use crate::outbound::build;
use crate::outbound::failure;
use crate::outbound::settings_error;
use crate::outbound::OutboundManager;
use crate::router::Rule;
use crate::tagmap::has_tag;
use crate::tagmap::lemma_slot_of;
use crate::tagmap::TagEntry;
use indexmap::IndexMap;
use vstd::prelude::*;
use vstd::string::StringExecFns;

pub mod cmd;
pub mod command;
pub mod config;
pub mod dispatch;
pub mod dns_client;
pub mod inbound;
pub mod nat_manager;
pub mod outbound;
pub mod router;
pub mod session;
pub mod socks;
pub mod tagmap;
pub mod text;
pub mod tls;
pub mod trojan;
pub mod tun;

verus! {

/// Why a configuration is refused.
#[derive(Debug, PartialEq, Eq)]
pub enum ConfigError {
    /// The settings blob of the outbound with this tag does not decode, for
    /// this reason.
    InvalidOutboundSettings(String, String),
    /// The settings blob of the inbound with this tag does not decode, for
    /// this reason.
    InvalidInboundSettings(String, String),
    /// A routing rule names this tag, and no outbound handler carries it.
    UnknownOutboundTag(String),
    /// An instance with this id is already running.
    AlreadyRunning(RuntimeId),
    /// The configuration could not be read, for this reason.
    Invalid(String),
}

/// Why the runtime could not be started or stopped.
#[derive(Debug, PartialEq, Eq)]
pub enum Error {
    /// The configuration is refused.
    Config(ConfigError),
    /// No configuration file is associated with the instance.
    NoConfigFile,
    /// An input or output operation failed, with its description.
    Io(String),
    /// The shutdown signal could not be handed to the runtime.
    AsyncChannelSend,
    /// The runtime's answer did not arrive.
    SyncChannelRecv,
    /// The runtime manager failed.
    RuntimeManager,
}

/// Identifies a runtime instance.
pub type RuntimeId = u16;

/// The id of the one instance a process commonly runs.
pub const INSTANCE_ID: RuntimeId = 1;

/// The stack size of the runtime's worker threads unless one is asked for:
/// two mebibytes in a debug build, 256 kibibytes in a release build.
pub fn default_thread_stack_size(debug: bool) -> (r: usize)
    ensures
        r == if debug {
            2097152usize
        } else {
            262144usize
        },
{
    if debug {
        2 * 1024 * 1024
    } else {
        256 * 1024
    }
}

/// How the scheduler is to be set up.
#[derive(Debug)]
pub enum RuntimeOption {
    /// One thread.
    SingleThread,
    /// Several threads, with this stack size.
    MultiThreadAuto(usize),
    /// This number of worker threads, with this stack size.
    MultiThread(usize, usize),
}

/// Where the configuration comes from.
pub enum Config {
    /// The path of a configuration file.
    File(String),
    /// The text of a configuration.
    Str(String),
    /// A decoded configuration.
    Internal(config::Config),
}

/// What `start` is given.
pub struct StartOptions {
    pub config: Config,
}

impl Config {
    /// The path of the configuration file, where the configuration is one.
    pub fn path(&self) -> (r: Option<String>)
        ensures
            match *self {
                Config::File(p) => r matches Some(q) && q@ == p@,
                _ => r is None,
            },
    {
        match self {
            Config::File(p) => Some(p.clone()),
            _ => None,
        }
    }
}

/// The state of one running instance.
pub struct RuntimeManager {
    config_path: Option<String>,
    shutdown_requested: bool,
}

impl RuntimeManager {
    /// The path of the configuration file the instance was started from.
    pub closed spec fn path(&self) -> Option<Seq<char>> {
        match self.config_path {
            Some(p) => Some(p@),
            None => None,
        }
    }

    /// Whether the instance has been told to shut down.
    pub closed spec fn stopping(&self) -> bool {
        self.shutdown_requested
    }

    /// A running instance that has not been told to shut down.
    pub fn new(config_path: Option<String>) -> (r: Self)
        ensures
            !r.stopping(),
            r.path() == match config_path {
                Some(p) => Some(p@),
                None => None,
            },
    {
        RuntimeManager { config_path, shutdown_requested: false }
    }

    /// Notes the outcome of sending the shutdown signal to the instance's
    /// runtime. `delivered` says whether the runtime's channel took the
    /// signal; it did not if the receiving end is gone. The instance is
    /// stopping from the first signal that was delivered. Returns whether
    /// this signal was.
    pub fn shutdown(&mut self, delivered: bool) -> (r: bool)
        ensures
            r == delivered,
            final(self).stopping() == (old(self).stopping() || delivered),
            final(self).path() == old(self).path(),
    {
        if delivered {
            self.shutdown_requested = true;
        }
        delivered
    }

    /// As `shutdown`, for a signal that was sent from outside the runtime's
    /// own threads.
    pub fn blocking_shutdown(&mut self, delivered: bool) -> (r: bool)
        ensures
            r == delivered,
            final(self).stopping() == (old(self).stopping() || delivered),
            final(self).path() == old(self).path(),
    {
        self.shutdown(delivered)
    }

    /// Whether the instance has been told to shut down.
    pub fn shutdown_requested(&self) -> (r: bool)
        ensures
            r == self.stopping(),
    {
        self.shutdown_requested
    }
}

/// The instances a registry holds, by id.
pub uninterp spec fn registered(m: IndexMap<RuntimeId, RuntimeManager>) -> Map<
    RuntimeId,
    RuntimeManager,
>;

/// The registry's content when no instance is live.
pub open spec fn no_instances() -> Map<RuntimeId, RuntimeManager> {
    Map::empty()
}

/// Calls `IndexMap::new`: the new map holds nothing.
#[verifier::external_body]
fn registry_new() -> (m: IndexMap<RuntimeId, RuntimeManager>)
    ensures
        registered(m) == no_instances(),
{
    IndexMap::new()
}

/// Calls `IndexMap::contains_key`: whether a value is stored under `id`.
#[verifier::external_body]
fn registry_contains(m: &IndexMap<RuntimeId, RuntimeManager>, id: RuntimeId) -> (r: bool)
    ensures
        r == registered(*m).dom().contains(id),
{
    m.contains_key(&id)
}

/// Calls `IndexMap::insert`: `manager` is stored under `id`, and what was
/// stored there before is returned.
#[verifier::external_body]
fn registry_insert(
    m: &mut IndexMap<RuntimeId, RuntimeManager>,
    id: RuntimeId,
    manager: RuntimeManager,
) -> (r: Option<RuntimeManager>)
    ensures
        registered(*final(m)) == registered(*old(m)).insert(id, manager),
        r == if registered(*old(m)).dom().contains(id) {
            Some(registered(*old(m))[id])
        } else {
            None
        },
{
    m.insert(id, manager)
}

/// Calls `IndexMap::remove`: what was stored under `id` is taken out and
/// returned; the other values stay.
#[verifier::external_body]
fn registry_remove(m: &mut IndexMap<RuntimeId, RuntimeManager>, id: RuntimeId) -> (r: Option<
    RuntimeManager,
>)
    ensures
        registered(*final(m)) == registered(*old(m)).remove(id),
        r == if registered(*old(m)).dom().contains(id) {
            Some(registered(*old(m))[id])
        } else {
            None
        },
{
    m.remove(&id)
}

/// The instances that are live, by id.
pub struct RuntimeRegistry {
    instances: IndexMap<RuntimeId, RuntimeManager>,
}

impl RuntimeRegistry {
    /// The live instances.
    pub closed spec fn live(&self) -> Map<RuntimeId, RuntimeManager> {
        registered(self.instances)
    }

    /// A registry without instances.
    pub fn new() -> (r: Self)
        ensures
            r.live() == no_instances(),
    {
        RuntimeRegistry { instances: registry_new() }
    }

    /// Whether the instance `id` is live.
    pub fn is_running(&self, id: RuntimeId) -> (r: bool)
        ensures
            r == self.live().dom().contains(id),
    {
        registry_contains(&self.instances, id)
    }

    /// Enters `manager` as the instance `id`. Refused, with the registry as
    /// it was, while an instance with that id is live.
    pub fn start(&mut self, id: RuntimeId, manager: RuntimeManager) -> (r: Result<(), Error>)
        ensures
            match r {
                Ok(()) => !old(self).live().dom().contains(id) && final(self).live() == old(self).live().insert(id, manager),
                Err(e) => old(self).live().dom().contains(id) && final(self).live() == old(self).live() && e == Error::Config(ConfigError::AlreadyRunning(id)),
            },
    {
        if registry_contains(&self.instances, id) {
            return Err(Error::Config(ConfigError::AlreadyRunning(id)));
        }
        let _ = registry_insert(&mut self.instances, id, manager);
        Ok(())
    }

    /// Notes the outcome of sending the shutdown signal to the instance
    /// `id`. Returns whether there is such an instance and the signal was
    /// delivered to it; the instance is then stopping.
    pub fn shutdown(&mut self, id: RuntimeId, delivered: bool) -> (r: bool)
        ensures
            r == (old(self).live().dom().contains(id) && delivered),
            final(self).live().dom() == old(self).live().dom(),
            forall|other: RuntimeId|
                other != id && old(self).live().dom().contains(other) ==> final(self).live()[other]
                    == old(self).live()[other],
            old(self).live().dom().contains(id) ==> final(self).live()[id].stopping() == (old(self).live()[id].stopping() || delivered) && final(self).live()[id].path() == old(self).live()[id].path(),
    {
        let ghost before = self.live();
        match registry_remove(&mut self.instances, id) {
            Some(mut manager) => {
                let taken = manager.blocking_shutdown(delivered);
                let _ = registry_insert(&mut self.instances, id, manager);
                assert(self.live().dom() =~= before.dom());
                taken
            },
            None => {
                assert(self.live() =~= before);
                false
            },
        }
    }

    /// Takes the instance `id` out once its runtime has ended. Returns it,
    /// or `None` where no such instance was live.
    pub fn finish(&mut self, id: RuntimeId) -> (r: Option<RuntimeManager>)
        ensures
            final(self).live() == old(self).live().remove(id),
            !final(self).live().dom().contains(id),
            r == if old(self).live().dom().contains(id) {
                Some(old(self).live()[id])
            } else {
                None
            },
    {
        registry_remove(&mut self.instances, id)
    }
}

/// Notes the outcome of sending the shutdown signal to the process's
/// instance: `delivered` says whether the channel of its runtime took the
/// signal. Returns whether there is an instance and the signal was
/// delivered to it; the instance is then stopping.
pub fn shutdown(registry: &mut RuntimeRegistry, delivered: bool) -> (r: bool)
    ensures
        r == (old(registry).live().dom().contains(INSTANCE_ID) && delivered),
        final(registry).live().dom() == old(registry).live().dom(),
        forall|other: RuntimeId|
            other != INSTANCE_ID && old(registry).live().dom().contains(other) ==> final(registry).live()[other] == old(registry).live()[other],
        old(registry).live().dom().contains(INSTANCE_ID) ==> final(registry).live()[INSTANCE_ID].stopping() == (old(registry).live()[INSTANCE_ID].stopping()
            || delivered),
{
    registry.shutdown(INSTANCE_ID, delivered)
}

/// Whether the process's instance is live.
pub fn is_running(registry: &RuntimeRegistry) -> (r: bool)
    ensures
        r == registry.live().dom().contains(INSTANCE_ID),
{
    registry.is_running(INSTANCE_ID)
}

/// The catalog with the entries `entries` has a handler for `tag`, or `tag`
/// is the reserved `direct`.
pub open spec fn resolves(entries: Seq<TagEntry>, tag: Seq<char>) -> bool {
    tag == "direct"@ || has_tag(entries, tag)
}

/// The position of the first rule whose target does not resolve.
pub open spec fn first_unresolved(rules: Seq<Rule>, entries: Seq<TagEntry>) -> Option<int>
    decreases rules.len(),
{
    if rules.len() == 0 {
        None
    } else if !resolves(entries, rules[0].target_tag@) {
        Some(0)
    } else {
        match first_unresolved(rules.drop_first(), entries) {
            Some(i) => Some(i + 1),
            None => None,
        }
    }
}

/// The error names the target of the rule at position `i`.
pub open spec fn target_error(e: ConfigError, rules: Seq<Rule>, i: int) -> bool {
    &&& 0 <= i < rules.len()
    &&& e matches ConfigError::UnknownOutboundTag(tag)
    &&& tag@ == rules[i].target_tag@
}

/// Checks that the target of every routing rule resolves in the catalog
/// that was built. The first rule whose target does not is reported.
pub fn check_rule_targets(rules: &Vec<Rule>, manager: &OutboundManager) -> (r: Result<
    (),
    ConfigError,
>)
    requires
        manager.wf(),
    ensures
        match first_unresolved(rules@, manager.entries()) {
            None => r is Ok,
            Some(i) => r matches Err(e) && target_error(e, rules@, i),
        },
{
    let ghost entries = manager.entries();
    let mut i: usize = 0;
    assert(rules@.skip(0) =~= rules@);
    while i < rules.len()
        invariant
            i <= rules.len(),
            manager.wf(),
            entries == manager.entries(),
            first_unresolved(rules@, entries) == match first_unresolved(
                rules@.skip(i as int),
                entries,
            ) {
                Some(k) => Some(k + i),
                None => None,
            },
        decreases rules.len() - i,
    {
        let ghost rest = rules@.skip(i as int);
        assert(rest[0] == rules@[i as int]);
        assert(rest.drop_first() =~= rules@.skip(i + 1));
        let tag = rules[i].target_tag.as_str();
        proof {
            lemma_slot_of(entries, tag@);
        }
        if !tag.eq("direct") && manager.instance_of(tag).is_none() {
            return Err(ConfigError::UnknownOutboundTag(rules[i].target_tag.clone()));
        }
        i += 1;
    }
    Ok(())
}

/// The outbounds of the configuration can be built, and the target of
/// every routing rule resolves in the catalog they give.
pub open spec fn sound(config: config::Config) -> bool {
    &&& build(config.outbounds@) matches Some(c)
    &&& first_unresolved(config.router.rules@, c.entries) is None
}

/// The error is that of the outbounds and rules of the configuration: the
/// first outbound whose settings do not decode or, where the catalog can be
/// built, the first rule whose target does not resolve in it.
pub open spec fn refused(config: config::Config, e: ConfigError) -> bool {
    match build(config.outbounds@) {
        None => ({
            &&& failure(config.outbounds@, 0, Seq::empty(), config.outbounds@.len()) matches Some(k)
            &&& 0 <= k < config.outbounds@.len()
            &&& settings_error(e, config.outbounds@[k])
        }),
        Some(c) => first_unresolved(config.router.rules@, c.entries) matches Some(i)
            && target_error(e, config.router.rules@, i),
    }
}

/// Builds the catalog of the configuration's outbounds and checks the rules
/// against it.
fn build_outbounds(config: &config::Config) -> (r: Result<OutboundManager, ConfigError>)
    ensures
        match r {
            Ok(m) => sound(*config) && m.holds(config.outbounds@),
            Err(e) => !sound(*config) && refused(*config, e),
        },
{
    let manager = OutboundManager::new(&config.outbounds)?;
    match check_rule_targets(&config.router.rules, &manager) {
        Ok(()) => Ok(manager),
        Err(e) => Err(e),
    }
}

/// Checks a decoded configuration without starting anything.
///
/// Every outbound that is built has to have settings that decode, and the
/// target of every routing rule has to resolve in the catalog that the
/// outbounds give. The first outbound that fails is reported; where the
/// catalog can be built, the first rule that fails.
pub fn test_config(config: &config::Config) -> (r: Result<(), Error>)
    ensures
        match r {
            Ok(()) => sound(*config),
            Err(e) => ({
                &&& !sound(*config)
                &&& e matches Error::Config(c)
                &&& refused(*config, c)
            }),
        },
{
    match build_outbounds(config) {
        Ok(_) => Ok(()),
        Err(e) => Err(Error::Config(e)),
    }
}

/// The addresses of the first `k` resolver hosts, host after host.
pub open spec fn host_addresses(hosts: Seq<Host>, k: nat) -> Seq<Seq<char>>
    decreases k,
{
    if k == 0 {
        Seq::empty()
    } else {
        host_addresses(hosts, (k - 1) as nat) + row_view(hosts[k - 1].values@)
    }
}

/// The addresses that must stay reachable past the tun device: the
/// resolver's servers, the addresses of its static hosts, and the networks
/// of the first routing rule where there is one.
pub open spec fn ipset_of(config: config::Config) -> Seq<Seq<char>> {
    row_view(config.dns.servers@) + host_addresses(config.dns.hosts@, config.dns.hosts@.len()) + (
    if config.router.rules@.len() > 0 {
        row_view(config.router.rules@[0].ip_cidrs@)
    } else {
        Seq::empty()
    })
}

/// Appends copies of the strings of `more` to `out`.
fn append_strings(out: &mut Vec<String>, more: &Vec<String>)
    ensures
        row_view(final(out)@) == row_view(old(out)@) + row_view(more@),
{
    let ghost before = row_view(out@);
    let mut i: usize = 0;
    assert(row_view(more@).take(0) =~= Seq::<Seq<char>>::empty());
    while i < more.len()
        invariant
            i <= more.len(),
            row_view(out@) =~= before + row_view(more@).take(i as int),
        decreases more.len() - i,
    {
        let ghost so_far = row_view(out@);
        out.push(more[i].clone());
        assert(row_view(out@) =~= so_far.push(more@[i as int]@));
        assert(row_view(more@).take(i + 1) =~= row_view(more@).take(i as int).push(
            more@[i as int]@,
        ));
        i += 1;
    }
    assert(row_view(more@).take(more@.len() as int) =~= row_view(more@));
}

/// The addresses that must stay reachable past the tun device.
pub fn collect_ipset(config: &config::Config) -> (r: Vec<String>)
    ensures
        row_view(r@) == ipset_of(*config),
{
    let mut out: Vec<String> = Vec::new();
    assert(row_view(out@) =~= Seq::<Seq<char>>::empty());
    append_strings(&mut out, &config.dns.servers);
    let ghost servers = row_view(config.dns.servers@);
    assert(row_view(out@) =~= servers);
    let hosts = &config.dns.hosts;
    let mut k: usize = 0;
    while k < hosts.len()
        invariant
            k <= hosts.len(),
            hosts == &config.dns.hosts,
            row_view(out@) =~= servers + host_addresses(hosts@, k as nat),
        decreases hosts.len() - k,
    {
        append_strings(&mut out, &hosts[k].values);
        k += 1;
    }
    if config.router.rules.len() > 0 {
        append_strings(&mut out, &config.router.rules[0].ip_cidrs);
    }
    assert(row_view(out@) =~= ipset_of(*config));
    out
}

/// What a started instance runs with.
pub struct Instance {
    pub outbound_manager: OutboundManager,
    pub inbound_manager: InboundManager,
    /// The addresses that must stay reachable past the tun device.
    pub ipset: Vec<String>,
}

/// Starts the process's instance from a decoded configuration.
///
/// Refused while the instance is live, and where the outbounds, the
/// routing rules or the inbounds of the configuration are refused, in this
/// order; the registry then stays as it was. Otherwise the catalog of
/// outbound handlers and the listeners are built, and the instance is
/// entered in the registry as running.
pub fn start(
    registry: &mut RuntimeRegistry,
    config_path: Option<String>,
    config: &config::Config,
    platform: Platform,
) -> (r: Result<Instance, Error>)
    ensures
        match r {
            Ok(instance) => ({
                &&& !old(registry).live().dom().contains(INSTANCE_ID)
                &&& final(registry).live().dom() == old(registry).live().dom().insert(INSTANCE_ID)
                &&& forall|id: RuntimeId|
                    old(registry).live().dom().contains(id) ==> final(registry).live()[id] == old(
                        registry,
                    ).live()[id]
                &&& !final(registry).live()[INSTANCE_ID].stopping()
                &&& final(registry).live()[INSTANCE_ID].path() == match config_path {
                    Some(p) => Some(p@),
                    None => None,
                }
                &&& sound(*config)
                &&& instance.outbound_manager.holds(config.outbounds@)
                &&& instance.inbound_manager.holds(config.inbounds@, platform)
                &&& row_view(instance.ipset@) == ipset_of(*config)
            }),
            Err(e) => ({
                &&& final(registry).live() == old(registry).live()
                &&& e matches Error::Config(c)
                &&& if old(registry).live().dom().contains(INSTANCE_ID) {
                    c == ConfigError::AlreadyRunning(INSTANCE_ID)
                } else if !sound(*config) {
                    refused(*config, c)
                } else {
                    &&& tun_failure(config.inbounds@, platform, config.inbounds@.len())
                        matches Some(i)
                    &&& 0 <= i < config.inbounds@.len()
                    &&& crate::inbound::settings_error(c, config.inbounds@[i])
                }
            }),
        },
{
    if registry.is_running(INSTANCE_ID) {
        return Err(Error::Config(ConfigError::AlreadyRunning(INSTANCE_ID)));
    }
    let outbound_manager = match build_outbounds(config) {
        Ok(m) => m,
        Err(e) => {
            return Err(Error::Config(e));
        },
    };
    let inbound_manager = match InboundManager::new(&config.inbounds, platform) {
        Ok(m) => m,
        Err(e) => {
            return Err(Error::Config(e));
        },
    };
    let ipset = collect_ipset(config);
    let manager = RuntimeManager::new(config_path);
    let ghost before = registry.live();
    match registry.start(INSTANCE_ID, manager) {
        Ok(()) => {
            assert(registry.live().dom() =~= before.dom().insert(INSTANCE_ID));
            Ok(Instance { outbound_manager, inbound_manager, ipset })
        },
        Err(e) => Err(e),
    }
}

/// The text of a version: the version alone where neither the commit nor
/// its date is known, the version followed by both in brackets where both
/// are, and `unknown` in every other case.
pub open spec fn version_text(
    version: Option<Seq<char>>,
    hash: Option<Seq<char>>,
    date: Option<Seq<char>>,
) -> Seq<char> {
    match (version, hash, date) {
        (Some(ver), None, None) => ver,
        (Some(ver), Some(hash), Some(date)) => ver + " ("@ + hash + " - "@ + date + ")"@,
        _ => "unknown"@,
    }
}

/// The view of an optional string.
pub open spec fn text_of(s: Option<&str>) -> Option<Seq<char>> {
    match s {
        Some(s) => Some(s@),
        None => None,
    }
}

/// The version that is printed, from what the build knows of itself.
pub fn get_version_string(version: Option<&str>, hash: Option<&str>, date: Option<&str>) -> (r:
    String)
    ensures
        r@ == version_text(text_of(version), text_of(hash), text_of(date)),
{
    match (version, hash, date) {
        (Some(ver), None, None) => ver.to_owned(),
        (Some(ver), Some(hash), Some(date)) => {
            let mut text = ver.to_owned();
            text.append(" (");
            text.append(hash);
            text.append(" - ");
            text.append(date);
            text.append(")");
            text
        },
        _ => "unknown".to_owned(),
    }
}

impl ConfigError {
    /// What the error says.
    pub open spec fn text(self) -> Seq<char> {
        match self {
            ConfigError::InvalidOutboundSettings(tag, why) => "invalid ["@ + tag@
                + "] outbound settings: "@ + why@,
            ConfigError::InvalidInboundSettings(_, why) => why@,
            ConfigError::UnknownOutboundTag(tag) => "unknown outbound tag ["@ + tag@ + "]"@,
            ConfigError::AlreadyRunning(_) => "an instance is already running"@,
            ConfigError::Invalid(why) => why@,
        }
    }

    /// What the error says, for a person to read.
    pub fn message(&self) -> (r: String)
        ensures
            r@ == self.text(),
    {
        match self {
            ConfigError::InvalidOutboundSettings(tag, why) => "invalid [".to_owned().concat(
                tag.as_str(),
            ).concat("] outbound settings: ").concat(why.as_str()),
            ConfigError::InvalidInboundSettings(_, why) => why.clone(),
            ConfigError::UnknownOutboundTag(tag) => "unknown outbound tag [".to_owned().concat(
                tag.as_str(),
            ).concat("]"),
            ConfigError::AlreadyRunning(_) => "an instance is already running".to_owned(),
            ConfigError::Invalid(why) => why.clone(),
        }
    }
}

impl Error {
    /// What the error says.
    pub open spec fn text(self) -> Seq<char> {
        match self {
            Error::Config(e) => e.text(),
            Error::NoConfigFile => "no associated config file"@,
            Error::Io(what) => what@,
            Error::AsyncChannelSend => "sending on a closed channel"@,
            Error::SyncChannelRecv => "receiving on a closed channel"@,
            Error::RuntimeManager => "runtime manager error"@,
        }
    }

    /// What the error says, for a person to read.
    pub fn message(&self) -> (r: String)
        ensures
            r@ == self.text(),
    {
        match self {
            Error::Config(e) => e.message(),
            Error::NoConfigFile => "no associated config file".to_owned(),
            Error::Io(what) => what.clone(),
            Error::AsyncChannelSend => "sending on a closed channel".to_owned(),
            Error::SyncChannelRecv => "receiving on a closed channel".to_owned(),
            Error::RuntimeManager => "runtime manager error".to_owned(),
        }
    }
}

} // verus!
