//! The outbound handler catalog.
//!
//! A catalog maps each outbound tag to a handler instance, in the order in
//! which the tags were inserted. Outbounds that are configured with the same
//! protocol and the same settings blob share one instance: the catalog keeps
//! its instances in a pool, and the tag map stores, for each tag, the slot of
//! its instance in that pool.

use crate::config::Outbound;
use crate::tagmap::distinct_tags;
use crate::tagmap::has_tag;
use crate::tagmap::lemma_slot_of;
use crate::tagmap::lemma_slot_of_entry;
use crate::tagmap::put;
use crate::tagmap::slot_of;
use crate::tagmap::tag_entries;
use crate::tagmap::tag_map_get;
use crate::tagmap::tag_map_insert;
use crate::tagmap::tag_map_len;
use crate::tagmap::tag_map_new;
use crate::tagmap::tag_map_put;
use crate::tagmap::tag_map_slot_at;
use crate::tagmap::TagEntry;
use crate::text::same_bytes;
use crate::tls::make_config;
use crate::ConfigError;
use indexmap::IndexMap;
use std::sync::Arc;
use tokio_rustls::rustls::ClientConfig;
use vstd::prelude::*;

verus! {

/// How a handler reaches the remote side.
pub enum Transport {
    /// Dials the destination itself through the operating system.
    Direct,
    /// Dials a trojan relay over TLS.
    Trojan {
        address: String,
        port: u16,
        password: String,
        server_name: String,
        tls_config: Arc<ClientConfig>,
    },
}

/// A built outbound handler.
pub struct OutboundHandler {
    /// The tag of the outbound the handler was built for.
    pub tag: String,
    pub transport: Transport,
    /// Whether the handler dials streams.
    pub stream: bool,
    /// Whether the handler dials datagram endpoints.
    pub datagram: bool,
}

/// The protocol names a handler can be built for.
pub open spec fn supported(o: Outbound) -> bool {
    o.protocol@ == "direct"@ || o.protocol@ == "trojan"@
}

/// A trojan outbound whose settings blob does not decode.
pub open spec fn undecodable(o: Outbound) -> bool {
    o.protocol@ == "trojan"@ && o.trojan is Err
}

/// The error says that the settings of `o` do not decode, and why.
pub open spec fn settings_error(e: ConfigError, o: Outbound) -> bool {
    &&& e matches ConfigError::InvalidOutboundSettings(tag, why)
    &&& tag@ == o.tag@
    &&& o.trojan matches Err(reason)
    &&& why@ == reason@
}

/// Two outbounds are built the same way: same protocol, same settings blob.
pub open spec fn same_recipe(a: Outbound, b: Outbound) -> bool {
    a.protocol@ == b.protocol@ && a.settings@ == b.settings@
}

/// `h` is the handler built for `o`.
pub open spec fn built_for(h: OutboundHandler, o: Outbound) -> bool {
    &&& h.tag@ == o.tag@
    &&& h.stream
    &&& h.datagram
    &&& if o.protocol@ == "trojan"@ {
        &&& o.trojan matches Ok(t)
        &&& h.transport matches Transport::Trojan { address, port, password, server_name, .. }
        &&& address@ == t.address@
        &&& port == t.port % 0x10000
        &&& password@ == t.password@
        &&& server_name@ == t.server_name@
    } else {
        h.transport is Direct
    }
}

/// What one pass over the configured outbounds has produced so far: the tag
/// map's entries, and for each instance built during the pass the position
/// of the outbound it was built from. The instance built from `fresh[j]`
/// sits in slot `base + j`, where `base` is the size of the pool when the
/// pass began.
pub struct Catalog {
    pub entries: Seq<TagEntry>,
    pub fresh: Seq<usize>,
}

/// The first instance built during the pass, at or after position `from` of
/// `fresh`, whose outbound is built the same way as `o`.
pub open spec fn cached(outs: Seq<Outbound>, fresh: Seq<usize>, from: int, o: Outbound) -> Option<int>
    decreases fresh.len() - from,
{
    if from < 0 || from >= fresh.len() {
        None
    } else if same_recipe(outs[fresh[from] as int], o) {
        Some(from)
    } else {
        cached(outs, fresh, from + 1, o)
    }
}

/// What a pass does with one outbound.
pub enum Step {
    /// Nothing: the tag is taken, or the protocol is unknown.
    Skip,
    /// The tag is inserted for the instance at this position of `fresh`.
    Share(int),
    /// A new instance is built and the tag inserted for it.
    Build,
    /// The pass stops: the settings do not decode.
    Fail,
}

/// The step a pass in state `c` takes for `outs[k]`.
pub open spec fn decide(outs: Seq<Outbound>, c: Catalog, k: int) -> Step {
    let o = outs[k];
    if has_tag(c.entries, o.tag@) {
        Step::Skip
    } else if let Some(j) = cached(outs, c.fresh, 0, o) {
        Step::Share(j)
    } else if !supported(o) {
        Step::Skip
    } else if undecodable(o) {
        Step::Fail
    } else {
        Step::Build
    }
}

/// The state of a pass after it has taken a step other than `Fail` for `outs[k]`.
pub open spec fn advance(outs: Seq<Outbound>, base: nat, c: Catalog, k: int) -> Catalog {
    match decide(outs, c, k) {
        Step::Share(j) => Catalog {
            entries: c.entries.push((outs[k].tag@, (base + j) as usize)),
            fresh: c.fresh,
        },
        Step::Build => Catalog {
            entries: c.entries.push((outs[k].tag@, (base + c.fresh.len()) as usize)),
            fresh: c.fresh.push(k as usize),
        },
        _ => c,
    }
}

/// The state of a pass that began with the tag entries `start` and a pool of
/// `base` instances, after the first `k` outbounds; `None` once it has failed.
pub open spec fn after_pass(outs: Seq<Outbound>, base: nat, start: Seq<TagEntry>, k: nat) -> Option<
    Catalog,
>
    decreases k,
{
    if k == 0 {
        Some(Catalog { entries: start, fresh: Seq::empty() })
    } else {
        match after_pass(outs, base, start, (k - 1) as nat) {
            None => None,
            Some(c) => if decide(outs, c, k - 1) is Fail {
                None
            } else {
                Some(advance(outs, base, c, k - 1))
            },
        }
    }
}

/// The catalog that the configured outbounds `outs` give: one pass over all
/// of them, starting from nothing. `None` where some outbound that has to be
/// built has settings that do not decode.
pub open spec fn build(outs: Seq<Outbound>) -> Option<Catalog> {
    after_pass(outs, 0, Seq::empty(), outs.len())
}

/// The position of the outbound at which a pass fails, if it fails within
/// the first `k` outbounds.
pub open spec fn failure(outs: Seq<Outbound>, base: nat, start: Seq<TagEntry>, k: nat) -> Option<int>
    decreases k,
{
    if k == 0 {
        None
    } else {
        match after_pass(outs, base, start, (k - 1) as nat) {
            None => failure(outs, base, start, (k - 1) as nat),
            Some(c) => if decide(outs, c, k - 1) is Fail {
                Some(k - 1)
            } else {
                None
            },
        }
    }
}

/// The view of an optional tag.
pub open spec fn tag_view(t: Option<String>) -> Option<Seq<char>> {
    match t {
        Some(t) => Some(t@),
        None => None,
    }
}

/// What holds of every catalog: no tag occurs twice, every tag's slot lies in
/// the pool, and the default tag is the tag that was inserted first.
pub open spec fn well_formed(entries: Seq<TagEntry>, pool: nat, default: Option<Seq<char>>) -> bool {
    &&& distinct_tags(entries)
    &&& forall|i: int| 0 <= i < entries.len() ==> (#[trigger] entries[i]).1 < pool
    &&& default == if entries.len() > 0 {
        Some(entries[0].0)
    } else {
        None
    }
}

/// Appending an entry with an unused tag and a slot inside a pool that may
/// have grown keeps a catalog well formed.
proof fn lemma_push_entry(
    entries: Seq<TagEntry>,
    pool: nat,
    default: Option<Seq<char>>,
    tag: Seq<char>,
    slot: usize,
    grown: nat,
)
    requires
        well_formed(entries, pool, default),
        !has_tag(entries, tag),
        pool <= grown,
        slot < grown,
    ensures
        well_formed(
            entries.push((tag, slot)),
            grown,
            if entries.len() > 0 {
                default
            } else {
                Some(tag)
            },
        ),
{
    let next = entries.push((tag, slot));
    assert forall|i: int, j: int| 0 <= i < j < next.len() implies (#[trigger] next[i]).0 != (
    #[trigger] next[j]).0 by {
        if j < entries.len() {
            assert(next[i] == entries[i]);
            assert(next[j] == entries[j]);
        } else {
            assert(next[i] == entries[i]);
        }
    }
    assert forall|i: int| 0 <= i < next.len() implies (#[trigger] next[i]).1 < grown by {
        if i < entries.len() {
            assert(next[i] == entries[i]);
        }
    }
}

/// The two protocol names differ.
proof fn lemma_protocol_names()
    ensures
        "direct"@ != "trojan"@,
{
    reveal_strlit("direct");
    reveal_strlit("trojan");
    assert("direct"@[0] == 'd');
    assert("trojan"@[0] == 't');
}

/// Looks among the instances built during this pass for one whose outbound is
/// built the same way as `outbounds[k]`.
fn find_cached(outbounds: &Vec<Outbound>, sources: &Vec<usize>, k: usize) -> (r: Option<usize>)
    requires
        k < outbounds.len(),
        forall|j: int| 0 <= j < sources.len() ==> sources[j] < outbounds.len(),
    ensures
        match r {
            Some(j) => j < sources.len() && cached(outbounds@, sources@, 0, outbounds@[k as int])
                == Some(j as int),
            None => cached(outbounds@, sources@, 0, outbounds@[k as int]) is None,
        },
{
    let o = &outbounds[k];
    let mut j: usize = 0;
    while j < sources.len()
        invariant
            j <= sources.len(),
            k < outbounds.len(),
            *o == outbounds@[k as int],
            forall|i: int| 0 <= i < sources.len() ==> sources[i] < outbounds.len(),
            cached(outbounds@, sources@, 0, *o) == cached(outbounds@, sources@, j as int, *o),
        decreases sources.len() - j,
    {
        let e = &outbounds[sources[j]];
        if e.protocol == o.protocol && same_bytes(&e.settings, &o.settings) {
            return Some(j);
        }
        j += 1;
    }
    None
}

/// Builds the handler of an outbound whose protocol is supported.
fn build_handler(o: &Outbound) -> (r: Result<OutboundHandler, ConfigError>)
    requires
        supported(*o),
    ensures
        match r {
            Ok(h) => !undecodable(*o) && built_for(h, *o),
            Err(e) => undecodable(*o) && settings_error(e, *o),
        },
{
    proof {
        lemma_protocol_names();
    }
    if o.protocol.as_str().eq("trojan") {
        match &o.trojan {
            Err(why) => Err(ConfigError::InvalidOutboundSettings(o.tag.clone(), why.clone())),
            Ok(settings) => {
                let tls_config = make_config(settings);
                Ok(
                    OutboundHandler {
                        tag: o.tag.clone(),
                        transport: Transport::Trojan {
                            address: settings.address.clone(),
                            port: (settings.port % 0x10000) as u16,
                            password: settings.password.clone(),
                            server_name: settings.server_name.clone(),
                            tls_config,
                        },
                        stream: true,
                        datagram: true,
                    },
                )
            },
        }
    } else {
        Ok(
            OutboundHandler {
                tag: o.tag.clone(),
                transport: Transport::Direct,
                stream: true,
                datagram: true,
            },
        )
    }
}

/// One pass over the configured outbounds.
///
/// An outbound whose tag is already in the map is left alone. Otherwise, if
/// an instance built earlier in this pass has the same protocol and settings
/// blob, the tag is inserted for that instance; if not, and the protocol is
/// known, a new instance is built and the tag inserted for it. The pass
/// stops with an error at the first outbound that has to be built and whose
/// settings do not decode; what the map held and what the pass had inserted
/// until then stays, each tag in its place.
fn load_handlers(
    outbounds: &Vec<Outbound>,
    handlers: &mut IndexMap<String, usize>,
    instances: &mut Vec<OutboundHandler>,
    default_handler: &mut Option<String>,
) -> (r: Result<(), ConfigError>)
    requires
        well_formed(
            tag_entries(*old(handlers)),
            old(instances)@.len(),
            tag_view(*old(default_handler)),
        ),
    ensures
        well_formed(
            tag_entries(*final(handlers)),
            final(instances)@.len(),
            tag_view(*final(default_handler)),
        ),
        old(instances)@.len() <= final(instances)@.len(),
        forall|i: int| 0 <= i < old(instances)@.len() ==> final(instances)@[i] == old(instances)@[i],
        tag_entries(*old(handlers)).len() <= tag_entries(*final(handlers)).len(),
        tag_entries(*final(handlers)).take(tag_entries(*old(handlers)).len() as int) == tag_entries(
            *old(handlers),
        ),
        match r {
            Ok(()) => ({
                &&& after_pass(
                    outbounds@,
                    old(instances)@.len(),
                    tag_entries(*old(handlers)),
                    outbounds@.len(),
                ) matches Some(c)
                &&& tag_entries(*final(handlers)) == c.entries
                &&& final(instances)@.len() == old(instances)@.len() + c.fresh.len()
                &&& forall|s: int|
                    old(instances)@.len() <= s < final(instances)@.len() ==> built_for(
                        #[trigger] final(instances)@[s],
                        outbounds@[c.fresh[s - old(instances)@.len()] as int],
                    )
            }),
            Err(e) => ({
                &&& failure(
                    outbounds@,
                    old(instances)@.len(),
                    tag_entries(*old(handlers)),
                    outbounds@.len(),
                ) matches Some(k)
                &&& 0 <= k < outbounds@.len()
                &&& settings_error(e, outbounds@[k])
                &&& after_pass(
                    outbounds@,
                    old(instances)@.len(),
                    tag_entries(*old(handlers)),
                    k as nat,
                ) matches Some(c)
                &&& tag_entries(*final(handlers)) == c.entries
                &&& final(instances)@.len() == old(instances)@.len() + c.fresh.len()
                &&& forall|s: int|
                    old(instances)@.len() <= s < final(instances)@.len() ==> built_for(
                        #[trigger] final(instances)@[s],
                        outbounds@[c.fresh[s - old(instances)@.len()] as int],
                    )
            }),
        },
{
    let ghost outs = outbounds@;
    let ghost start = tag_entries(*handlers);
    let ghost old_pool = instances@;
    let ghost base = instances@.len();
    let ghost mut c = Catalog { entries: start, fresh: Seq::empty() };
    let mut sources: Vec<usize> = Vec::new();
    let mut k: usize = 0;
    while k < outbounds.len()
        invariant
            k <= outbounds.len(),
            outs == outbounds@,
            old_pool == old(instances)@,
            start == tag_entries(*old(handlers)),
            base == old_pool.len(),
            after_pass(outs, base, start, k as nat) == Some(c),
            failure(outs, base, start, k as nat) is None,
            tag_entries(*handlers) == c.entries,
            sources@ == c.fresh,
            instances@.len() == base + c.fresh.len(),
            forall|i: int| 0 <= i < base ==> instances@[i] == old_pool[i],
            forall|j: int| 0 <= j < c.fresh.len() ==> c.fresh[j] < k,
            forall|s: int|
                base <= s < instances@.len() ==> built_for(
                    #[trigger] instances@[s],
                    outs[c.fresh[s - base] as int],
                ),
            well_formed(tag_entries(*handlers), instances@.len(), tag_view(*default_handler)),
        decreases outbounds.len() - k,
    {
        let o = &outbounds[k];
        let ghost entries = c.entries;
        let present = tag_map_get(handlers, o.tag.as_str());
        if present.is_none() {
            let hit = find_cached(outbounds, &sources, k);
            let slot: Option<usize> = match hit {
                Some(j) => Some(instances.len() - (sources.len() - j)),
                None => {
                    if o.protocol.as_str().eq("direct") || o.protocol.as_str().eq("trojan") {
                        match build_handler(o) {
                            Err(e) => {
                                assert(decide(outs, c, k as int) is Fail);
                                assert(failure(outs, base, start, (k + 1) as nat) == Some(k as int));
                                proof {
                                    lemma_pass_keeps(outs, base, start, k as nat);
                                    lemma_failure_stays(
                                        outs,
                                        base,
                                        start,
                                        (k + 1) as nat,
                                        outs.len(),
                                    );
                                }
                                return Err(e);
                            },
                            Ok(h) => {
                                let at = instances.len();
                                instances.push(h);
                                sources.push(k);
                                Some(at)
                            },
                        }
                    } else {
                        None
                    }
                },
            };
            proof {
                c = advance(outs, base, c, k as int);
            }
            if let Some(slot) = slot {
                let first = default_handler.is_none();
                let prev = tag_map_insert(handlers, o.tag.clone(), slot);
                if first {
                    *default_handler = Some(o.tag.clone());
                }
                proof {
                    assert(prev is None) by {
                        if let Some(p) = prev {
                            let i = choose|i: int|
                                0 <= i < entries.len() && entries[i] == (o.tag@, p);
                            assert(entries[i].0 == o.tag@);
                        }
                    }
                    lemma_push_entry(
                        entries,
                        (instances@.len() - (if hit is None {
                            1int
                        } else {
                            0int
                        })) as nat,
                        if entries.len() > 0 {
                            Some(entries[0].0)
                        } else {
                            None
                        },
                        o.tag@,
                        slot,
                        instances@.len(),
                    );
                }
            }
        } else {
            proof {
                let p = present->0;
                let i = choose|i: int| 0 <= i < entries.len() && entries[i] == (o.tag@, p);
                assert(entries[i].0 == o.tag@);
            }
        }
        k += 1;
    }
    proof {
        lemma_pass_keeps(outs, base, start, outs.len());
    }
    Ok(())
}

/// A pass keeps the entries it began with, in their places, and adds its
/// own after them.
pub proof fn lemma_pass_keeps(outs: Seq<Outbound>, base: nat, start: Seq<TagEntry>, k: nat)
    requires
        after_pass(outs, base, start, k) is Some,
    ensures
        start.len() <= after_pass(outs, base, start, k)->0.entries.len(),
        after_pass(outs, base, start, k)->0.entries.take(start.len() as int) == start,
    decreases k,
{
    let c = after_pass(outs, base, start, k)->0;
    if k == 0 {
        assert(c.entries.take(start.len() as int) =~= start);
    } else {
        let b = after_pass(outs, base, start, (k - 1) as nat)->0;
        lemma_pass_keeps(outs, base, start, (k - 1) as nat);
        assert(c == advance(outs, base, b, k - 1));
        assert(c.entries.take(start.len() as int) =~= b.entries.take(start.len() as int));
    }
}

/// Once a pass has failed it stays failed, at the same outbound.
proof fn lemma_failure_stays(outs: Seq<Outbound>, base: nat, start: Seq<TagEntry>, k: nat, n: nat)
    requires
        k <= n,
        failure(outs, base, start, k) is Some,
    ensures
        failure(outs, base, start, n) == failure(outs, base, start, k),
        after_pass(outs, base, start, n) is None,
        after_pass(outs, base, start, k) is None,
    decreases n,
{
    lemma_failure_means_none(outs, base, start, k);
    if n > k {
        lemma_failure_stays(outs, base, start, k, (n - 1) as nat);
    }
}

/// A pass has failed within its first `k` outbounds exactly when it has no state there.
proof fn lemma_failure_means_none(outs: Seq<Outbound>, base: nat, start: Seq<TagEntry>, k: nat)
    ensures
        failure(outs, base, start, k) is Some <==> after_pass(outs, base, start, k) is None,
        failure(outs, base, start, k) matches Some(i) ==> 0 <= i < k,
    decreases k,
{
    if k > 0 {
        lemma_failure_means_none(outs, base, start, (k - 1) as nat);
    }
}

/// After a pass that did not fail, every outbound with a known protocol has
/// its tag in the map.
proof fn lemma_pass_covers(outs: Seq<Outbound>, base: nat, start: Seq<TagEntry>, k: nat)
    requires
        after_pass(outs, base, start, k) is Some,
    ensures
        forall|i: int|
            0 <= i < k ==> has_tag(after_pass(outs, base, start, k)->0.entries, outs[i].tag@)
                || !supported(#[trigger] outs[i]),
    decreases k,
{
    if k > 0 {
        let before = after_pass(outs, base, start, (k - 1) as nat)->0;
        let after = after_pass(outs, base, start, k)->0;
        lemma_pass_covers(outs, base, start, (k - 1) as nat);
        assert(after == advance(outs, base, before, k - 1));
        assert forall|i: int| 0 <= i < k implies has_tag(after.entries, outs[i].tag@) || !supported(
            #[trigger] outs[i],
        ) by {
            if has_tag(before.entries, outs[i].tag@) {
                let w = choose|w: int|
                    0 <= w < before.entries.len() && (#[trigger] before.entries[w]).0
                        == outs[i].tag@;
                assert(after.entries[w] == before.entries[w]);
            } else if i == k - 1 && supported(outs[i]) {
                lemma_cached_found(outs, before.fresh, 0, outs[i]);
                assert(after.entries[before.entries.len() as int].0 == outs[i].tag@);
            } else if i == k - 1 {
            }
        }
    }
}

/// What `cached` finds is a position of `fresh` whose outbound is built the
/// same way; it finds nothing only where no position is.
proof fn lemma_cached_found(outs: Seq<Outbound>, fresh: Seq<usize>, from: int, o: Outbound)
    requires
        0 <= from,
    ensures
        match cached(outs, fresh, from, o) {
            Some(j) => from <= j < fresh.len() && same_recipe(outs[fresh[j] as int], o),
            None => forall|j: int|
                from <= j < fresh.len() ==> !same_recipe(outs[#[trigger] fresh[j] as int], o),
        },
    decreases fresh.len() - from,
{
    if from < fresh.len() && !same_recipe(outs[fresh[from] as int], o) {
        lemma_cached_found(outs, fresh, from + 1, o);
    }
}

/// A pass over a map in which every outbound with a known protocol already
/// has its tag changes nothing.
proof fn lemma_pass_again(outs: Seq<Outbound>, base: nat, entries: Seq<TagEntry>, k: nat)
    requires
        k <= outs.len(),
        forall|i: int|
            0 <= i < outs.len() ==> has_tag(entries, outs[i].tag@) || !supported(#[trigger] outs[i]),
    ensures
        after_pass(outs, base, entries, k) == Some(Catalog { entries, fresh: Seq::empty() }),
    decreases k,
{
    if k > 0 {
        lemma_pass_again(outs, base, entries, (k - 1) as nat);
        let c = Catalog { entries, fresh: Seq::<usize>::empty() };
        assert(has_tag(entries, outs[k - 1].tag@) || !supported(outs[k - 1]));
        assert(cached(outs, c.fresh, 0, outs[k - 1]) is None);
        assert(decide(outs, c, k - 1) is Skip);
    }
}

/// The catalog of outbound handlers.
pub struct OutboundManager {
    handlers: IndexMap<String, usize>,
    instances: Vec<OutboundHandler>,
    default_handler: Option<String>,
}

impl OutboundManager {
    /// The manager holds the catalog that the configured outbounds `outs` give.
    pub open spec fn holds(&self, outs: Seq<Outbound>) -> bool {
        &&& self.wf()
        &&& build(outs) matches Some(c)
        &&& self.entries() == c.entries
        &&& self.pool().len() == c.fresh.len()
        &&& forall|j: int|
            0 <= j < c.fresh.len() ==> built_for(#[trigger] self.pool()[j], outs[c.fresh[j] as int])
    }

    /// The tags of the catalog with the slots of their instances, in insertion order.
    pub closed spec fn entries(&self) -> Seq<TagEntry> {
        tag_entries(self.handlers)
    }

    /// The handler instances, by slot.
    pub closed spec fn pool(&self) -> Seq<OutboundHandler> {
        self.instances@
    }

    /// The default tag.
    pub closed spec fn default_tag(&self) -> Option<Seq<char>> {
        tag_view(self.default_handler)
    }

    /// The catalog's invariant.
    pub open spec fn wf(&self) -> bool {
        well_formed(self.entries(), self.pool().len(), self.default_tag())
    }

    /// Builds the catalog of the configured outbounds.
    ///
    /// Handlers are built in passes over the whole list, four at most, until
    /// a pass inserts nothing; the result is the catalog `build` describes.
    /// Fails where an outbound that has to be built has settings that do not
    /// decode, naming the first such outbound.
    pub fn new(outbounds: &Vec<Outbound>) -> (r: Result<Self, ConfigError>)
        ensures
            match r {
                Ok(m) => m.holds(outbounds@),
                Err(e) => ({
                    &&& build(outbounds@) is None
                    &&& failure(outbounds@, 0, Seq::empty(), outbounds@.len()) matches Some(k)
                    &&& 0 <= k < outbounds@.len()
                    &&& settings_error(e, outbounds@[k])
                }),
            },
    {
        let mut handlers = tag_map_new();
        let mut instances: Vec<OutboundHandler> = Vec::new();
        let mut default_handler: Option<String> = None;
        let ghost outs = outbounds@;
        let mut pass: usize = 0;
        while pass < 4
            invariant
                pass <= 4,
                outs == outbounds@,
                well_formed(tag_entries(handlers), instances@.len(), tag_view(default_handler)),
                pass == 0 ==> tag_entries(handlers) == Seq::<TagEntry>::empty() && instances@.len()
                    == 0,
                pass > 0 ==> ({
                    &&& build(outs) matches Some(c)
                    &&& tag_entries(handlers) == c.entries
                    &&& instances@.len() == c.fresh.len()
                    &&& forall|j: int|
                        0 <= j < c.fresh.len() ==> built_for(
                            #[trigger] instances@[j],
                            outs[c.fresh[j] as int],
                        )
                }),
            decreases 4 - pass,
        {
            let ghost before = tag_entries(handlers);
            let ghost base = instances@.len();
            proof {
                if pass > 0 {
                    lemma_pass_covers(outs, 0, Seq::empty(), outs.len());
                    lemma_pass_again(outs, base, before, outs.len());
                    lemma_failure_means_none(outs, base, before, outs.len());
                }
            }
            match load_handlers(outbounds, &mut handlers, &mut instances, &mut default_handler) {
                Err(e) => {
                    proof {
                        lemma_failure_means_none(outs, base, before, outs.len());
                    }
                    return Err(e);
                },
                Ok(()) => {},
            }
            pass += 1;
        }
        Ok(OutboundManager { handlers, instances, default_handler })
    }

    /// Inserts `handler` under `tag`. A tag that is present keeps its place
    /// in the order and from now on names the new handler.
    pub fn add(&mut self, tag: String, handler: OutboundHandler)
        requires
            old(self).wf(),
        ensures
            final(self).wf(),
            final(self).pool() == old(self).pool().push(handler),
            final(self).entries() == put(old(self).entries(), tag@, old(self).pool().len() as usize),
            slot_of(final(self).entries(), tag@) matches Some(s) && s == old(self).pool().len()
                && final(self).pool()[s as int] == handler,
            forall|other: Seq<char>|
                other != tag@ ==> slot_of(final(self).entries(), other) == slot_of(
                    old(self).entries(),
                    other,
                ),
    {
        proof {
            crate::tagmap::lemma_put(
                old(self).entries(),
                tag@,
                self.instances.len(),
                (self.instances.len() + 1) as nat,
            );
        }
        let slot = self.instances.len();
        self.instances.push(handler);
        if self.default_handler.is_none() {
            self.default_handler = Some(tag.clone());
        }
        tag_map_put(&mut self.handlers, tag, slot, Ghost((slot + 1) as nat));
    }

    /// The slot of the instance that `tag` names.
    pub fn instance_of(&self, tag: &str) -> (r: Option<usize>)
        requires
            self.wf(),
        ensures
            r == slot_of(self.entries(), tag@),
            r matches Some(slot) ==> slot < self.pool().len(),
    {
        let r = tag_map_get(&self.handlers, tag);
        proof {
            let entries = self.entries();
            lemma_slot_of(entries, tag@);
            if let Some(slot) = r {
                let i = choose|i: int| 0 <= i < entries.len() && entries[i] == (tag@, slot);
                lemma_slot_of_entry(entries, i);
            }
        }
        r
    }

    /// The handler that `tag` names.
    pub fn get(&self, tag: &str) -> (r: Option<&OutboundHandler>)
        requires
            self.wf(),
        ensures
            match slot_of(self.entries(), tag@) {
                Some(slot) => slot < self.pool().len() && r == Some(&self.pool()[slot as int]),
                None => r is None,
            },
    {
        match self.instance_of(tag) {
            Some(slot) => Some(&self.instances[slot]),
            None => None,
        }
    }

    /// The default tag: the one that was inserted first.
    pub fn default_handler(&self) -> (r: Option<String>)
        requires
            self.wf(),
        ensures
            tag_view(r) == self.default_tag(),
            tag_view(r) == if self.entries().len() > 0 {
                Some(self.entries()[0].0)
            } else {
                None
            },
    {
        match &self.default_handler {
            Some(tag) => Some(tag.clone()),
            None => None,
        }
    }

    /// The handlers of all tags, in insertion order.
    pub fn handlers(&self) -> (r: Vec<&OutboundHandler>)
        requires
            self.wf(),
        ensures
            r@.len() == self.entries().len(),
            forall|i: int|
                0 <= i < r@.len() ==> (#[trigger] self.entries()[i]).1 < self.pool().len() && *r@[i]
                    == self.pool()[self.entries()[i].1 as int],
    {
        let n = tag_map_len(&self.handlers);
        let mut out: Vec<&OutboundHandler> = Vec::new();
        let mut i: usize = 0;
        while i < n
            invariant
                i <= n,
                n == self.entries().len(),
                self.wf(),
                out@.len() == i,
                forall|j: int|
                    0 <= j < i ==> (#[trigger] self.entries()[j]).1 < self.pool().len() && *out@[j]
                        == self.pool()[self.entries()[j].1 as int],
            decreases n - i,
        {
            match tag_map_slot_at(&self.handlers, i) {
                Some(slot) => {
                    assert(self.entries()[i as int].1 == slot);
                    out.push(&self.instances[slot]);
                },
                None => {},
            }
            i += 1;
        }
        out
    }
}

/// The outbound at position `k` enters the catalog: its protocol is known and
/// no earlier outbound with a known protocol has its tag.
pub open spec fn accepted(outs: Seq<Outbound>, k: int) -> bool {
    &&& supported(outs[k])
    &&& forall|j: int| 0 <= j < k && supported(#[trigger] outs[j]) ==> outs[j].tag@ != outs[k].tag@
}

/// The protocol and settings blob an outbound is built from.
pub open spec fn recipe(o: Outbound) -> (Seq<char>, Seq<u8>) {
    (o.protocol@, o.settings@)
}

/// The distinct pairs of protocol and settings blob among `outs`.
pub open spec fn recipes(outs: Seq<Outbound>) -> Set<(Seq<char>, Seq<u8>)> {
    Set::new(|r: (Seq<char>, Seq<u8>)| exists|k: int| 0 <= k < outs.len() && recipe(#[trigger] outs[k]) == r)
}

/// Some outbound with a known protocol among the first `k` carries `tag`.
spec fn tag_source(outs: Seq<Outbound>, k: nat, tag: Seq<char>) -> bool {
    exists|j: int| 0 <= j < k && supported(#[trigger] outs[j]) && outs[j].tag@ == tag
}

/// The tag of `outs[i]` names the one instance built the way `outs[i]` is.
spec fn placed(outs: Seq<Outbound>, c: Catalog, i: int) -> bool {
    &&& cached(outs, c.fresh, 0, outs[i]) matches Some(j)
    &&& slot_of(c.entries, outs[i].tag@) == Some(j as usize)
}

/// What holds in the state `c` of a pass from nothing over the first `k` outbounds.
spec fn pass_facts(outs: Seq<Outbound>, k: nat, c: Catalog) -> bool {
    &&& c.fresh.len() <= k
    &&& forall|j: int|
        0 <= j < c.fresh.len() ==> (#[trigger] c.fresh[j]) < k && supported(outs[c.fresh[j] as int])
    &&& forall|a: int, b: int|
        0 <= a < b < c.fresh.len() ==> !same_recipe(
            outs[(#[trigger] c.fresh[a]) as int],
            outs[(#[trigger] c.fresh[b]) as int],
        )
    &&& forall|w: int|
        0 <= w < c.entries.len() ==> tag_source(outs, k, (#[trigger] c.entries[w]).0)
    &&& forall|i: int| 0 <= i < k && accepted(outs, i) ==> #[trigger] placed(outs, c, i)
}

/// Appending to `fresh` does not change what `cached` had found.
proof fn lemma_cached_push(outs: Seq<Outbound>, fresh: Seq<usize>, from: int, o: Outbound, x: usize)
    requires
        0 <= from,
        cached(outs, fresh, from, o) is Some,
    ensures
        cached(outs, fresh.push(x), from, o) == cached(outs, fresh, from, o),
    decreases fresh.len() - from,
{
    assert(fresh.push(x)[from] == fresh[from]);
    if !same_recipe(outs[fresh[from] as int], o) {
        lemma_cached_push(outs, fresh, from + 1, o, x);
    }
}

/// Where `cached` found nothing and `x` is built the same way as `o`,
/// appending `x` makes `cached` find the appended position.
proof fn lemma_cached_appended(
    outs: Seq<Outbound>,
    fresh: Seq<usize>,
    from: int,
    o: Outbound,
    x: usize,
)
    requires
        0 <= from <= fresh.len(),
        cached(outs, fresh, from, o) is None,
        same_recipe(outs[x as int], o),
    ensures
        cached(outs, fresh.push(x), from, o) == Some(fresh.len() as int),
    decreases fresh.len() - from,
{
    let next = fresh.push(x);
    if from < fresh.len() {
        assert(next[from] == fresh[from]);
        lemma_cached_appended(outs, fresh, from + 1, o, x);
    } else {
        assert(next[from] == x);
    }
}

/// Appending an entry does not change what `slot_of` had found, and makes it
/// find the appended entry where it had found nothing for that entry's tag.
proof fn lemma_slot_of_push(entries: Seq<TagEntry>, tag: Seq<char>, e: TagEntry)
    ensures
        slot_of(entries, tag) is Some ==> slot_of(entries.push(e), tag) == slot_of(entries, tag),
        slot_of(entries, tag) is None && e.0 == tag ==> slot_of(entries.push(e), tag) == Some(e.1),
        slot_of(entries, tag) is None && e.0 != tag ==> slot_of(entries.push(e), tag) is None,
    decreases entries.len(),
{
    let next = entries.push(e);
    if entries.len() == 0 {
        assert(next.drop_first() =~= entries);
    } else {
        assert(next[0] == entries[0]);
        assert(next.drop_first() =~= entries.drop_first().push(e));
        if entries[0].0 != tag {
            lemma_slot_of_push(entries.drop_first(), tag, e);
        }
    }
}

proof fn lemma_pass_facts(outs: Seq<Outbound>, k: nat)
    requires
        k <= outs.len() <= usize::MAX,
        after_pass(outs, 0, Seq::empty(), k) is Some,
    ensures
        pass_facts(outs, k, after_pass(outs, 0, Seq::empty(), k)->0),
    decreases k,
{
    let start = Seq::<TagEntry>::empty();
    let c = after_pass(outs, 0, start, k)->0;
    if k == 0 {
    } else {
        let kk = (k - 1) as nat;
        let b = after_pass(outs, 0, start, kk)->0;
        lemma_pass_facts(outs, kk);
        let o = outs[k - 1];
        lemma_cached_found(outs, b.fresh, 0, o);
        lemma_slot_of(b.entries, o.tag@);
        assert(c == advance(outs, 0, b, k - 1));
        let step = decide(outs, b, k - 1);
        // the tags in the map come from outbounds with a known protocol
        assert forall|w: int| 0 <= w < c.entries.len() implies tag_source(
            outs,
            k,
            (#[trigger] c.entries[w]).0,
        ) by {
            if w < b.entries.len() {
                assert(c.entries[w] == b.entries[w]);
                assert(tag_source(outs, kk, b.entries[w].0));
                let j = choose|j: int|
                    0 <= j < kk && supported(#[trigger] outs[j]) && outs[j].tag@
                        == b.entries[w].0;
                assert(supported(outs[j]));
            } else {
                assert(c.entries[w].0 == o.tag@);
                if let Step::Share(j) = step {
                    assert(supported(outs[b.fresh[j] as int]));
                }
                assert(supported(outs[k - 1]));
            }
        }
        assert forall|j: int| 0 <= j < c.fresh.len() implies (#[trigger] c.fresh[j]) < k
            && supported(outs[c.fresh[j] as int]) by {
            if j < b.fresh.len() {
                assert(c.fresh[j] == b.fresh[j]);
            }
        }
        assert forall|x: int, y: int| 0 <= x < y < c.fresh.len() implies !same_recipe(
            outs[(#[trigger] c.fresh[x]) as int],
            outs[(#[trigger] c.fresh[y]) as int],
        ) by {
            assert(c.fresh[x] == b.fresh[x]);
            if y < b.fresh.len() {
                assert(c.fresh[y] == b.fresh[y]);
            } else {
                assert(step is Build);
                assert(c.fresh[y] == (k - 1) as usize);
            }
        }
        assert forall|i: int| 0 <= i < k && accepted(outs, i) implies #[trigger] placed(
            outs,
            c,
            i,
        ) by {
            if i < kk {
                assert(placed(outs, b, i));
                if step is Build {
                    lemma_cached_push(outs, b.fresh, 0, outs[i], (k - 1) as usize);
                }
                if c.entries.len() > b.entries.len() {
                    lemma_slot_of_push(b.entries, outs[i].tag@, c.entries[b.entries.len() as int]);
                    assert(c.entries =~= b.entries.push(c.entries[b.entries.len() as int]));
                }
            } else {
                // a present tag would come from an earlier outbound with a known protocol
                if has_tag(b.entries, o.tag@) {
                    let w = choose|w: int|
                        0 <= w < b.entries.len() && (#[trigger] b.entries[w]).0 == o.tag@;
                    assert(tag_source(outs, kk, b.entries[w].0));
                }
                assert(!has_tag(b.entries, o.tag@));
                match step {
                    Step::Share(j) => {
                        lemma_slot_of_push(b.entries, o.tag@, (o.tag@, j as usize));
                    },
                    Step::Build => {
                        lemma_cached_appended(outs, b.fresh, 0, o, (k - 1) as usize);
                        lemma_slot_of_push(b.entries, o.tag@, (o.tag@, b.fresh.len() as usize));
                    },
                    _ => {},
                }
            }
        }
    }
}

/// Two outbounds that enter the catalog and are configured with the same
/// protocol and the same settings blob are given the same handler instance;
/// with different ones, different instances.
pub proof fn lemma_sharing(outs: Seq<Outbound>, a: int, b: int)
    requires
        outs.len() <= usize::MAX,
        build(outs) is Some,
        0 <= a < outs.len(),
        0 <= b < outs.len(),
        accepted(outs, a),
        accepted(outs, b),
    ensures
        slot_of(build(outs)->0.entries, outs[a].tag@) is Some,
        slot_of(build(outs)->0.entries, outs[b].tag@) is Some,
        same_recipe(outs[a], outs[b]) <==> slot_of(build(outs)->0.entries, outs[a].tag@) == slot_of(
            build(outs)->0.entries,
            outs[b].tag@,
        ),
{
    let c = build(outs)->0;
    lemma_pass_facts(outs, outs.len());
    assert(placed(outs, c, a));
    assert(placed(outs, c, b));
    lemma_cached_found(outs, c.fresh, 0, outs[a]);
    lemma_cached_found(outs, c.fresh, 0, outs[b]);
    let ja = cached(outs, c.fresh, 0, outs[a])->0;
    let jb = cached(outs, c.fresh, 0, outs[b])->0;
    assert(ja as usize == jb as usize ==> ja == jb);
    if same_recipe(outs[a], outs[b]) {
        if ja < jb {
            assert(!same_recipe(outs[c.fresh[ja] as int], outs[c.fresh[jb] as int]));
        }
        if jb < ja {
            assert(!same_recipe(outs[c.fresh[jb] as int], outs[c.fresh[ja] as int]));
        }
    }
}

/// The pair of protocol and settings blob of `outs[i]` is also that of an
/// outbound that enters the catalog.
pub open spec fn represented(outs: Seq<Outbound>, i: int) -> bool {
    exists|k: int| 0 <= k < outs.len() && #[trigger] accepted(outs, k) && same_recipe(outs[k], outs[i])
}

/// The pairs of protocol and settings blob that the instances of `c` were built from.
spec fn built_recipes(outs: Seq<Outbound>, c: Catalog) -> Seq<(Seq<char>, Seq<u8>)> {
    Seq::new(c.fresh.len(), |j: int| recipe(outs[c.fresh[j] as int]))
}

proof fn lemma_built_recipes_distinct(outs: Seq<Outbound>, c: Catalog)
    requires
        pass_facts(outs, outs.len(), c),
    ensures
        built_recipes(outs, c).no_duplicates(),
{
    let rs = built_recipes(outs, c);
    assert forall|x: int, y: int| 0 <= x < rs.len() && 0 <= y < rs.len() && x != y implies rs[x]
        != rs[y] by {
        if x < y {
            assert(!same_recipe(outs[c.fresh[x] as int], outs[c.fresh[y] as int]));
        } else {
            assert(!same_recipe(outs[c.fresh[y] as int], outs[c.fresh[x] as int]));
        }
    }
}

proof fn lemma_built_recipes_cover(outs: Seq<Outbound>, c: Catalog, i: int)
    requires
        pass_facts(outs, outs.len(), c),
        0 <= i < outs.len(),
        represented(outs, i),
    ensures
        built_recipes(outs, c).contains(recipe(outs[i])),
{
    let rs = built_recipes(outs, c);
    let k = choose|k: int|
        0 <= k < outs.len() && #[trigger] accepted(outs, k) && same_recipe(outs[k], outs[i]);
    assert(placed(outs, c, k));
    lemma_cached_found(outs, c.fresh, 0, outs[k]);
    let j = cached(outs, c.fresh, 0, outs[k])->0;
    assert(rs[j] == recipe(outs[i]));
}

/// Where every configured pair of protocol and settings blob is that of an
/// outbound that enters the catalog, the catalog has built exactly one
/// handler instance for each distinct pair.
pub proof fn lemma_one_instance_per_recipe(outs: Seq<Outbound>)
    requires
        outs.len() <= usize::MAX,
        build(outs) is Some,
        forall|i: int| 0 <= i < outs.len() ==> #[trigger] represented(outs, i),
    ensures
        recipes(outs).finite(),
        recipes(outs).len() == build(outs)->0.fresh.len(),
{
    let c = build(outs)->0;
    lemma_pass_facts(outs, outs.len());
    let rs = built_recipes(outs, c);
    lemma_built_recipes_distinct(outs, c);
    assert forall|r: (Seq<char>, Seq<u8>)| rs.to_set().contains(r) <==> recipes(outs).contains(
        r,
    ) by {
        if rs.to_set().contains(r) {
            let j = choose|j: int| 0 <= j < rs.len() && rs[j] == r;
            assert(c.fresh[j] < outs.len());
            assert(recipe(outs[c.fresh[j] as int]) == r);
        }
        if recipes(outs).contains(r) {
            let i = choose|i: int| 0 <= i < outs.len() && recipe(#[trigger] outs[i]) == r;
            assert(represented(outs, i));
            lemma_built_recipes_cover(outs, c, i);
        }
    }
    assert(rs.to_set() =~= recipes(outs));
    rs.unique_seq_to_set();
}

/// The positions of the outbounds among the first `k` that enter the
/// catalog, in order.
pub open spec fn accepted_positions(outs: Seq<Outbound>, k: nat) -> Seq<int>
    decreases k,
{
    if k == 0 {
        Seq::empty()
    } else if accepted(outs, k - 1) {
        accepted_positions(outs, (k - 1) as nat).push(k - 1)
    } else {
        accepted_positions(outs, (k - 1) as nat)
    }
}

/// The outbound at position `p` enters the catalog and is the first to do
/// so with its pair of protocol and settings blob.
pub open spec fn first_of_recipe(outs: Seq<Outbound>, p: int) -> bool {
    &&& accepted(outs, p)
    &&& forall|q: int|
        0 <= q < p && #[trigger] accepted(outs, q) ==> !same_recipe(outs[q], outs[p])
}

/// The positions of the outbounds among the first `k` that are the first to
/// enter the catalog with their pair of protocol and settings blob, in order.
pub open spec fn first_positions(outs: Seq<Outbound>, k: nat) -> Seq<usize>
    decreases k,
{
    if k == 0 {
        Seq::empty()
    } else if first_of_recipe(outs, k - 1) {
        first_positions(outs, (k - 1) as nat).push((k - 1) as usize)
    } else {
        first_positions(outs, (k - 1) as nat)
    }
}

/// The shape of a catalog: its tags are those of the outbounds that enter
/// it, in their order, and its instances were built from the outbounds
/// that were the first to enter with their pair of protocol and settings.
spec fn catalog_shape(outs: Seq<Outbound>, k: nat, c: Catalog) -> bool {
    &&& c.fresh == first_positions(outs, k)
    &&& c.entries.len() == accepted_positions(outs, k).len()
    &&& forall|i: int|
        0 <= i < c.entries.len() ==> (#[trigger] c.entries[i]).0 == outs[accepted_positions(
            outs,
            k,
        )[i]].tag@
    &&& forall|j: int| 0 <= j < c.fresh.len() ==> accepted(outs, (#[trigger] c.fresh[j]) as int)
}

proof fn lemma_catalog_shape(outs: Seq<Outbound>, k: nat)
    requires
        k <= outs.len() <= usize::MAX,
        after_pass(outs, 0, Seq::empty(), k) is Some,
    ensures
        catalog_shape(outs, k, after_pass(outs, 0, Seq::empty(), k)->0),
    decreases k,
{
    let start = Seq::<TagEntry>::empty();
    let c = after_pass(outs, 0, start, k)->0;
    if k > 0 {
        let kk = (k - 1) as nat;
        let b = after_pass(outs, 0, start, kk)->0;
        let o = outs[k - 1];
        lemma_catalog_shape(outs, kk);
        lemma_pass_facts(outs, kk);
        lemma_pass_covers(outs, 0, start, kk);
        lemma_cached_found(outs, b.fresh, 0, o);
        assert(c == advance(outs, 0, b, k - 1));
        let step = decide(outs, b, k - 1);
        let taken = has_tag(b.entries, o.tag@);
        // the outbound enters the catalog exactly when its step inserts its tag
        if taken {
            let w = choose|w: int| 0 <= w < b.entries.len() && (#[trigger] b.entries[w]).0 == o.tag@;
            assert(tag_source(outs, kk, b.entries[w].0));
            assert(!accepted(outs, k - 1));
        } else if step is Share || step is Build {
            if let Step::Share(j) = step {
                assert(supported(outs[b.fresh[j] as int]));
            }
            assert forall|j: int| 0 <= j < k - 1 && supported(#[trigger] outs[j]) implies outs[j].tag@
                != o.tag@ by {
                assert(has_tag(b.entries, outs[j].tag@));
            }
            assert(accepted(outs, k - 1));
        }
        // and builds an instance exactly when it is the first with its pair
        if step is Build {
            assert forall|q: int| 0 <= q < k - 1 && #[trigger] accepted(outs, q) implies !same_recipe(
                outs[q],
                o,
            ) by {
                assert(placed(outs, b, q));
                lemma_cached_found(outs, b.fresh, 0, outs[q]);
                let j = cached(outs, b.fresh, 0, outs[q])->0;
                if same_recipe(outs[q], o) {
                    assert(same_recipe(outs[b.fresh[j] as int], o));
                }
            }
            assert(first_of_recipe(outs, k - 1));
        } else if let Step::Share(j) = step {
            assert(accepted(outs, b.fresh[j] as int));
            assert(!first_of_recipe(outs, k - 1));
        }
        assert(c.fresh == first_positions(outs, k));
        let acc = accepted_positions(outs, k);
        let before = accepted_positions(outs, kk);
        assert forall|i: int| 0 <= i < c.entries.len() implies (#[trigger] c.entries[i]).0
            == outs[acc[i]].tag@ by {
            if i < b.entries.len() {
                assert(c.entries[i] == b.entries[i]);
                assert(acc[i] == before[i]);
            }
        }
        assert forall|j: int| 0 <= j < c.fresh.len() implies accepted(
            outs,
            (#[trigger] c.fresh[j]) as int,
        ) by {
            if j < b.fresh.len() {
                assert(c.fresh[j] == b.fresh[j]);
            }
        }
    }
}

/// The `i`-th entry of the catalog `c` carries the tag of the `i`-th
/// outbound that enters the catalog, and names the instance that was built
/// for that outbound's pair of protocol and settings blob.
pub open spec fn entry_of(outs: Seq<Outbound>, c: Catalog, i: int) -> bool {
    let p = accepted_positions(outs, outs.len())[i];
    &&& 0 <= p < outs.len()
    &&& accepted(outs, p)
    &&& c.entries[i].0 == outs[p].tag@
    &&& c.entries[i].1 < c.fresh.len()
    &&& same_recipe(outs[c.fresh[c.entries[i].1 as int] as int], outs[p])
}

/// What a catalog holds, said without the passes that build it.
///
/// The tags of the catalog are the tags of the outbounds that enter it, in
/// the order in which they are configured. One instance is built for each
/// outbound that is the first to enter with its pair of protocol and
/// settings blob, in that order, and each tag names the instance that was
/// built for its outbound's pair.
pub proof fn lemma_catalog(outs: Seq<Outbound>)
    requires
        outs.len() <= usize::MAX,
        build(outs) is Some,
    ensures
        build(outs)->0.fresh == first_positions(outs, outs.len()),
        build(outs)->0.entries.len() == accepted_positions(outs, outs.len()).len(),
        forall|i: int|
            0 <= i < build(outs)->0.entries.len() ==> #[trigger] entry_of(outs, build(outs)->0, i),
{
    let c = build(outs)->0;
    let acc = accepted_positions(outs, outs.len());
    lemma_catalog_shape(outs, outs.len());
    lemma_pass_facts(outs, outs.len());
    lemma_accepted_positions(outs, outs.len());
    lemma_distinct_entries(outs, outs.len());
    assert forall|i: int| 0 <= i < c.entries.len() implies #[trigger] entry_of(outs, c, i) by {
        let p = acc[i];
        assert(accepted(outs, p));
        assert(placed(outs, c, p));
        assert(c.entries[i].0 == outs[p].tag@);
        lemma_cached_found(outs, c.fresh, 0, outs[p]);
        lemma_slot_of_entry(c.entries, i);
    }
}

/// The positions that `accepted_positions` gives are positions of outbounds
/// that enter the catalog.
proof fn lemma_accepted_positions(outs: Seq<Outbound>, k: nat)
    ensures
        forall|i: int|
            0 <= i < accepted_positions(outs, k).len() ==> 0 <= #[trigger] accepted_positions(
                outs,
                k,
            )[i] < k && accepted(outs, accepted_positions(outs, k)[i]),
    decreases k,
{
    if k > 0 {
        lemma_accepted_positions(outs, (k - 1) as nat);
        let before = accepted_positions(outs, (k - 1) as nat);
        let now = accepted_positions(outs, k);
        assert forall|i: int| 0 <= i < now.len() implies 0 <= #[trigger] now[i] < k && accepted(
            outs,
            now[i],
        ) by {
            if i < before.len() {
                assert(now[i] == before[i]);
            }
        }
    }
}

/// A pass from nothing inserts no tag twice.
proof fn lemma_distinct_entries(outs: Seq<Outbound>, k: nat)
    requires
        k <= outs.len(),
        after_pass(outs, 0, Seq::empty(), k) is Some,
    ensures
        distinct_tags(after_pass(outs, 0, Seq::empty(), k)->0.entries),
    decreases k,
{
    if k > 0 {
        let b = after_pass(outs, 0, Seq::empty(), (k - 1) as nat)->0;
        let c = after_pass(outs, 0, Seq::empty(), k)->0;
        lemma_distinct_entries(outs, (k - 1) as nat);
        assert(c == advance(outs, 0, b, k - 1));
        assert forall|i: int, j: int| 0 <= i < j < c.entries.len() implies (
        #[trigger] c.entries[i]).0 != (#[trigger] c.entries[j]).0 by {
            assert(c.entries[i] == b.entries[i]);
            if j < b.entries.len() {
                assert(c.entries[j] == b.entries[j]);
            }
        }
    }
}

} // verus!
