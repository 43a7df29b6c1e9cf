//! The table of datagram flows.
//!
//! Datagrams have no connection, so the gateway keeps, for each pair of a
//! client's source address and a destination, the outbound endpoint that
//! the flow's datagrams go through. An entry that has not been used for the
//! idle interval is taken out by a sweep. The table holds handles only:
//! the endpoints and the tasks that read from them are the caller's.

use crate::session::same_address;
use crate::session::Destination;
use crate::session::DestinationView;
use crate::session::SocketAddress;
use vstd::prelude::*;

verus! {

/// The idle interval after which an entry is swept unless another is asked
/// for: two minutes, in milliseconds.
pub const DEFAULT_IDLE_MS: u64 = 120000;

/// What a flow is known by: where it comes from and where it goes.
pub struct NatKey {
    pub source: SocketAddress,
    pub destination: Destination,
}

impl View for NatKey {
    type V = (SocketAddress, DestinationView);

    open spec fn view(&self) -> (SocketAddress, DestinationView) {
        (self.source, self.destination@)
    }
}

/// What the caller holds for a flow: the outbound endpoint and the task
/// that reads from it.
#[derive(Debug, Clone, Copy, PartialEq, Eq, Structural)]
pub struct Flow {
    /// The handle of the outbound datagram endpoint.
    pub endpoint: u64,
    /// The handle by which the task that reads from the endpoint is cancelled.
    pub downlink: u64,
}

/// One entry of the table.
pub struct NatEntry {
    pub key: NatKey,
    pub flow: Flow,
    /// When the flow was last used, in milliseconds.
    pub last_used: u64,
}

/// An entry with its key as characters.
pub struct EntryView {
    pub key: (SocketAddress, DestinationView),
    pub flow: Flow,
    pub last_used: u64,
}

impl View for NatEntry {
    type V = EntryView;

    open spec fn view(&self) -> EntryView {
        EntryView { key: self.key@, flow: self.flow, last_used: self.last_used }
    }
}

/// The entries of a table, each as its view.
pub open spec fn entries_view(entries: Seq<NatEntry>) -> Seq<EntryView> {
    Seq::new(entries.len(), |i: int| entries[i]@)
}

/// No two entries have the same key.
pub open spec fn distinct_keys(entries: Seq<EntryView>) -> bool {
    forall|i: int, j: int|
        0 <= i < j < entries.len() ==> (#[trigger] entries[i]).key != (#[trigger] entries[j]).key
}

/// The position of the entry with the key `key`.
pub open spec fn find(entries: Seq<EntryView>, key: (SocketAddress, DestinationView)) -> Option<int>
    decreases entries.len(),
{
    if entries.len() == 0 {
        None
    } else if entries.last().key == key {
        Some(entries.len() - 1)
    } else {
        find(entries.drop_last(), key)
    }
}

/// `find` gives a position of the key, and none only where no entry has the key.
pub proof fn lemma_find(entries: Seq<EntryView>, key: (SocketAddress, DestinationView))
    ensures
        match find(entries, key) {
            Some(i) => 0 <= i < entries.len() && entries[i].key == key,
            None => forall|i: int| 0 <= i < entries.len() ==> (#[trigger] entries[i]).key != key,
        },
    decreases entries.len(),
{
    if entries.len() > 0 && entries.last().key != key {
        lemma_find(entries.drop_last(), key);
        assert forall|i: int| 0 <= i < entries.len() && find(entries, key) is None implies (
        #[trigger] entries[i]).key != key by {
            if i < entries.len() - 1 {
                assert(entries.drop_last()[i] == entries[i]);
            }
        }
    }
}

/// In a table without two entries of one key, two entries with the same key
/// are the same entry.
pub proof fn lemma_one_entry_per_key(entries: Seq<EntryView>, i: int, j: int)
    requires
        distinct_keys(entries),
        0 <= i < entries.len(),
        0 <= j < entries.len(),
        entries[i].key == entries[j].key,
    ensures
        i == j,
{
    if i < j {
        assert(entries[i].key != entries[j].key);
    }
    if j < i {
        assert(entries[j].key != entries[i].key);
    }
}

/// The entry has been idle for the interval `idle` at the time `now`.
pub open spec fn is_idle(e: EntryView, now: u64, idle: u64) -> bool {
    now >= e.last_used && now - e.last_used >= idle
}

/// The entries that stay when the table is swept at the time `now`.
pub open spec fn kept(entries: Seq<EntryView>, now: u64, idle: u64) -> Seq<EntryView> {
    entries.filter(|e: EntryView| !is_idle(e, now, idle))
}

/// The flows that are taken out when the table is swept at the time `now`.
pub open spec fn reaped(entries: Seq<EntryView>, now: u64, idle: u64) -> Seq<Flow> {
    entries.filter(|e: EntryView| is_idle(e, now, idle)).map_values(|e: EntryView| e.flow)
}

/// Why a flow is not entered.
#[derive(Debug, Clone, Copy, PartialEq, Eq, Structural)]
pub enum NatError {
    /// The table is full.
    ResourceExhausted,
}

/// How an attempt to enter a flow ended.
#[derive(Debug, Clone, Copy, PartialEq, Eq, Structural)]
pub enum Installed {
    /// The flow was entered.
    New,
    /// Another flow was entered for the key in the meantime. It stays, and
    /// the caller discards the endpoint it brought and uses this one.
    Lost(Flow),
}

/// The table of datagram flows.
pub struct NatManager {
    entries: Vec<NatEntry>,
    idle_ms: u64,
    capacity: usize,
}

impl View for NatManager {
    type V = Seq<EntryView>;

    closed spec fn view(&self) -> Seq<EntryView> {
        entries_view(self.entries@)
    }
}

impl NatManager {
    /// The idle interval, in milliseconds.
    pub closed spec fn idle(&self) -> u64 {
        self.idle_ms
    }

    /// The number of entries the table takes.
    pub closed spec fn limit(&self) -> usize {
        self.capacity
    }

    /// The table's invariant: at most one entry for each key, and no more
    /// entries than the table takes.
    pub open spec fn wf(&self) -> bool {
        distinct_keys(self@) && self@.len() <= self.limit()
    }

    /// An empty table that takes `capacity` entries and sweeps entries that
    /// have been idle for `idle_ms` milliseconds.
    pub fn new(idle_ms: u64, capacity: usize) -> (r: Self)
        ensures
            r.wf(),
            r@ == Seq::<EntryView>::empty(),
            r.idle() == idle_ms,
            r.limit() == capacity,
    {
        let r = NatManager { entries: Vec::new(), idle_ms, capacity };
        assert(r@ =~= Seq::<EntryView>::empty());
        r
    }

    /// Where the entry with the key `key` stands.
    fn position(&self, key: &NatKey) -> (r: Option<usize>)
        ensures
            match r {
                Some(i) => i < self@.len() && self@[i as int].key == key@,
                None => forall|i: int| 0 <= i < self@.len() ==> (#[trigger] self@[i]).key != key@,
            },
    {
        let mut i: usize = 0;
        while i < self.entries.len()
            invariant
                i <= self.entries.len(),
                forall|j: int| 0 <= j < i ==> (#[trigger] self@[j]).key != key@,
            decreases self.entries.len() - i,
        {
            let e = &self.entries[i];
            assert(self@[i as int].key == e.key@);
            if same_address(&e.key.source, &key.source) && e.key.destination.same(&key.destination) {
                return Some(i);
            }
            i += 1;
        }
        None
    }

    /// The flow of `key`, for a datagram that is sent at the time `now`.
    /// Where the table has the flow, the flow counts as used at `now`.
    pub fn lookup(&mut self, key: &NatKey, now: u64) -> (r: Option<Flow>)
        requires
            old(self).wf(),
        ensures
            final(self).wf(),
            final(self).idle() == old(self).idle(),
            final(self).limit() == old(self).limit(),
            match find(old(self)@, key@) {
                Some(i) => r == Some(old(self)@[i].flow) && final(self)@ == old(self)@.update(
                    i,
                    EntryView { last_used: now, ..old(self)@[i] },
                ),
                None => r is None && final(self)@ == old(self)@,
            },
    {
        let ghost before = self@;
        proof {
            lemma_find(before, key@);
        }
        match self.position(key) {
            None => None,
            Some(i) => {
                proof {
                    let w = find(before, key@)->0;
                    if w < i {
                        assert(before[w].key != before[i as int].key);
                    }
                    if i < w {
                        assert(before[i as int].key != before[w].key);
                    }
                }
                let flow = self.entries[i].flow;
                let entry = NatEntry {
                    key: NatKey {
                        source: self.entries[i].key.source,
                        destination: self.entries[i].key.destination.copy(),
                    },
                    flow,
                    last_used: now,
                };
                self.entries.set(i, entry);
                assert(self@ =~= before.update(
                    i as int,
                    EntryView { last_used: now, ..before[i as int] },
                ));
                assert forall|a: int, b: int| 0 <= a < b < self@.len() implies (
                #[trigger] self@[a]).key != (#[trigger] self@[b]).key by {
                    assert(self@[a].key == before[a].key);
                    assert(self@[b].key == before[b].key);
                }
                Some(flow)
            },
        }
    }

    /// Enters `flow` for `key` at the time `now`.
    ///
    /// Where the key has an entry already, that entry stays and is given
    /// back, used at `now`: the caller discards what it brought. Where it
    /// has none and the table is full, the flow is refused.
    pub fn install(&mut self, key: NatKey, flow: Flow, now: u64) -> (r: Result<Installed, NatError>)
        requires
            old(self).wf(),
        ensures
            final(self).wf(),
            final(self).idle() == old(self).idle(),
            final(self).limit() == old(self).limit(),
            match find(old(self)@, key@) {
                Some(i) => r == Ok::<Installed, NatError>(Installed::Lost(old(self)@[i].flow))
                    && final(self)@ == old(self)@.update(
                    i,
                    EntryView { last_used: now, ..old(self)@[i] },
                ),
                None => if old(self)@.len() < old(self).limit() {
                    r == Ok::<Installed, NatError>(Installed::New) && final(self)@ == old(
                        self,
                    )@.push(EntryView { key: key@, flow, last_used: now })
                } else {
                    r == Err::<Installed, NatError>(NatError::ResourceExhausted) && final(self)@
                        == old(self)@
                },
            },
    {
        let ghost before = self@;
        match self.lookup(&key, now) {
            Some(existing) => Ok(Installed::Lost(existing)),
            None => {
                if self.entries.len() >= self.capacity {
                    return Err(NatError::ResourceExhausted);
                }
                proof {
                    lemma_find(before, key@);
                }
                self.entries.push(NatEntry { key, flow, last_used: now });
                assert(self@ =~= before.push(EntryView { key: key@, flow, last_used: now }));
                assert forall|a: int, b: int| 0 <= a < b < self@.len() implies (
                #[trigger] self@[a]).key != (#[trigger] self@[b]).key by {
                    assert(self@[a] == before[a]);
                    if b < before.len() {
                        assert(self@[b] == before[b]);
                    }
                }
                Ok(Installed::New)
            },
        }
    }

    /// Takes the entry of `key` out, because its flow was closed. Gives the
    /// flow back, or `None` where the key has no entry.
    pub fn close(&mut self, key: &NatKey) -> (r: Option<Flow>)
        requires
            old(self).wf(),
        ensures
            final(self).wf(),
            final(self).idle() == old(self).idle(),
            final(self).limit() == old(self).limit(),
            find(final(self)@, key@) is None,
            match find(old(self)@, key@) {
                Some(i) => r == Some(old(self)@[i].flow) && final(self)@ == old(self)@.remove(i),
                None => r is None && final(self)@ == old(self)@,
            },
    {
        let ghost before = self@;
        proof {
            lemma_find(before, key@);
        }
        match self.position(key) {
            None => None,
            Some(i) => {
                proof {
                    let w = find(before, key@)->0;
                    if w < i {
                        assert(before[w].key != before[i as int].key);
                    }
                    if i < w {
                        assert(before[i as int].key != before[w].key);
                    }
                }
                let entry = self.entries.remove(i);
                assert(self@ =~= before.remove(i as int));
                assert forall|a: int, b: int| 0 <= a < b < self@.len() implies (
                #[trigger] self@[a]).key != (#[trigger] self@[b]).key by {
                    let x = if a < i {
                        a
                    } else {
                        a + 1
                    };
                    let y = if b < i {
                        b
                    } else {
                        b + 1
                    };
                    assert(self@[a] == before[x]);
                    assert(self@[b] == before[y]);
                }
                proof {
                    lemma_find(self@, key@);
                    if let Some(at) = find(self@, key@) {
                        let x = if at < i {
                            at
                        } else {
                            at + 1
                        };
                        assert(self@[at] == before[x]);
                        if x < i {
                            assert(before[x].key != before[i as int].key);
                        } else {
                            assert(before[i as int].key != before[x].key);
                        }
                    }
                }
                Some(entry.flow)
            },
        }
    }

    /// Takes out the entries that have been idle for the interval at the
    /// time `now`. Gives back their flows, in the order of the table: the
    /// caller cancels their tasks and closes their endpoints.
    pub fn sweep(&mut self, now: u64) -> (r: Vec<Flow>)
        requires
            old(self).wf(),
        ensures
            final(self).wf(),
            final(self).idle() == old(self).idle(),
            final(self).limit() == old(self).limit(),
            final(self)@ == kept(old(self)@, now, old(self).idle()),
            r@ == reaped(old(self)@, now, old(self).idle()),
    {
        let ghost before = self@;
        let idle = self.idle_ms;
        let ghost stays = |e: EntryView| !is_idle(e, now, idle);
        let ghost goes = |e: EntryView| is_idle(e, now, idle);
        let ghost flow_of = |e: EntryView| e.flow;
        let mut keep: Vec<NatEntry> = Vec::new();
        let mut gone: Vec<Flow> = Vec::new();
        let ghost mut from: Seq<int> = Seq::empty();
        let mut i: usize = 0;
        proof {
            reveal(Seq::filter);
            assert(before.take(0) =~= Seq::<EntryView>::empty());
            assert(entries_view(keep@) =~= before.take(0).filter(stays));
            assert(gone@ =~= before.take(0).filter(goes).map_values(flow_of));
        }
        while i < self.entries.len()
            invariant
                i <= self.entries.len(),
                before == self@,
                idle == self.idle_ms,
                stays == |e: EntryView| !is_idle(e, now, idle),
                goes == |e: EntryView| is_idle(e, now, idle),
                flow_of == |e: EntryView| e.flow,
                entries_view(keep@) == before.take(i as int).filter(stays),
                gone@ == before.take(i as int).filter(goes).map_values(flow_of),
                from.len() == keep@.len(),
                keep@.len() <= i,
                forall|a: int|
                    0 <= a < from.len() ==> 0 <= #[trigger] from[a] < i && keep@[a]@
                        == before[from[a]],
                forall|a: int, b: int|
                    0 <= a < b < from.len() ==> #[trigger] from[a] < #[trigger] from[b],
            decreases self.entries.len() - i,
        {
            let e = &self.entries[i];
            let ghost seen = before.take(i as int);
            let ghost more = before.take(i + 1);
            proof {
                reveal(Seq::filter);
                assert(more.drop_last() =~= seen);
                assert(more.last() == before[i as int]);
                assert(before[i as int] == e@);
            }
            if now >= e.last_used && now - e.last_used >= idle {
                let ghost so_far = gone@;
                gone.push(e.flow);
                proof {
                    assert(more.filter(goes) =~= seen.filter(goes).push(e@));
                    assert(more.filter(stays) =~= seen.filter(stays));
                    assert(gone@ =~= more.filter(goes).map_values(flow_of));
                }
            } else {
                let ghost so_far = entries_view(keep@);
                keep.push(
                    NatEntry {
                        key: NatKey { source: e.key.source, destination: e.key.destination.copy() },
                        flow: e.flow,
                        last_used: e.last_used,
                    },
                );
                proof {
                    from = from.push(i as int);
                    assert(more.filter(stays) =~= seen.filter(stays).push(e@));
                    assert(more.filter(goes) =~= seen.filter(goes));
                    assert(entries_view(keep@) =~= so_far.push(e@));
                }
            }
            i += 1;
        }
        proof {
            assert(before.take(i as int) =~= before);
            assert forall|a: int, b: int| 0 <= a < b < keep@.len() implies (#[trigger] entries_view(
                keep@,
            )[a]).key != (#[trigger] entries_view(keep@)[b]).key by {
                assert(from[a] < from[b]);
                assert(before[from[a]].key != before[from[b]].key);
            }
        }
        self.entries = keep;
        gone
    }

    /// The number of entries.
    pub fn len(&self) -> (r: usize)
        ensures
            r == self@.len(),
    {
        self.entries.len()
    }
}

} // verus!
