//! What the resolver remembers: the static hosts, and a cache of answers.
//!
//! A name is first looked for among the static hosts, then in the cache.
//! The cache keeps an answer until its time to live has run out, and no
//! more answers than it was made for: when it is full the answer that was
//! used longest ago makes room. The queries themselves are the caller's,
//! who stores what the servers answered.

use crate::session::IpAddress;
use vstd::prelude::*;

verus! {

/// The kind of address that is asked for.
#[derive(Debug, Clone, Copy, PartialEq, Eq, Structural)]
pub enum QueryType {
    /// IPv4 addresses.
    A,
    /// IPv6 addresses.
    Aaaa,
}

/// Why a name was not resolved.
#[derive(Debug, Clone, Copy, PartialEq, Eq, Structural)]
pub enum DnsError {
    /// No server answered in time.
    Timeout,
    /// Every server failed.
    AllServersFailed,
    /// A server answered, without an address.
    EmptyAnswer,
}

/// What one server did with a query.
pub enum ServerOutcome {
    /// It answered with these addresses.
    Answered(Vec<IpAddress>),
    /// It did not answer in time.
    TimedOut,
    /// It failed.
    Failed,
}

/// A static host: a name and its addresses.
pub struct StaticHost {
    pub name: String,
    pub addresses: Vec<IpAddress>,
}

/// The address is of the kind that is asked for.
pub open spec fn of_type(ip: IpAddress, qtype: QueryType) -> bool {
    match qtype {
        QueryType::A => ip is V4,
        QueryType::Aaaa => ip is V6,
    }
}

/// The addresses of the kind that is asked for.
pub open spec fn of_kind(addresses: Seq<IpAddress>, qtype: QueryType) -> Seq<IpAddress> {
    addresses.filter(|ip: IpAddress| of_type(ip, qtype))
}

/// What the static hosts say of `name`: the addresses, of the kind that is
/// asked for, of the first host that carries the name and has such an
/// address.
pub open spec fn static_answer(hosts: Seq<StaticHost>, name: Seq<char>, qtype: QueryType) -> Option<
    Seq<IpAddress>,
>
    decreases hosts.len(),
{
    if hosts.len() == 0 {
        None
    } else if hosts[0].name@ == name && of_kind(hosts[0].addresses@, qtype).len() > 0 {
        Some(of_kind(hosts[0].addresses@, qtype))
    } else {
        static_answer(hosts.drop_first(), name, qtype)
    }
}

/// The answer of the servers that were asked, in the order in which they
/// were asked: the addresses of the first server that answered with any.
/// Where none did, an empty answer counts before a timeout, and a timeout
/// is reported only where every server timed out.
pub open spec fn concluded(outcomes: Seq<ServerOutcome>) -> Result<Seq<IpAddress>, DnsError> {
    if exists|i: int| 0 <= i < outcomes.len() && has_addresses(#[trigger] outcomes[i]) {
        let i = choose|i: int|
            0 <= i < outcomes.len() && has_addresses(#[trigger] outcomes[i]) && forall|j: int|
                0 <= j < i ==> !has_addresses(#[trigger] outcomes[j]);
        Ok(outcomes[i]->Answered_0@)
    } else if exists|i: int| 0 <= i < outcomes.len() && (#[trigger] outcomes[i]) is Answered {
        Err(DnsError::EmptyAnswer)
    } else if outcomes.len() > 0 && forall|i: int|
        0 <= i < outcomes.len() ==> (#[trigger] outcomes[i]) is TimedOut {
        Err(DnsError::Timeout)
    } else {
        Err(DnsError::AllServersFailed)
    }
}

/// The server answered with at least one address.
pub open spec fn has_addresses(o: ServerOutcome) -> bool {
    o matches ServerOutcome::Answered(a) && a@.len() > 0
}

/// Concludes a query from what the servers did.
pub fn conclude(outcomes: &Vec<ServerOutcome>) -> (r: Result<Vec<IpAddress>, DnsError>)
    ensures
        match r {
            Ok(a) => concluded(outcomes@) == Ok::<Seq<IpAddress>, DnsError>(a@),
            Err(e) => concluded(outcomes@) == Err::<Seq<IpAddress>, DnsError>(e),
        },
{
    let mut answered = false;
    let mut all_timed_out = true;
    let mut i: usize = 0;
    while i < outcomes.len()
        invariant
            i <= outcomes.len(),
            forall|j: int| 0 <= j < i ==> !has_addresses(#[trigger] outcomes@[j]),
            answered == exists|j: int| 0 <= j < i && (#[trigger] outcomes@[j]) is Answered,
            all_timed_out == forall|j: int| 0 <= j < i ==> (#[trigger] outcomes@[j]) is TimedOut,
        decreases outcomes.len() - i,
    {
        match &outcomes[i] {
            ServerOutcome::Answered(addresses) => {
                if addresses.len() > 0 {
                    proof {
                        assert(has_addresses(outcomes@[i as int]));
                        let w = choose|w: int|
                            0 <= w < outcomes@.len() && has_addresses(#[trigger] outcomes@[w])
                                && forall|j: int|
                                0 <= j < w ==> !has_addresses(#[trigger] outcomes@[j]);
                        if w < i {
                            assert(!has_addresses(outcomes@[w]));
                        }
                        if i < w {
                            assert(!has_addresses(outcomes@[i as int]));
                        }
                    }
                    return Ok(addresses.clone());
                }
                answered = true;
                all_timed_out = false;
            },
            ServerOutcome::TimedOut => {},
            ServerOutcome::Failed => {
                all_timed_out = false;
            },
        }
        i += 1;
    }
    if answered {
        Err(DnsError::EmptyAnswer)
    } else if outcomes.len() > 0 && all_timed_out {
        Err(DnsError::Timeout)
    } else {
        Err(DnsError::AllServersFailed)
    }
}

/// One remembered answer.
pub struct CacheEntry {
    pub name: String,
    pub qtype: QueryType,
    pub addresses: Vec<IpAddress>,
    /// The time from which the answer no longer counts, in milliseconds.
    pub expires: u64,
}

/// A remembered answer with its name as characters.
pub struct CachedAnswer {
    pub key: (Seq<char>, QueryType),
    pub addresses: Seq<IpAddress>,
    pub expires: u64,
}

impl View for CacheEntry {
    type V = CachedAnswer;

    open spec fn view(&self) -> CachedAnswer {
        CachedAnswer {
            key: (self.name@, self.qtype),
            addresses: self.addresses@,
            expires: self.expires,
        }
    }
}

/// The answers of a cache, each as its view.
pub open spec fn answers_view(entries: Seq<CacheEntry>) -> Seq<CachedAnswer> {
    Seq::new(entries.len(), |i: int| entries[i]@)
}

/// No two answers are for the same name and kind.
pub open spec fn distinct_answers(entries: Seq<CachedAnswer>) -> bool {
    forall|i: int, j: int|
        0 <= i < j < entries.len() ==> (#[trigger] entries[i]).key != (#[trigger] entries[j]).key
}

/// The position of the answer for `key`.
pub open spec fn position(entries: Seq<CachedAnswer>, key: (Seq<char>, QueryType)) -> Option<int>
    decreases entries.len(),
{
    if entries.len() == 0 {
        None
    } else if entries.last().key == key {
        Some(entries.len() - 1)
    } else {
        position(entries.drop_last(), key)
    }
}

/// `position` gives a position of the key, and none only where no answer
/// is for the key.
pub proof fn lemma_position(entries: Seq<CachedAnswer>, key: (Seq<char>, QueryType))
    ensures
        match position(entries, key) {
            Some(i) => 0 <= i < entries.len() && entries[i].key == key,
            None => forall|i: int| 0 <= i < entries.len() ==> (#[trigger] entries[i]).key != key,
        },
    decreases entries.len(),
{
    if entries.len() > 0 && entries.last().key != key {
        lemma_position(entries.drop_last(), key);
        assert forall|i: int| 0 <= i < entries.len() && position(entries, key) is None implies (
        #[trigger] entries[i]).key != key by {
            if i < entries.len() - 1 {
                assert(entries.drop_last()[i] == entries[i]);
            }
        }
    }
}

/// The answers without the one for `key`.
pub open spec fn without(entries: Seq<CachedAnswer>, key: (Seq<char>, QueryType)) -> Seq<
    CachedAnswer,
> {
    match position(entries, key) {
        Some(i) => entries.remove(i),
        None => entries,
    }
}

/// The answers after one has been stored in a cache for `capacity` answers:
/// an older answer for the key is dropped, the answer that was used longest
/// ago makes room where the cache is full, and the new answer is the one
/// used last. A cache for no answers stores none.
pub open spec fn stored(entries: Seq<CachedAnswer>, capacity: nat, answer: CachedAnswer) -> Seq<
    CachedAnswer,
> {
    let rest = without(entries, answer.key);
    if capacity == 0 {
        rest
    } else if rest.len() >= capacity {
        rest.drop_first().push(answer)
    } else {
        rest.push(answer)
    }
}

/// What a lookup found.
#[derive(Debug, PartialEq, Eq)]
pub enum Answer {
    /// The static hosts have the name, with these addresses.
    Static(Vec<IpAddress>),
    /// The cache has an answer that still counts, with these addresses.
    Cached(Vec<IpAddress>),
    /// Neither has: the servers are to be asked.
    Miss,
}

/// The static hosts and the cache of a resolver.
pub struct DnsClient {
    hosts: Vec<StaticHost>,
    cache: Vec<CacheEntry>,
    capacity: usize,
}

impl View for DnsClient {
    type V = Seq<CachedAnswer>;

    closed spec fn view(&self) -> Seq<CachedAnswer> {
        answers_view(self.cache@)
    }
}

impl DnsClient {
    /// The static hosts.
    pub closed spec fn hosts(&self) -> Seq<StaticHost> {
        self.hosts@
    }

    /// The number of answers the cache takes.
    pub closed spec fn limit(&self) -> usize {
        self.capacity
    }

    /// The resolver's invariant: at most one answer for a name and kind,
    /// and no more answers than the cache takes.
    pub open spec fn wf(&self) -> bool {
        distinct_answers(self@) && self@.len() <= self.limit()
    }

    /// A resolver with these static hosts and an empty cache for
    /// `capacity` answers.
    pub fn new(hosts: Vec<StaticHost>, capacity: usize) -> (r: Self)
        ensures
            r.wf(),
            r@ == Seq::<CachedAnswer>::empty(),
            r.hosts() == hosts@,
            r.limit() == capacity,
    {
        let r = DnsClient { hosts, cache: Vec::new(), capacity };
        assert(r@ =~= Seq::<CachedAnswer>::empty());
        r
    }

    /// Looks the name up among the static hosts.
    fn lookup_static(&self, name: &str, qtype: QueryType) -> (r: Option<Vec<IpAddress>>)
        ensures
            match static_answer(self.hosts(), name@, qtype) {
                Some(a) => r matches Some(found) && found@ == a,
                None => r is None,
            },
    {
        let mut i: usize = 0;
        assert(self.hosts@.skip(0) =~= self.hosts@);
        while i < self.hosts.len()
            invariant
                i <= self.hosts.len(),
                static_answer(self.hosts(), name@, qtype) == static_answer(
                    self.hosts().skip(i as int),
                    name@,
                    qtype,
                ),
            decreases self.hosts.len() - i,
        {
            let host = &self.hosts[i];
            let ghost rest = self.hosts().skip(i as int);
            assert(rest[0] == self.hosts()[i as int]);
            assert(rest.drop_first() =~= self.hosts().skip(i + 1));
            let found = select(&host.addresses, qtype);
            if host.name.as_str().eq(name) && found.len() > 0 {
                return Some(found);
            }
            i += 1;
        }
        None
    }

    /// Where the answer for the name and kind stands in the cache.
    fn find(&self, name: &str, qtype: QueryType) -> (r: Option<usize>)
        ensures
            match r {
                Some(i) => i < self@.len() && self@[i as int].key == (name@, qtype),
                None => forall|i: int|
                    0 <= i < self@.len() ==> (#[trigger] self@[i]).key != (name@, qtype),
            },
    {
        let mut i: usize = 0;
        while i < self.cache.len()
            invariant
                i <= self.cache.len(),
                forall|j: int| 0 <= j < i ==> (#[trigger] self@[j]).key != (name@, qtype),
            decreases self.cache.len() - i,
        {
            let e = &self.cache[i];
            assert(self@[i as int].key == (e.name@, e.qtype));
            let same_type = match (e.qtype, qtype) {
                (QueryType::A, QueryType::A) => true,
                (QueryType::Aaaa, QueryType::Aaaa) => true,
                _ => false,
            };
            if same_type && e.name.as_str().eq(name) {
                return Some(i);
            }
            i += 1;
        }
        None
    }

    /// Takes the answer for the name and kind out of the cache.
    fn forget(&mut self, name: &str, qtype: QueryType) -> (r: Option<CacheEntry>)
        requires
            old(self).wf(),
        ensures
            final(self).hosts() == old(self).hosts(),
            final(self).limit() == old(self).limit(),
            final(self)@ == without(old(self)@, (name@, qtype)),
            distinct_answers(final(self)@),
            final(self)@.len() <= old(self)@.len(),
            forall|i: int| 0 <= i < final(self)@.len() ==> (#[trigger] final(self)@[i]).key != (
                name@,
                qtype,
            ),
            match position(old(self)@, (name@, qtype)) {
                Some(i) => r matches Some(e) && e@ == old(self)@[i],
                None => r is None,
            },
    {
        let ghost before = self@;
        let ghost key = (name@, qtype);
        proof {
            lemma_position(before, key);
        }
        match self.find(name, qtype) {
            None => None,
            Some(i) => {
                proof {
                    let w = position(before, key)->0;
                    if w < i {
                        assert(before[w].key != before[i as int].key);
                    }
                    if i < w {
                        assert(before[i as int].key != before[w].key);
                    }
                }
                let entry = self.cache.remove(i);
                assert(self@ =~= before.remove(i as int));
                assert forall|a: int| 0 <= a < self@.len() implies (#[trigger] self@[a]).key
                    != key by {
                    let x = if a < i {
                        a
                    } else {
                        a + 1
                    };
                    assert(self@[a] == before[x]);
                    if x < i {
                        assert(before[x].key != before[i as int].key);
                    } else {
                        assert(before[i as int].key != before[x].key);
                    }
                }
                assert forall|a: int, b: int| 0 <= a < b < self@.len() implies (
                #[trigger] self@[a]).key != (#[trigger] self@[b]).key by {
                    let x = if a < i {
                        a
                    } else {
                        a + 1
                    };
                    let y = if b < i {
                        b
                    } else {
                        b + 1
                    };
                    assert(self@[a] == before[x]);
                    assert(self@[b] == before[y]);
                }
                Some(entry)
            },
        }
    }

    /// Looks the name up among the static hosts and in the cache, at the
    /// time `now`.
    ///
    /// An answer of the cache counts while `now` is before its expiry, and
    /// is then the answer used last. One that has expired is dropped.
    pub fn lookup(&mut self, name: &str, qtype: QueryType, now: u64) -> (r: Answer)
        requires
            old(self).wf(),
        ensures
            final(self).wf(),
            final(self).hosts() == old(self).hosts(),
            final(self).limit() == old(self).limit(),
            match static_answer(old(self).hosts(), name@, qtype) {
                Some(a) => r matches Answer::Static(found) && found@ == a && final(self)@ == old(
                    self,
                )@,
                None => match position(old(self)@, (name@, qtype)) {
                    Some(i) => if now < old(self)@[i].expires {
                        &&& r matches Answer::Cached(found)
                        &&& found@ == old(self)@[i].addresses
                        &&& final(self)@ == old(self)@.remove(i).push(old(self)@[i])
                    } else {
                        r is Miss && final(self)@ == old(self)@.remove(i)
                    },
                    None => r is Miss && final(self)@ == old(self)@,
                },
            },
    {
        if let Some(found) = self.lookup_static(name, qtype) {
            return Answer::Static(found);
        }
        let ghost before = self@;
        proof {
            lemma_position(before, (name@, qtype));
        }
        match self.forget(name, qtype) {
            None => Answer::Miss,
            Some(entry) => {
                if now < entry.expires {
                    let found = entry.addresses.clone();
                    let ghost rest = self@;
                    self.cache.push(entry);
                    assert(self@ =~= rest.push(entry@));
                    assert forall|a: int, b: int| 0 <= a < b < self@.len() implies (
                    #[trigger] self@[a]).key != (#[trigger] self@[b]).key by {
                        assert(self@[a] == rest[a]);
                        if b < rest.len() {
                            assert(self@[b] == rest[b]);
                        }
                    }
                    Answer::Cached(found)
                } else {
                    Answer::Miss
                }
            },
        }
    }

    /// Stores what the servers answered for the name and kind at the time
    /// `now`, to count for `ttl` milliseconds.
    pub fn store(&mut self, name: String, qtype: QueryType, addresses: Vec<IpAddress>, ttl: u64, now: u64)
        requires
            old(self).wf(),
        ensures
            final(self).wf(),
            final(self).hosts() == old(self).hosts(),
            final(self).limit() == old(self).limit(),
            final(self)@ == stored(
                old(self)@,
                old(self).limit() as nat,
                CachedAnswer {
                    key: (name@, qtype),
                    addresses: addresses@,
                    expires: if now + ttl > u64::MAX {
                        u64::MAX
                    } else {
                        (now + ttl) as u64
                    },
                },
            ),
    {
        let _ = self.forget(name.as_str(), qtype);
        if self.capacity == 0 {
            return ;
        }
        if self.cache.len() >= self.capacity {
            let ghost full = self@;
            let _ = self.cache.remove(0);
            assert(self@ =~= full.drop_first());
            assert forall|a: int, b: int| 0 <= a < b < self@.len() implies (#[trigger] self@[a]).key
                != (#[trigger] self@[b]).key by {
                assert(self@[a] == full[a + 1]);
                assert(self@[b] == full[b + 1]);
            }
            assert forall|a: int| 0 <= a < self@.len() implies (#[trigger] self@[a]).key != (
                name@,
                qtype,
            ) by {
                assert(self@[a] == full[a + 1]);
            }
        }
        let expires = if ttl > u64::MAX - now {
            u64::MAX
        } else {
            now + ttl
        };
        let ghost rest = self@;
        let entry = CacheEntry { name, qtype, addresses, expires };
        self.cache.push(entry);
        assert(self@ =~= rest.push(entry@));
        assert forall|a: int, b: int| 0 <= a < b < self@.len() implies (#[trigger] self@[a]).key != (
        #[trigger] self@[b]).key by {
            assert(self@[a] == rest[a]);
            if b < rest.len() {
                assert(self@[b] == rest[b]);
            }
        }
    }

    /// The number of answers in the cache.
    pub fn len(&self) -> (r: usize)
        ensures
            r == self@.len(),
    {
        self.cache.len()
    }
}

/// The addresses of the kind that is asked for.
fn select(addresses: &Vec<IpAddress>, qtype: QueryType) -> (r: Vec<IpAddress>)
    ensures
        r@ == of_kind(addresses@, qtype),
{
    let ghost wanted = |ip: IpAddress| of_type(ip, qtype);
    let mut out: Vec<IpAddress> = Vec::new();
    let mut i: usize = 0;
    proof {
        reveal(Seq::filter);
        assert(addresses@.take(0) =~= Seq::<IpAddress>::empty());
    }
    while i < addresses.len()
        invariant
            i <= addresses.len(),
            wanted == |ip: IpAddress| of_type(ip, qtype),
            out@ == addresses@.take(i as int).filter(wanted),
        decreases addresses.len() - i,
    {
        let ip = addresses[i];
        proof {
            reveal(Seq::filter);
            assert(addresses@.take(i + 1).drop_last() =~= addresses@.take(i as int));
        }
        let keep = match (ip, qtype) {
            (IpAddress::V4(_), QueryType::A) => true,
            (IpAddress::V6(_), QueryType::Aaaa) => true,
            _ => false,
        };
        if keep {
            out.push(ip);
        }
        i += 1;
    }
    assert(addresses@.take(addresses@.len() as int) =~= addresses@);
    out
}

/// In a cache without two answers for one name and kind, two answers with
/// the same key are the same answer.
pub proof fn lemma_one_answer_per_key(entries: Seq<CachedAnswer>, i: int, j: int)
    requires
        distinct_answers(entries),
        0 <= i < entries.len(),
        0 <= j < entries.len(),
        entries[i].key == entries[j].key,
    ensures
        i == j,
{
    if i < j {
        assert(entries[i].key != entries[j].key);
    }
    if j < i {
        assert(entries[j].key != entries[i].key);
    }
}

} // verus!
