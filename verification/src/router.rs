//! The router: from a session to the tag of an outbound.
//!
//! Rules are tried in the order in which they were configured. A rule
//! matches a session where all its predicates hold of it, and the first rule
//! that matches gives the tag. Predicates on addresses look at the
//! destination's address or, for a domain name, at the addresses the caller
//! has resolved it to; a name that could not be resolved has none, so such
//! predicates do not hold and the next rule is tried.

use crate::session::Destination;
use crate::session::IpAddress;
use crate::session::Network;
use crate::session::Session;
use crate::text::chars_of;
use vstd::arithmetic::power2::pow2;
use vstd::prelude::*;

verus! {

/// A network: the addresses that agree with an address in their first bits.
/// The prefix of a network is never longer than its address.
#[derive(Debug, Clone, Copy, PartialEq, Eq, Structural)]
pub struct Cidr {
    addr: IpAddress,
    prefix: u8,
}

/// The number of bits of an address.
pub open spec fn width(a: IpAddress) -> nat {
    match a {
        IpAddress::V4(_) => 32,
        IpAddress::V6(_) => 128,
    }
}

/// The address as a number.
pub open spec fn number(a: IpAddress) -> nat {
    match a {
        IpAddress::V4(n) => n as nat,
        IpAddress::V6(n) => n as nat,
    }
}

impl Cidr {
    #[verifier::type_invariant]
    spec fn fits(self) -> bool {
        self.prefix <= width(self.addr)
    }

    /// The address the network is given by.
    pub closed spec fn base(self) -> IpAddress {
        self.addr
    }

    /// The number of leading bits that the addresses of the network share.
    pub closed spec fn bits(self) -> nat {
        self.prefix as nat
    }

    /// `ip` lies in the network: it is of the same family and agrees with
    /// the network's address in the leading bits.
    pub open spec fn holds(self, ip: IpAddress) -> bool {
        &&& width(ip) == width(self.base())
        &&& number(ip) / pow2((width(ip) - self.bits()) as nat) == number(self.base()) / pow2(
            (width(ip) - self.bits()) as nat,
        )
    }

    /// The network of `addr` with a prefix of `prefix` bits; `None` where
    /// the prefix is longer than the address.
    pub fn new(addr: IpAddress, prefix: u8) -> (r: Option<Cidr>)
        ensures
            match r {
                Some(c) => c.base() == addr && c.bits() == prefix && prefix <= width(addr),
                None => prefix > width(addr),
            },
    {
        let bits: u8 = match addr {
            IpAddress::V4(_) => 32,
            IpAddress::V6(_) => 128,
        };
        if prefix <= bits {
            Some(Cidr { addr, prefix })
        } else {
            None
        }
    }

    /// Whether `ip` lies in the network.
    pub fn contains(&self, ip: IpAddress) -> (r: bool)
        ensures
            r == self.holds(ip),
    {
        proof {
            use_type_invariant(self);
        }
        match (self.addr, ip) {
            (IpAddress::V4(net), IpAddress::V4(n)) => {
                if self.prefix == 0 {
                    proof {
                        vstd::arithmetic::power2::lemma2_to64();
                        assert(net as nat / 0x1_0000_0000nat == 0);
                        assert(n as nat / 0x1_0000_0000nat == 0);
                    }
                    true
                } else {
                    let shift: u32 = 32 - self.prefix as u32;
                    proof {
                        vstd::bits::lemma_u32_shr_is_div(net, shift);
                        vstd::bits::lemma_u32_shr_is_div(n, shift);
                        assert(shift as nat == (width(ip) - self.prefix) as nat);
                    }
                    (net >> shift) == (n >> shift)
                }
            },
            (IpAddress::V6(net), IpAddress::V6(n)) => {
                if self.prefix == 0 {
                    proof {
                        lemma_pow2_128();
                        assert(net as nat / 0x1_0000_0000_0000_0000_0000_0000_0000_0000nat == 0);
                        assert(n as nat / 0x1_0000_0000_0000_0000_0000_0000_0000_0000nat == 0);
                    }
                    true
                } else {
                    let shift: u128 = 128 - self.prefix as u128;
                    proof {
                        vstd::bits::lemma_u128_shr_is_div(net, shift);
                        vstd::bits::lemma_u128_shr_is_div(n, shift);
                        assert(shift as nat == (width(ip) - self.prefix) as nat);
                    }
                    (net >> shift) == (n >> shift)
                }
            },
            _ => false,
        }
    }
}

proof fn lemma_pow2_128()
    ensures
        pow2(128) == 0x1_0000_0000_0000_0000_0000_0000_0000_0000nat,
{
    vstd::arithmetic::power2::lemma2_to64();
    vstd::arithmetic::power2::lemma_pow2_adds(64, 64);
    assert(pow2(64) == 0x1_0000_0000_0000_0000);
    assert(0x1_0000_0000_0000_0000int * 0x1_0000_0000_0000_0000int
        == 0x1_0000_0000_0000_0000_0000_0000_0000_0000int) by (nonlinear_arith);
}

/// A letter of `A` to `Z` as its small letter, any other character as itself.
pub open spec fn fold_case(c: char) -> int {
    if 'A' <= c <= 'Z' {
        c as int + 32
    } else {
        c as int
    }
}

/// The two names are the same but for the case of their ASCII letters.
pub open spec fn same_name(a: Seq<char>, b: Seq<char>) -> bool {
    &&& a.len() == b.len()
    &&& forall|i: int| 0 <= i < a.len() ==> fold_case(#[trigger] a[i]) == fold_case(b[i])
}

/// `name` is `suffix`, or ends in a dot followed by `suffix`.
pub open spec fn dot_suffix(suffix: Seq<char>, name: Seq<char>) -> bool {
    ||| name == suffix
    ||| {
        &&& name.len() > suffix.len()
        &&& name.skip(name.len() - suffix.len()) == suffix
        &&& name[name.len() - suffix.len() - 1] == '.'
    }
}

/// `word` occurs in `name` at position `i`.
pub open spec fn occurs_at(word: Seq<char>, name: Seq<char>, i: int) -> bool {
    0 <= i && i + word.len() <= name.len() && name.subrange(i, i + word.len()) == word
}

/// `word` occurs in `name`.
pub open spec fn has_keyword(word: Seq<char>, name: Seq<char>) -> bool {
    exists|i: int| occurs_at(word, name, i)
}

fn fold(c: char) -> (r: u32)
    ensures
        r == fold_case(c),
{
    let n: u32 = c as u32;
    if 0x41 <= n && n <= 0x5a {
        n + 32
    } else {
        n
    }
}

/// Whether two names are the same but for the case of their ASCII letters.
pub fn names_equal(a: &Vec<char>, b: &Vec<char>) -> (r: bool)
    ensures
        r == same_name(a@, b@),
{
    if a.len() != b.len() {
        return false;
    }
    let mut i: usize = 0;
    while i < a.len()
        invariant
            i <= a.len(),
            a.len() == b.len(),
            forall|j: int| 0 <= j < i ==> fold_case(#[trigger] a@[j]) == fold_case(b@[j]),
        decreases a.len() - i,
    {
        if fold(a[i]) != fold(b[i]) {
            return false;
        }
        i += 1;
    }
    true
}

/// Whether `word` stands in `name` at position `at`.
fn stands_at(word: &Vec<char>, name: &Vec<char>, at: usize) -> (r: bool)
    requires
        at + word.len() <= name.len(),
    ensures
        r == occurs_at(word@, name@, at as int),
{
    let ghost window = name@.subrange(at as int, at + word.len());
    let mut i: usize = 0;
    while i < word.len()
        invariant
            i <= word.len(),
            at + word.len() <= name.len(),
            window == name@.subrange(at as int, at + word.len()),
            forall|j: int| 0 <= j < i ==> #[trigger] window[j] == word@[j],
        decreases word.len() - i,
    {
        assert(window[i as int] == name@[at + i]);
        if name[at + i] != word[i] {
            return false;
        }
        i += 1;
    }
    assert(window =~= word@);
    true
}

/// Whether `name` is `suffix` or ends in a dot followed by `suffix`.
pub fn ends_with_domain(suffix: &Vec<char>, name: &Vec<char>) -> (r: bool)
    ensures
        r == dot_suffix(suffix@, name@),
{
    if name.len() < suffix.len() {
        return false;
    }
    let at = name.len() - suffix.len();
    let tail = stands_at(suffix, name, at);
    proof {
        assert(name@.subrange(at as int, at + suffix.len()) =~= name@.skip(at as int));
        if at == 0 {
            assert(name@.skip(0) =~= name@);
        }
    }
    if at == 0 {
        tail
    } else {
        tail && name[at - 1] == '.'
    }
}

/// Whether `word` occurs in `name`.
pub fn contains_keyword(word: &Vec<char>, name: &Vec<char>) -> (r: bool)
    ensures
        r == has_keyword(word@, name@),
{
    if name.len() < word.len() {
        return false;
    }
    let last = name.len() - word.len();
    let mut at: usize = 0;
    while at < last
        invariant
            at <= last,
            last == name.len() - word.len(),
            forall|i: int| 0 <= i < at ==> !occurs_at(word@, name@, i),
        decreases last - at,
    {
        if stands_at(word, name, at) {
            return true;
        }
        at += 1;
    }
    stands_at(word, name, last)
}

/// One entry of the country database: a network and the code of its country.
pub struct GeoEntry {
    pub network: Cidr,
    pub country: String,
}

/// The country of `ip` by the database: that of the first entry whose
/// network holds it.
pub open spec fn country_of(geo: Seq<GeoEntry>, ip: IpAddress) -> Option<Seq<char>>
    decreases geo.len(),
{
    if geo.len() == 0 {
        None
    } else if geo[0].network.holds(ip) {
        Some(geo[0].country@)
    } else {
        country_of(geo.drop_first(), ip)
    }
}

/// What a rule asks of a session.
pub enum Predicate {
    /// The destination is this domain name, whatever the case of its letters.
    DomainFull(String),
    /// The destination is a domain name that is this name or ends in a dot
    /// followed by it.
    DomainSuffix(String),
    /// The destination is a domain name in which this word occurs.
    DomainKeyword(String),
    /// An address of the destination lies in this network.
    IpCidr(Cidr),
    /// An address of the destination lies in the country with this code.
    GeoIp(String),
    /// The destination's port lies between the two, both included.
    PortRange(u16, u16),
    /// The flow is of this kind.
    Network(Network),
    /// The flow was accepted by the inbound with this tag.
    InboundTag(String),
}

/// A routing rule: the predicates that must all hold, and the tag of the
/// outbound the rule sends to.
pub struct Rule {
    pub predicates: Vec<Predicate>,
    pub target_tag: String,
    /// The networks of the rule as they were configured. The router does
    /// not read them; they are routed past the tun device.
    pub ip_cidrs: Vec<String>,
}

/// The addresses of a session's destination: the destination itself where
/// it is an address, else what its name was resolved to.
pub open spec fn addresses_of(session: Session, resolved: Seq<IpAddress>) -> Seq<IpAddress> {
    match session.destination {
        Destination::Ip(a) => seq![a.ip],
        Destination::Domain(_, _) => resolved,
    }
}

/// The predicate holds of the session.
pub open spec fn holds(
    p: Predicate,
    session: Session,
    resolved: Seq<IpAddress>,
    geo: Seq<GeoEntry>,
) -> bool {
    match p {
        Predicate::DomainFull(name) => session.destination matches Destination::Domain(d, _)
            && same_name(name@, d@),
        Predicate::DomainSuffix(suffix) => session.destination matches Destination::Domain(d, _)
            && dot_suffix(suffix@, d@),
        Predicate::DomainKeyword(word) => session.destination matches Destination::Domain(d, _)
            && has_keyword(word@, d@),
        Predicate::IpCidr(network) => exists|i: int|
            0 <= i < addresses_of(session, resolved).len() && network.holds(
                #[trigger] addresses_of(session, resolved)[i],
            ),
        Predicate::GeoIp(code) => exists|i: int|
            0 <= i < addresses_of(session, resolved).len() && country_of(
                geo,
                #[trigger] addresses_of(session, resolved)[i],
            ) == Some(code@),
        Predicate::PortRange(low, high) => low <= session.destination.port_of() <= high,
        Predicate::Network(kind) => session.network == kind,
        Predicate::InboundTag(tag) => session.inbound_tag@ == tag@,
    }
}

/// All predicates of the rule hold of the session.
pub open spec fn rule_matches(
    rule: Rule,
    session: Session,
    resolved: Seq<IpAddress>,
    geo: Seq<GeoEntry>,
) -> bool {
    forall|i: int|
        0 <= i < rule.predicates@.len() ==> holds(
            #[trigger] rule.predicates@[i],
            session,
            resolved,
            geo,
        )
}

/// The position of the first rule that matches the session.
pub open spec fn first_match(
    rules: Seq<Rule>,
    session: Session,
    resolved: Seq<IpAddress>,
    geo: Seq<GeoEntry>,
) -> Option<int>
    decreases rules.len(),
{
    if rules.len() == 0 {
        None
    } else if rule_matches(rules[0], session, resolved, geo) {
        Some(0)
    } else {
        match first_match(rules.drop_first(), session, resolved, geo) {
            Some(i) => Some(i + 1),
            None => None,
        }
    }
}

/// The router.
pub struct Router {
    rules: Vec<Rule>,
    geo: Vec<GeoEntry>,
}

/// Looks `ip` up in the country database.
fn lookup_country<'a>(geo: &'a Vec<GeoEntry>, ip: IpAddress) -> (r: Option<&'a String>)
    ensures
        match country_of(geo@, ip) {
            Some(code) => r matches Some(s) && s@ == code,
            None => r is None,
        },
{
    let mut i: usize = 0;
    assert(geo@.skip(0) =~= geo@);
    while i < geo.len()
        invariant
            i <= geo.len(),
            country_of(geo@, ip) == country_of(geo@.skip(i as int), ip),
        decreases geo.len() - i,
    {
        let ghost rest = geo@.skip(i as int);
        assert(rest[0] == geo@[i as int]);
        assert(rest.drop_first() =~= geo@.skip(i + 1));
        if geo[i].network.contains(ip) {
            return Some(&geo[i].country);
        }
        i += 1;
    }
    None
}

impl Router {
    /// The rules, in the order in which they are tried.
    pub closed spec fn rules(&self) -> Seq<Rule> {
        self.rules@
    }

    /// The country database.
    pub closed spec fn geo(&self) -> Seq<GeoEntry> {
        self.geo@
    }

    /// The tag the router gives for a session: the target of the first rule
    /// that matches, none where no rule matches.
    pub open spec fn route(&self, session: Session, resolved: Seq<IpAddress>) -> Option<Seq<char>> {
        match first_match(self.rules(), session, resolved, self.geo()) {
            Some(i) => Some(self.rules()[i].target_tag@),
            None => None,
        }
    }

    /// A router with these rules and this country database.
    pub fn new(rules: Vec<Rule>, geo: Vec<GeoEntry>) -> (r: Self)
        ensures
            r.rules() == rules@,
            r.geo() == geo@,
    {
        Router { rules, geo }
    }

    /// Whether the predicate holds of the session.
    fn check(&self, p: &Predicate, session: &Session, name: &Option<Vec<char>>, resolved: &Vec<
        IpAddress,
    >) -> (r: bool)
        requires
            match session.destination {
                Destination::Domain(d, _) => name matches Some(chars) && chars@ == d@,
                Destination::Ip(_) => name is None,
            },
        ensures
            r == holds(*p, *session, resolved@, self.geo()),
    {
        match p {
            Predicate::DomainFull(full) => match name {
                Some(chars) => names_equal(&chars_of(full.as_str()), chars),
                None => false,
            },
            Predicate::DomainSuffix(suffix) => match name {
                Some(chars) => ends_with_domain(&chars_of(suffix.as_str()), chars),
                None => false,
            },
            Predicate::DomainKeyword(word) => match name {
                Some(chars) => contains_keyword(&chars_of(word.as_str()), chars),
                None => false,
            },
            Predicate::IpCidr(network) => match &session.destination {
                Destination::Ip(a) => {
                    let r = network.contains(a.ip);
                    assert(addresses_of(*session, resolved@)[0] == a.ip);
                    r
                },
                Destination::Domain(_, _) => {
                    let mut i: usize = 0;
                    while i < resolved.len()
                        invariant
                            i <= resolved.len(),
                            *p == Predicate::IpCidr(*network),
                            addresses_of(*session, resolved@) == resolved@,
                            forall|j: int| 0 <= j < i ==> !network.holds(#[trigger] resolved@[j]),
                        decreases resolved.len() - i,
                    {
                        if network.contains(resolved[i]) {
                            assert(network.holds(addresses_of(*session, resolved@)[i as int]));
                            return true;
                        }
                        i += 1;
                    }
                    false
                },
            },
            Predicate::GeoIp(code) => match &session.destination {
                Destination::Ip(a) => {
                    assert(addresses_of(*session, resolved@)[0] == a.ip);
                    match lookup_country(&self.geo, a.ip) {
                        Some(found) => found.as_str().eq(code.as_str()),
                        None => false,
                    }
                },
                Destination::Domain(_, _) => {
                    let mut i: usize = 0;
                    while i < resolved.len()
                        invariant
                            i <= resolved.len(),
                            *p == Predicate::GeoIp(*code),
                            addresses_of(*session, resolved@) == resolved@,
                            forall|j: int|
                                0 <= j < i ==> country_of(self.geo(), #[trigger] resolved@[j])
                                    != Some(code@),
                        decreases resolved.len() - i,
                    {
                        let hit = match lookup_country(&self.geo, resolved[i]) {
                            Some(found) => found.as_str().eq(code.as_str()),
                            None => false,
                        };
                        if hit {
                            assert(country_of(
                                self.geo(),
                                addresses_of(*session, resolved@)[i as int],
                            ) == Some(code@));
                            return true;
                        }
                        i += 1;
                    }
                    false
                },
            },
            Predicate::PortRange(low, high) => {
                let port = session.destination.port();
                *low <= port && port <= *high
            },
            Predicate::Network(kind) => match (kind, session.network) {
                (Network::Tcp, Network::Tcp) => true,
                (Network::Udp, Network::Udp) => true,
                _ => false,
            },
            Predicate::InboundTag(tag) => session.inbound_tag.as_str().eq(tag.as_str()),
        }
    }

    /// The tag of the outbound that the session is sent to: the target of
    /// the first rule all of whose predicates hold, `None` where no rule
    /// matches and the default outbound is to be used.
    ///
    /// `resolved` holds the addresses that the destination's name was
    /// resolved to; it is empty where the name could not be resolved, and
    /// is not read where the destination is an address.
    pub fn pick_route(&self, session: &Session, resolved: &Vec<IpAddress>) -> (r: Option<&String>)
        ensures
            match r {
                Some(tag) => self.route(*session, resolved@) == Some(tag@),
                None => self.route(*session, resolved@) is None,
            },
    {
        let name: Option<Vec<char>> = match &session.destination {
            Destination::Domain(d, _) => Some(chars_of(d.as_str())),
            Destination::Ip(_) => None,
        };
        let mut k: usize = 0;
        assert(self.rules@.skip(0) =~= self.rules@);
        while k < self.rules.len()
            invariant
                k <= self.rules.len(),
                match session.destination {
                    Destination::Domain(d, _) => name matches Some(chars) && chars@ == d@,
                    Destination::Ip(_) => name is None,
                },
                first_match(self.rules(), *session, resolved@, self.geo()) == match first_match(
                    self.rules().skip(k as int),
                    *session,
                    resolved@,
                    self.geo(),
                ) {
                    Some(i) => Some(i + k),
                    None => None,
                },
            decreases self.rules.len() - k,
        {
            let rule = &self.rules[k];
            let ghost rest = self.rules().skip(k as int);
            assert(rest[0] == self.rules()[k as int]);
            assert(rest.drop_first() =~= self.rules().skip(k + 1));
            let mut all = true;
            let mut j: usize = 0;
            while j < rule.predicates.len() && all
                invariant
                    j <= rule.predicates.len(),
                    k < self.rules.len(),
                    *rule == self.rules()[k as int],
                    match session.destination {
                        Destination::Domain(d, _) => name matches Some(chars) && chars@ == d@,
                        Destination::Ip(_) => name is None,
                    },
                    all ==> forall|i: int|
                        0 <= i < j ==> holds(
                            #[trigger] rule.predicates@[i],
                            *session,
                            resolved@,
                            self.geo(),
                        ),
                    !all ==> !rule_matches(*rule, *session, resolved@, self.geo()),
                decreases rule.predicates.len() - j,
            {
                assert(self.rules()[k as int].predicates@[j as int] == rule.predicates@[j as int]);
                if !self.check(&rule.predicates[j], session, &name, resolved) {
                    all = false;
                }
                j += 1;
            }
            if all {
                return Some(&rule.target_tag);
            }
            k += 1;
        }
        None
    }
}

/// Two answers of the router to the same session, with the same rules and
/// the same resolved addresses, name the same tag.
pub proof fn lemma_route_deterministic(
    router: Router,
    session: Session,
    resolved: Seq<IpAddress>,
    first: Option<&String>,
    second: Option<&String>,
)
    requires
        match first {
            Some(tag) => router.route(session, resolved) == Some(tag@),
            None => router.route(session, resolved) is None,
        },
        match second {
            Some(tag) => router.route(session, resolved) == Some(tag@),
            None => router.route(session, resolved) is None,
        },
    ensures
        match (first, second) {
            (Some(a), Some(b)) => a@ == b@,
            (None, None) => true,
            _ => false,
        },
{
}

} // verus!
