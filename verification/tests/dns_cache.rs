use ostrich::dns_client::conclude;
use ostrich::dns_client::Answer;
use ostrich::dns_client::DnsClient;
use ostrich::dns_client::DnsError;
use ostrich::dns_client::QueryType;
use ostrich::dns_client::ServerOutcome;
use ostrich::dns_client::StaticHost;
use ostrich::session::IpAddress;

fn v4(n: u32) -> IpAddress {
    IpAddress::V4(n)
}

fn v6(n: u128) -> IpAddress {
    IpAddress::V6(n)
}

fn hosts() -> Vec<StaticHost> {
    vec![
        StaticHost { name: "six.example".to_string(), addresses: vec![v6(6)] },
        StaticHost { name: "nas.home".to_string(), addresses: vec![v4(1), v6(2), v4(3)] },
        StaticHost { name: "nas.home".to_string(), addresses: vec![v4(9)] },
        StaticHost { name: "six.example".to_string(), addresses: vec![v4(7)] },
    ]
}

#[test]
fn static_host_answers_before_the_cache() {
    let mut dns = DnsClient::new(hosts(), 4);
    dns.store("nas.home".to_string(), QueryType::A, vec![v4(100)], 1000, 0);
    assert_eq!(dns.lookup("nas.home", QueryType::A, 1), Answer::Static(vec![v4(1), v4(3)]));
    assert_eq!(dns.lookup("nas.home", QueryType::Aaaa, 1), Answer::Static(vec![v6(2)]));
    assert_eq!(dns.lookup("six.example", QueryType::A, 1), Answer::Static(vec![v4(7)]));
    assert_eq!(dns.lookup("six.example", QueryType::Aaaa, 1), Answer::Static(vec![v6(6)]));
    assert_eq!(dns.lookup("NAS.home", QueryType::A, 1), Answer::Miss);
    assert_eq!(dns.len(), 1);
}

#[test]
fn answer_counts_until_it_expires() {
    let mut dns = DnsClient::new(vec![], 4);
    assert_eq!(dns.lookup("a.example", QueryType::A, 0), Answer::Miss);
    dns.store("a.example".to_string(), QueryType::A, vec![v4(1), v4(2)], 500, 100);
    assert_eq!(dns.lookup("a.example", QueryType::A, 599), Answer::Cached(vec![v4(1), v4(2)]));
    assert_eq!(dns.lookup("a.example", QueryType::Aaaa, 599), Answer::Miss);
    assert_eq!(dns.len(), 1);
    assert_eq!(dns.lookup("a.example", QueryType::A, 600), Answer::Miss);
    assert_eq!(dns.len(), 0);
    assert_eq!(dns.lookup("a.example", QueryType::A, 0), Answer::Miss);
}

#[test]
fn answer_that_never_expires_is_kept() {
    let mut dns = DnsClient::new(vec![], 4);
    dns.store("a.example".to_string(), QueryType::A, vec![v4(1)], u64::MAX, 5);
    assert_eq!(dns.lookup("a.example", QueryType::A, u64::MAX - 1), Answer::Cached(vec![v4(1)]));
    assert_eq!(dns.lookup("a.example", QueryType::A, u64::MAX), Answer::Miss);
}

#[test]
fn newer_answer_replaces_the_older() {
    let mut dns = DnsClient::new(vec![], 4);
    dns.store("a.example".to_string(), QueryType::A, vec![v4(1)], 500, 0);
    dns.store("a.example".to_string(), QueryType::A, vec![v4(2)], 500, 10);
    assert_eq!(dns.len(), 1);
    assert_eq!(dns.lookup("a.example", QueryType::A, 20), Answer::Cached(vec![v4(2)]));
}

#[test]
fn answer_used_longest_ago_makes_room() {
    let mut dns = DnsClient::new(vec![], 2);
    dns.store("a".to_string(), QueryType::A, vec![v4(1)], 1000, 0);
    dns.store("b".to_string(), QueryType::A, vec![v4(2)], 1000, 0);
    assert_eq!(dns.lookup("a", QueryType::A, 1), Answer::Cached(vec![v4(1)]));
    dns.store("c".to_string(), QueryType::A, vec![v4(3)], 1000, 2);
    assert_eq!(dns.len(), 2);
    assert_eq!(dns.lookup("b", QueryType::A, 3), Answer::Miss);
    assert_eq!(dns.lookup("a", QueryType::A, 3), Answer::Cached(vec![v4(1)]));
    assert_eq!(dns.lookup("c", QueryType::A, 3), Answer::Cached(vec![v4(3)]));
}

#[test]
fn cache_for_no_answers_stores_none() {
    let mut dns = DnsClient::new(vec![], 0);
    dns.store("a".to_string(), QueryType::A, vec![v4(1)], 1000, 0);
    assert_eq!(dns.len(), 0);
    assert_eq!(dns.lookup("a", QueryType::A, 1), Answer::Miss);
}

#[test]
fn first_server_with_addresses_gives_the_answer() {
    let outcomes = vec![
        ServerOutcome::TimedOut,
        ServerOutcome::Answered(vec![]),
        ServerOutcome::Answered(vec![v4(8)]),
        ServerOutcome::Answered(vec![v4(9)]),
    ];
    assert_eq!(conclude(&outcomes), Ok(vec![v4(8)]));
}

#[test]
fn failures_are_told_apart() {
    assert_eq!(conclude(&vec![]), Err(DnsError::AllServersFailed));
    assert_eq!(
        conclude(&vec![ServerOutcome::TimedOut, ServerOutcome::TimedOut]),
        Err(DnsError::Timeout)
    );
    assert_eq!(
        conclude(&vec![ServerOutcome::TimedOut, ServerOutcome::Failed]),
        Err(DnsError::AllServersFailed)
    );
    assert_eq!(conclude(&vec![ServerOutcome::Failed]), Err(DnsError::AllServersFailed));
    assert_eq!(
        conclude(&vec![ServerOutcome::Failed, ServerOutcome::Answered(vec![]), ServerOutcome::TimedOut]),
        Err(DnsError::EmptyAnswer)
    );
}
