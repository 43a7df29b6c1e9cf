use ostrich::nat_manager::Flow;
use ostrich::nat_manager::Installed;
use ostrich::nat_manager::NatError;
use ostrich::nat_manager::NatKey;
use ostrich::nat_manager::NatManager;
use ostrich::nat_manager::DEFAULT_IDLE_MS;
use ostrich::session::Destination;
use ostrich::session::IpAddress;
use ostrich::session::SocketAddress;

fn client(port: u16) -> SocketAddress {
    SocketAddress { ip: IpAddress::V4(0x7f000001), port }
}

fn dns() -> Destination {
    Destination::Ip(SocketAddress { ip: IpAddress::V4(0x08080808), port: 53 })
}

fn key(port: u16, destination: Destination) -> NatKey {
    NatKey { source: client(port), destination }
}

fn flow(n: u64) -> Flow {
    Flow { endpoint: n, downlink: 1000 + n }
}

#[test]
fn two_datagrams_of_one_flow_share_one_entry() {
    let mut table = NatManager::new(DEFAULT_IDLE_MS, 16);
    assert_eq!(table.lookup(&key(5000, dns()), 0), None);
    assert_eq!(table.install(key(5000, dns()), flow(1), 0), Ok(Installed::New));
    assert_eq!(table.len(), 1);
    assert_eq!(table.lookup(&key(5000, dns()), 100), Some(flow(1)));
    assert_eq!(table.len(), 1);
}

#[test]
fn second_install_for_a_key_loses() {
    let mut table = NatManager::new(DEFAULT_IDLE_MS, 16);
    assert_eq!(table.install(key(5000, dns()), flow(1), 0), Ok(Installed::New));
    assert_eq!(table.install(key(5000, dns()), flow(2), 5), Ok(Installed::Lost(flow(1))));
    assert_eq!(table.len(), 1);
    assert_eq!(table.lookup(&key(5000, dns()), 6), Some(flow(1)));
}

#[test]
fn keys_differ_by_source_and_by_destination() {
    let mut table = NatManager::new(DEFAULT_IDLE_MS, 16);
    let named = Destination::Domain("dns.example".to_string(), 53);
    let other_port = Destination::Domain("dns.example".to_string(), 54);
    assert_eq!(table.install(key(5000, dns()), flow(1), 0), Ok(Installed::New));
    assert_eq!(table.install(key(5001, dns()), flow(2), 0), Ok(Installed::New));
    assert_eq!(table.install(key(5000, named.copy()), flow(3), 0), Ok(Installed::New));
    assert_eq!(table.install(key(5000, other_port), flow(4), 0), Ok(Installed::New));
    assert_eq!(table.len(), 4);
    assert_eq!(table.lookup(&key(5000, named), 1), Some(flow(3)));
    assert_eq!(table.lookup(&key(5001, dns()), 1), Some(flow(2)));
    assert_eq!(
        table.lookup(&key(5000, Destination::Domain("dns.exampl".to_string(), 53)), 1),
        None
    );
}

#[test]
fn idle_entry_is_swept() {
    let mut table = NatManager::new(500, 16);
    assert_eq!(table.install(key(5000, dns()), flow(1), 0), Ok(Installed::New));
    assert_eq!(table.sweep(499), vec![]);
    assert_eq!(table.len(), 1);
    assert_eq!(table.sweep(1000), vec![flow(1)]);
    assert_eq!(table.len(), 0);
    assert_eq!(table.lookup(&key(5000, dns()), 1000), None);
}

#[test]
fn use_keeps_an_entry_from_the_sweep() {
    let mut table = NatManager::new(500, 16);
    assert_eq!(table.install(key(1, dns()), flow(1), 0), Ok(Installed::New));
    assert_eq!(table.install(key(2, dns()), flow(2), 0), Ok(Installed::New));
    assert_eq!(table.install(key(3, dns()), flow(3), 0), Ok(Installed::New));
    assert_eq!(table.lookup(&key(2, dns()), 400), Some(flow(2)));
    assert_eq!(table.sweep(500), vec![flow(1), flow(3)]);
    assert_eq!(table.len(), 1);
    assert_eq!(table.sweep(899), vec![]);
    assert_eq!(table.sweep(900), vec![flow(2)]);
}

#[test]
fn clock_that_runs_back_sweeps_nothing() {
    let mut table = NatManager::new(500, 16);
    assert_eq!(table.install(key(1, dns()), flow(1), 10000), Ok(Installed::New));
    assert_eq!(table.sweep(0), vec![]);
    assert_eq!(table.len(), 1);
}

#[test]
fn default_idle_interval_is_two_minutes() {
    assert_eq!(DEFAULT_IDLE_MS, 2 * 60 * 1000);
    let mut table = NatManager::new(DEFAULT_IDLE_MS, 16);
    assert_eq!(table.install(key(1, dns()), flow(1), 0), Ok(Installed::New));
    assert_eq!(table.sweep(119999), vec![]);
    assert_eq!(table.sweep(120000), vec![flow(1)]);
}

#[test]
fn full_table_refuses_a_new_flow() {
    let mut table = NatManager::new(DEFAULT_IDLE_MS, 2);
    assert_eq!(table.install(key(1, dns()), flow(1), 0), Ok(Installed::New));
    assert_eq!(table.install(key(2, dns()), flow(2), 0), Ok(Installed::New));
    assert_eq!(table.install(key(3, dns()), flow(3), 0), Err(NatError::ResourceExhausted));
    assert_eq!(table.install(key(2, dns()), flow(4), 0), Ok(Installed::Lost(flow(2))));
    assert_eq!(table.len(), 2);
    assert_eq!(table.close(&key(1, dns())), Some(flow(1)));
    assert_eq!(table.install(key(3, dns()), flow(3), 0), Ok(Installed::New));
}

#[test]
fn closed_flow_leaves_the_table() {
    let mut table = NatManager::new(DEFAULT_IDLE_MS, 16);
    assert_eq!(table.install(key(1, dns()), flow(1), 0), Ok(Installed::New));
    assert_eq!(table.install(key(2, dns()), flow(2), 0), Ok(Installed::New));
    assert_eq!(table.close(&key(1, dns())), Some(flow(1)));
    assert_eq!(table.close(&key(1, dns())), None);
    assert_eq!(table.len(), 1);
    assert_eq!(table.lookup(&key(2, dns()), 1), Some(flow(2)));
}
