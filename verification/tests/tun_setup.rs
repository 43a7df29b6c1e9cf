use ostrich::command::Command;
use ostrich::inbound::Platform;
use ostrich::tun::on_net_info;
use ostrich::tun::reacts_to;
use ostrich::tun::reroute_commands;
use ostrich::tun::restores_routes;
use ostrich::tun::tun2socks_command;
use ostrich::tun::tun_device_commands;
use ostrich::tun::tun_device_present;
use ostrich::tun::tun_route_commands;
use ostrich::tun::tun_settle_seconds;
use ostrich::tun::tun_up_commands;
use ostrich::tun::NetInfo;
use ostrich::tun::WatchStep;

fn line(c: &Command) -> String {
    format!("{} {}", c.program, c.args.join(" "))
}

fn lines(commands: &[Command]) -> Vec<String> {
    commands.iter().map(line).collect()
}

fn net_info(interface: Option<&str>, address: Option<&str>) -> NetInfo {
    NetInfo {
        default_ipv4_gateway: None,
        default_ipv6_gateway: None,
        default_ipv4_address: address.map(|s| s.to_string()),
        default_ipv6_address: None,
        ipv4_forwarding: false,
        ipv6_forwarding: false,
        default_interface: interface.map(|s| s.to_string()),
    }
}

#[test]
fn helper_process_is_started_with_the_device_and_the_proxy() {
    let c = tun2socks_command("C:\\assets\\tun2socks.exe", Platform::Windows);
    assert_eq!(c.program, "C:\\assets\\tun2socks.exe");
    assert_eq!(
        c.args,
        vec!["-device", "tun://utun233", "-proxy", "socks5://127.0.0.1:1086", "-loglevel", "error"]
    );
    let c = tun2socks_command("/opt/tun2socks", Platform::Linux);
    assert_eq!(c.args[5], "debug");
    assert_eq!(tun2socks_command("/opt/tun2socks", Platform::Macos).args[5], "debug");
}

#[test]
fn linux_makes_the_device_before_the_helper_starts() {
    assert_eq!(
        lines(&tun_device_commands(Platform::Linux, "172.7.0.2")),
        vec![
            "ip tuntap del mode tun dev utun233",
            "ip tuntap add mode tun dev utun233",
            "ip addr add 172.7.0.2 dev utun233",
            "ip link set dev utun233 up",
        ]
    );
    assert_eq!(tun_device_commands(Platform::Macos, "172.7.0.2").len(), 0);
    assert_eq!(tun_device_commands(Platform::Windows, "172.7.0.2").len(), 0);
    assert_eq!(tun_settle_seconds(Platform::Linux), 3);
    assert_eq!(tun_settle_seconds(Platform::Windows), 0);
}

#[test]
fn macos_gives_the_device_its_address() {
    assert_eq!(
        lines(&tun_up_commands(Platform::Macos)),
        vec!["ifconfig utun233 172.7.0.2 172.7.0.2 up"]
    );
    assert_eq!(tun_up_commands(Platform::Linux).len(), 0);
    assert_eq!(tun_up_commands(Platform::Windows).len(), 0);
}

#[test]
fn device_is_looked_for_by_name() {
    let names = vec!["lo".to_string(), "utun233".to_string()];
    assert!(tun_device_present(&names));
    assert!(!tun_device_present(&vec!["lo".to_string(), "utun23".to_string()]));
    assert!(!tun_device_present(&vec![]));
}

#[test]
fn windows_routes_the_ipset_past_the_device() {
    let ipset = vec!["1.1.1.1".to_string(), "8.8.8.8".to_string()];
    assert_eq!(
        lines(&tun_route_commands("192.168.1.1", &ipset)),
        vec![
            "netsh interface ip set address utun233 static 172.7.0.2 255.255.255.0 172.7.0.1 3",
            "netsh interface ip set dns name=utun233 static 127.0.0.1",
            "route add 1.1.1.1 192.168.1.1 metric 3",
            "route add 8.8.8.8 192.168.1.1 metric 3",
        ]
    );
    assert_eq!(tun_route_commands("192.168.1.1", &vec![]).len(), 2);
}

#[test]
fn windows_sets_the_routes_up_again_when_the_network_changes() {
    let ipset = vec!["1.1.1.1".to_string()];
    assert_eq!(
        lines(&reroute_commands(Some("10.0.0.1"), &ipset)),
        vec![
            "route delete 0.0.0.0 172.7.0.1",
            "netsh interface ip set address utun233 static 172.7.0.2 255.255.255.0 172.7.0.1 3",
            "netsh interface ip set dns name=utun233 static 127.0.0.1",
            "route add 1.1.1.1 10.0.0.1 metric 3",
        ]
    );
    assert_eq!(lines(&reroute_commands(None, &ipset)), vec!["route delete 0.0.0.0 172.7.0.1"]);
}

#[test]
fn own_addresses_coming_up_are_ignored() {
    assert!(reacts_to("192.168.1.20", true));
    assert!(!reacts_to("192.168.1.20", false));
    assert!(!reacts_to("172.7.0.2", true));
    assert!(!reacts_to("172.7.0.1", true));
    assert!(!reacts_to("127.0.0.1", true));
}

#[test]
fn network_reading_decides_the_next_step() {
    let good = net_info(Some("en0"), Some("192.168.1.20"));
    for platform in [Platform::Linux, Platform::Macos] {
        match on_net_info(platform, Some(&good), "192.168.1.20", "192.168.1.10") {
            WatchStep::Rebind(interface) => assert_eq!(interface, "en0"),
            _ => panic!("the interface must be bound"),
        }
    }
    let own = net_info(Some("utun233"), Some("172.7.0.2"));
    assert!(matches!(
        on_net_info(Platform::Macos, Some(&own), "192.168.1.20", "192.168.1.10"),
        WatchStep::Retry(100)
    ));
    assert!(matches!(
        on_net_info(Platform::Linux, Some(&own), "192.168.1.20", "192.168.1.10"),
        WatchStep::MarkChanged
    ));
    assert!(matches!(
        on_net_info(Platform::Linux, Some(&own), "192.168.1.10", "192.168.1.10"),
        WatchStep::Done
    ));
    assert!(matches!(
        on_net_info(Platform::Linux, None, "192.168.1.20", "192.168.1.10"),
        WatchStep::Retry(7000)
    ));
    let partial = net_info(None, Some("192.168.1.20"));
    assert!(matches!(
        on_net_info(Platform::Linux, Some(&partial), "192.168.1.20", "192.168.1.10"),
        WatchStep::Retry(0)
    ));
}

#[test]
fn routes_are_put_back_only_for_a_real_default_address() {
    let real = net_info(Some("en0"), Some("192.168.1.20"));
    let own = net_info(Some("utun233"), Some("172.7.0.2"));
    let none = net_info(Some("en0"), None);
    assert!(restores_routes(Platform::Macos, true, &real));
    assert!(restores_routes(Platform::Macos, false, &real));
    assert!(restores_routes(Platform::Linux, false, &real));
    assert!(!restores_routes(Platform::Linux, true, &real));
    assert!(!restores_routes(Platform::Linux, false, &own));
    assert!(!restores_routes(Platform::Macos, false, &none));
    assert!(!restores_routes(Platform::Windows, false, &real));
}
