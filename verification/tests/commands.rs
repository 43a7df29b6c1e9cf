use ostrich::cmd::CmdError;
use ostrich::command::add_default_ipv4_route;
use ostrich::command::add_default_ipv6_route;
use ostrich::command::add_interface_ipv4_address;
use ostrich::command::add_interface_ipv6_address;
use ostrich::command::command;
use ostrich::command::decimal;
use ostrich::command::delete_default_ipv4_route;
use ostrich::command::delete_default_ipv6_route;
use ostrich::command::get_default_ipv6_gateway;
use ostrich::command::Adapter;
use ostrich::command::Gateway;

const INTERFACES: &str = "\nIdx  Met  MTU  State  Name\n---  ---  ---  -----  ----\n  1   75  4294967295  connected  Loopback\n 12   25  1500  connected  Ethernet\n";

fn adapter(name: &str, metric: u32, index: u32, gateways: &[(&str, bool)]) -> Adapter {
    Adapter {
        adapter_name: name.to_string(),
        ipv4_metric: metric,
        ipv6_if_index: index,
        gateways: gateways
            .iter()
            .map(|g| Gateway { address: g.0.to_string(), is_ipv6: g.1 })
            .collect(),
    }
}

#[test]
fn command_keeps_program_and_arguments() {
    let c = command("route", &["-4", "delete", "0.0.0.0/0"]);
    assert_eq!(c.program, "route");
    assert_eq!(c.args, vec!["-4", "delete", "0.0.0.0/0"]);
    assert_eq!(command("ip", &[]).args.len(), 0);
}

#[test]
fn numbers_are_written_in_decimal() {
    for n in [0u32, 7, 9, 10, 11, 99, 100, 1234567890, u32::MAX] {
        assert_eq!(decimal(n), n.to_string());
    }
}

#[test]
fn interface_address_commands() {
    let c = add_interface_ipv4_address("utun233", "172.7.0.2", "172.7.0.1", "255.255.255.0");
    assert_eq!(c.program, "netsh");
    assert_eq!(
        c.args,
        vec![
            "interface",
            "ipv4",
            "set",
            "address",
            "utun233",
            "static",
            "172.7.0.2",
            "255.255.255.0",
            "172.7.0.1",
            "store=active"
        ]
    );
    let c = add_interface_ipv6_address("utun233", "fd00::2", 64);
    assert_eq!(c.program, "netsh");
    assert_eq!(
        c.args,
        vec![
            "interface",
            "ipv6",
            "set",
            "address",
            "interface=utun233",
            "address=fd00::2",
            "store=active"
        ]
    );
}

#[test]
fn default_ipv4_route_uses_the_index_of_the_last_adapter_by_metric() {
    let adapters = vec![
        adapter("eth", 50, 21, &[]),
        adapter("wifi", 10, 9, &[]),
        adapter("eth", 50, 22, &[]),
        adapter("eth", 20, 23, &[]),
    ];
    let c = add_default_ipv4_route(&adapters, "192.168.1.1", "eth", true);
    assert_eq!(c.program, "netsh");
    assert_eq!(
        c.args,
        vec![
            "interface",
            "ipv4",
            "add",
            "route",
            "0.0.0.0/0",
            "22",
            "192.168.1.1",
            "metric=1",
            "store=active"
        ]
    );
    let c = add_default_ipv4_route(&adapters, "192.168.1.1", "missing", false);
    assert_eq!(c.args[5], "0");
    assert_eq!(c.args[7], "");
    assert_eq!(c.args.len(), 9);
}

#[test]
fn adapter_choice_agrees_with_a_stable_sort() {
    let metrics = [5u32, 1, 5, 3, 9, 9, 0];
    let mut adapters = Vec::new();
    for (i, m) in metrics.iter().enumerate() {
        let name = if i % 2 == 0 { "a" } else { "b" };
        adapters.push(adapter(name, *m, 100 + i as u32, &[]));
    }
    for name in ["a", "b"] {
        let mut order: Vec<usize> = (0..adapters.len()).collect();
        order.sort_by(|x, y| adapters[*x].ipv4_metric.cmp(&adapters[*y].ipv4_metric));
        let mut expected = 0;
        for i in order {
            if adapters[i].adapter_name == name {
                expected = adapters[i].ipv6_if_index;
            }
        }
        let c = add_default_ipv4_route(&adapters, "10.0.0.1", name, false);
        assert_eq!(c.args[5], expected.to_string());
    }
}

#[test]
fn default_ipv6_route_reads_the_interface_index() {
    let c = add_default_ipv6_route(INTERFACES, "fe80::1", "Ethernet", true).unwrap();
    assert_eq!(c.program, "netsh");
    assert_eq!(
        c.args,
        vec!["interface", "ipv6", "add", "route", "::/0", "12", "fe80::1", "store=active"]
    );
    assert_eq!(
        add_default_ipv6_route(INTERFACES, "fe80::1", "wlan0", true).err(),
        Some(CmdError::NoInterfaceEntry)
    );
}

#[test]
fn default_routes_are_deleted_with_or_without_scope() {
    let c = delete_default_ipv4_route(Some("Ethernet"), INTERFACES).unwrap();
    assert_eq!(c.program, "netsh");
    assert_eq!(
        c.args,
        vec!["interface", "ipv4", "delete", "route", "0.0.0.0/0", "if", "12", "store=active"]
    );
    let c = delete_default_ipv4_route(None, "").unwrap();
    assert_eq!(c.program, "route");
    assert_eq!(c.args, vec!["-4", "delete", "0.0.0.0/0"]);
    let c = delete_default_ipv6_route(Some("Loopback"), INTERFACES).unwrap();
    assert_eq!(c.program, "netsh");
    assert_eq!(
        c.args,
        vec!["interface", "ipv4", "delete", "route", "::/0", "if", "1", "store=active"]
    );
    let c = delete_default_ipv6_route(None, "").unwrap();
    assert_eq!(c.program, "route");
    assert_eq!(c.args, vec!["-6", "delete", "::/0"]);
    assert_eq!(
        delete_default_ipv6_route(Some("wlan0"), INTERFACES).err(),
        Some(CmdError::NoInterfaceEntry)
    );
}

#[test]
fn ipv6_gateway_comes_from_the_adapter_of_the_ipv4_gateway() {
    let adapters = vec![
        adapter("a", 30, 1, &[("192.168.1.1", false), ("fe80::a", true), ("fe80::b", true)]),
        adapter("b", 10, 2, &[("192.168.1.1", false), ("fe80::c", true)]),
        adapter("c", 90, 3, &[("10.0.0.1", false), ("fe80::d", true)]),
        adapter("d", 95, 4, &[("192.168.1.1", false)]),
    ];
    assert_eq!(get_default_ipv6_gateway(&adapters, Some("192.168.1.1")), Ok("fe80::b".to_string()));
    assert_eq!(get_default_ipv6_gateway(&adapters, Some("10.0.0.1")), Ok("fe80::d".to_string()));
    assert_eq!(get_default_ipv6_gateway(&adapters, Some("172.16.0.1")), Ok(String::new()));
    assert_eq!(get_default_ipv6_gateway(&adapters, None), Err(CmdError::InvalidGateway));
    assert_eq!(get_default_ipv6_gateway(&vec![], None), Ok(String::new()));
}

#[test]
fn rules_need_no_command() {
    assert_eq!(ostrich::command::add_default_ipv4_rule("10.0.0.1"), Ok(()));
    assert_eq!(ostrich::command::add_default_ipv6_rule("fd00::1"), Ok(()));
    assert_eq!(ostrich::command::delete_default_ipv4_rule("10.0.0.1"), Ok(()));
    assert_eq!(ostrich::command::delete_default_ipv6_rule("fd00::1"), Ok(()));
}
