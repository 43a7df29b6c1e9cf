use ostrich::cmd::get_default_ipv4_gateway;
use ostrich::cmd::get_default_ipv4_interface_index;
use ostrich::cmd::get_default_ipv4_route_entry;
use ostrich::cmd::get_interface_entries;
use ostrich::cmd::get_interface_entry;
use ostrich::cmd::get_interface_index;
use ostrich::cmd::get_ipv4_route_entries;
use ostrich::cmd::CmdError;

const ROUTES: &str = "\r\nPublish  Type      Met  Prefix                    Idx  Gateway/Interface Name\r\n-------  --------  ---  ------------------------  ---  ------------------------\r\nNo       Manual    0    0.0.0.0/0                  12  192.168.1.1\r\nNo       System    256  127.0.0.0/8                 1  Loopback Pseudo-Interface 1\r\n\r\nNo       Manual    5    0.0.0.0/0                  7  10.0.0.1\r\n";

const INTERFACES: &str = "\nIdx     Met         MTU          State                Name\n---  ----------  ----------  ------------  ---------------------------\n  1          75  4294967295  connected     Loopback\n 12          25        1500  connected     Ethernet\n  7          35        1500  connected     utun233\n";

fn strings(row: &[&str]) -> Vec<String> {
    row.iter().map(|s| s.to_string()).collect()
}

#[test]
fn route_table_rows_are_split_into_columns() {
    let rows = get_ipv4_route_entries(ROUTES);
    assert_eq!(rows.len(), 3);
    assert_eq!(rows[0], strings(&["No", "Manual", "0", "0.0.0.0/0", "12", "192.168.1.1"]));
    assert_eq!(
        rows[1],
        strings(&["No", "System", "256", "127.0.0.0/8", "1", "Loopback", "Pseudo-Interface", "1"])
    );
    assert_eq!(rows[2], strings(&["No", "Manual", "5", "0.0.0.0/0", "7", "10.0.0.1"]));
}

#[test]
fn heading_only_gives_no_rows() {
    assert_eq!(get_ipv4_route_entries("a\nb\nc\n").len(), 0);
    assert_eq!(get_ipv4_route_entries("a\nb\nc").len(), 0);
    assert_eq!(get_ipv4_route_entries("").len(), 0);
    assert_eq!(get_interface_entries("a\nb").len(), 0);
}

#[test]
fn last_default_route_wins() {
    assert_eq!(
        get_default_ipv4_route_entry(ROUTES),
        Ok(strings(&["No", "Manual", "5", "0.0.0.0/0", "7", "10.0.0.1"]))
    );
    assert_eq!(get_default_ipv4_gateway(ROUTES), Ok("10.0.0.1".to_string()));
    assert_eq!(get_default_ipv4_interface_index(ROUTES), Ok("7".to_string()));
}

#[test]
fn missing_default_route_is_reported() {
    let text = "h\nh\nh\nNo System 256 127.0.0.0/8 1 Loopback\n";
    assert_eq!(get_default_ipv4_route_entry(text), Err(CmdError::NoDefaultRoute));
    assert_eq!(get_default_ipv4_gateway(text), Err(CmdError::NoDefaultRoute));
}

#[test]
fn short_rows_are_reported() {
    let text = "h\nh\nh\nNo Manual 0\nNo Manual 5 0.0.0.0/0 7 10.0.0.1\n";
    assert_eq!(get_default_ipv4_route_entry(text), Err(CmdError::MalformedRow));
    let text = "h\nh\nh\nNo Manual 5 0.0.0.0/0 7\n";
    assert_eq!(get_default_ipv4_gateway(text), Err(CmdError::MalformedRow));
    assert_eq!(get_default_ipv4_interface_index(text), Ok("7".to_string()));
}

#[test]
fn interface_is_found_by_name() {
    assert_eq!(
        get_interface_entry(INTERFACES, "Ethernet"),
        Ok(strings(&["12", "25", "1500", "connected", "Ethernet"]))
    );
    assert_eq!(get_interface_index(INTERFACES, "utun233"), Ok("7".to_string()));
    assert_eq!(get_interface_index(INTERFACES, "wlan0"), Err(CmdError::NoInterfaceEntry));
}

#[test]
fn interface_rows_give_their_indices() {
    assert_eq!(
        ostrich::cmd::get_interface_indices(INTERFACES),
        strings(&["1", "12", "7"])
    );
    assert_eq!(ostrich::cmd::get_interface_indices("x\ny\nz\n\n  \n").len(), 0);
}

#[test]
fn last_interface_with_the_name_wins() {
    let text = "h\nh\nh\n3 25 1500 connected eth\n4 25 1500 connected eth\n";
    assert_eq!(get_interface_index(text, "eth"), Ok("4".to_string()));
    let text = "h\nh\nh\n3 25 1500 connected eth\n4 25 1500\n";
    assert_eq!(get_interface_entry(text, "eth"), Err(CmdError::MalformedRow));
}

#[test]
fn first_line_below_heading_is_the_ipv6_route() {
    let text = "\nPublish  Type\n-------  ----\nNo       Manual    256  ::/0  12  fe80::1\r\nNo  System\r\n";
    assert_eq!(
        ostrich::cmd::get_default_ipv6_route_entry(text),
        Ok("No       Manual    256  ::/0  12  fe80::1".to_string())
    );
    assert_eq!(
        ostrich::cmd::get_default_ipv6_route_entry("a\nb\nc\nlast line"),
        Ok("last line".to_string())
    );
    assert_eq!(ostrich::cmd::get_default_ipv6_route_entry("a\nb\nc\n\nd"), Ok(String::new()));
    assert_eq!(
        ostrich::cmd::get_default_ipv6_route_entry("a\nb\nc\n"),
        Err(CmdError::NoDefaultIpv6Route)
    );
    assert_eq!(
        ostrich::cmd::get_default_ipv6_route_entry("a\nb"),
        Err(CmdError::NoDefaultIpv6Route)
    );
}

#[test]
fn ipv6_route_line_agrees_with_std_lines() {
    for text in ["a\nb\nc\nd\r\ne", "a\nb\nc\nd\r", "a\nb\nc\n\r\nx", "a\nb\nc\nd e\n", "\n\n\n"] {
        let expected = text.lines().nth(3).map(|l| l.to_string());
        assert_eq!(ostrich::cmd::get_default_ipv6_route_entry(text).ok(), expected);
    }
}

#[test]
fn rows_agree_with_std_splitting() {
    for text in [ROUTES, INTERFACES, "a\n\nb\nc d\u{a0}e\u{3000}f\n \t \ng", "1\n2\n3\n4\r\n\r\n5 6\r"] {
        let expected: Vec<Vec<String>> = text
            .lines()
            .skip(3)
            .filter(|line| !line.trim().is_empty())
            .map(|line| line.split_whitespace().map(str::to_string).collect())
            .collect();
        assert_eq!(get_ipv4_route_entries(text), expected);
        assert_eq!(get_interface_entries(text), expected);
    }
}

#[test]
fn white_space_is_what_std_calls_white_space() {
    for code in 0u32..0x3100 {
        if let Some(c) = char::from_u32(code) {
            assert_eq!(ostrich::cmd::is_space_char(c), c.is_whitespace());
        }
    }
}

#[test]
fn default_interface_is_named_by_the_interface_table() {
    assert_eq!(
        ostrich::cmd::get_default_interface(ROUTES, INTERFACES),
        Ok("utun233".to_string())
    );
    let blank_first = "h\nh\nh\n\n 7 35 1500 connected utun233\n";
    assert_eq!(
        ostrich::cmd::get_default_interface(ROUTES, blank_first),
        Err(CmdError::MalformedRow)
    );
    let blank_after = "h\nh\nh\n 7 35 1500 connected utun233\n\n";
    assert_eq!(
        ostrich::cmd::get_default_interface(ROUTES, blank_after),
        Ok("utun233".to_string())
    );
    let other = "h\nh\nh\n 9 35 1500 connected eth0\n";
    assert_eq!(
        ostrich::cmd::get_default_interface(ROUTES, other),
        Err(CmdError::NoDefaultInterface)
    );
    let short = "h\nh\nh\n 7 35 1500 connected\n";
    assert_eq!(ostrich::cmd::get_default_interface(ROUTES, short), Err(CmdError::MalformedRow));
    assert_eq!(
        ostrich::cmd::get_default_interface("h\nh\nh\n", INTERFACES),
        Err(CmdError::NoDefaultRoute)
    );
}

#[test]
fn forwarding_is_reported_off() {
    assert_eq!(ostrich::cmd::get_ipv4_forwarding(), Ok(false));
    assert_eq!(ostrich::cmd::get_ipv6_forwarding(), Ok(false));
}

#[test]
fn command_errors_have_their_messages() {
    assert_eq!(CmdError::NoDefaultRoute.message(), "cant get default ip route");
    assert_eq!(CmdError::NoInterfaceEntry.message(), "cnat get interface entry");
    assert_eq!(CmdError::NoDefaultInterface.message(), "cnat get default network iinterface");
    assert_eq!(CmdError::NoDefaultIpv6Route.message(), "cnat get default ipv6 route");
    assert_eq!(CmdError::MalformedRow.message(), "malformed row");
}
