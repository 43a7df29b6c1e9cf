//! Bringing the tun device up, and following the host's network.
//!
//! The device `utun233` is served by a helper process that forwards to the
//! local socks inbound. This module gives the commands that set the device
//! up on each platform, and decides what to do when an interface of the
//! host comes up while the gateway runs.

use crate::command::command;
use crate::command::Command;
use crate::inbound::Platform;
use vstd::prelude::*;

verus! {

/// A command as its name and its words.
pub type CommandLine = (Seq<char>, Seq<Seq<char>>);

/// The command lines of a list of commands.
pub open spec fn lines_of(commands: Seq<Command>) -> Seq<CommandLine> {
    Seq::new(commands.len(), |i: int| (commands[i].name(), commands[i].words()))
}

/// The command that starts the helper process at `path`.
pub fn tun2socks_command(path: &str, platform: Platform) -> (r: Command)
    ensures
        r.name() == path@,
        r.words() == seq![
            "-device"@,
            "tun://utun233"@,
            "-proxy"@,
            "socks5://127.0.0.1:1086"@,
            "-loglevel"@,
            if platform is Windows {
                "error"@
            } else {
                "debug"@
            },
        ],
{
    let level = match platform {
        Platform::Windows => "error",
        _ => "debug",
    };
    let r = command(
        path,
        &["-device", "tun://utun233", "-proxy", "socks5://127.0.0.1:1086", "-loglevel", level],
    );
    assert(r.words() =~= seq![
        "-device"@,
        "tun://utun233"@,
        "-proxy"@,
        "socks5://127.0.0.1:1086"@,
        "-loglevel"@,
        if platform is Windows {
            "error"@
        } else {
            "debug"@
        },
    ]);
    r
}

/// What is run before the helper process is started.
pub open spec fn device_lines(platform: Platform, address: Seq<char>) -> Seq<CommandLine> {
    if platform is Linux {
        seq![
            ("ip"@, seq!["tuntap"@, "del"@, "mode"@, "tun"@, "dev"@, "utun233"@]),
            ("ip"@, seq!["tuntap"@, "add"@, "mode"@, "tun"@, "dev"@, "utun233"@]),
            ("ip"@, seq!["addr"@, "add"@, address, "dev"@, "utun233"@]),
            ("ip"@, seq!["link"@, "set"@, "dev"@, "utun233"@, "up"@]),
        ]
    } else {
        Seq::empty()
    }
}

/// The commands that create the device before the helper process is
/// started: on Linux the device is made anew, given `address` and brought
/// up; elsewhere the helper creates it.
pub fn tun_device_commands(platform: Platform, address: &str) -> (r: Vec<Command>)
    ensures
        lines_of(r@) == device_lines(platform, address@),
{
    let mut out: Vec<Command> = Vec::new();
    match platform {
        Platform::Linux => {
            let del = command("ip", &["tuntap", "del", "mode", "tun", "dev", "utun233"]);
            let add = command("ip", &["tuntap", "add", "mode", "tun", "dev", "utun233"]);
            let addr = command("ip", &["addr", "add", address, "dev", "utun233"]);
            let up = command("ip", &["link", "set", "dev", "utun233", "up"]);
            proof {
                assert(del.words() =~= seq!["tuntap"@, "del"@, "mode"@, "tun"@, "dev"@, "utun233"@]);
                assert(add.words() =~= seq!["tuntap"@, "add"@, "mode"@, "tun"@, "dev"@, "utun233"@]);
                assert(addr.words() =~= seq!["addr"@, "add"@, address@, "dev"@, "utun233"@]);
                assert(up.words() =~= seq!["link"@, "set"@, "dev"@, "utun233"@, "up"@]);
            }
            out.push(del);
            out.push(add);
            out.push(addr);
            out.push(up);
        },
        _ => {},
    }
    assert(lines_of(out@) =~= device_lines(platform, address@));
    out
}

/// How long to wait, in seconds, after the device commands have run.
pub fn tun_settle_seconds(platform: Platform) -> (r: u64)
    ensures
        r == if platform is Linux {
            3u64
        } else {
            0u64
        },
{
    match platform {
        Platform::Linux => 3,
        _ => 0,
    }
}

/// What is run once the helper process has been started.
pub open spec fn up_lines(platform: Platform) -> Seq<CommandLine> {
    if platform is Macos {
        seq![("ifconfig"@, seq!["utun233"@, "172.7.0.2"@, "172.7.0.2"@, "up"@])]
    } else {
        Seq::empty()
    }
}

/// The commands that bring the device up once the helper process has been
/// started: on macOS the device is given its address; elsewhere nothing.
pub fn tun_up_commands(platform: Platform) -> (r: Vec<Command>)
    ensures
        lines_of(r@) == up_lines(platform),
{
    let mut out: Vec<Command> = Vec::new();
    match platform {
        Platform::Macos => {
            let up = command("ifconfig", &["utun233", "172.7.0.2", "172.7.0.2", "up"]);
            assert(up.words() =~= seq!["utun233"@, "172.7.0.2"@, "172.7.0.2"@, "up"@]);
            out.push(up);
        },
        _ => {},
    }
    assert(lines_of(out@) =~= up_lines(platform));
    out
}

/// Whether the device is among the interfaces named `names`.
pub fn tun_device_present(names: &Vec<String>) -> (r: bool)
    ensures
        r == exists|i: int| 0 <= i < names@.len() && (#[trigger] names@[i])@ == "utun233"@,
{
    let mut i: usize = 0;
    while i < names.len()
        invariant
            i <= names.len(),
            forall|j: int| 0 <= j < i ==> (#[trigger] names@[j])@ != "utun233"@,
        decreases names.len() - i,
    {
        if names[i].as_str().eq("utun233") {
            return true;
        }
        i += 1;
    }
    false
}

/// The command line that routes `ip` through `gateway`.
pub open spec fn route_add_line(ip: Seq<char>, gateway: Seq<char>) -> CommandLine {
    ("route"@, seq!["add"@, ip, gateway, "metric"@, "3"@])
}

/// What is run on Windows once the device is there: the device gets its
/// address and its resolver, and each address of `ipset` is routed through
/// `gateway`, past the device.
pub open spec fn route_lines(gateway: Seq<char>, ipset: Seq<String>) -> Seq<CommandLine> {
    seq![
        (
            "netsh"@,
            seq![
                "interface"@,
                "ip"@,
                "set"@,
                "address"@,
                "utun233"@,
                "static"@,
                "172.7.0.2"@,
                "255.255.255.0"@,
                "172.7.0.1"@,
                "3"@,
            ],
        ),
        (
            "netsh"@,
            seq![
                "interface"@,
                "ip"@,
                "set"@,
                "dns"@,
                "name=utun233"@,
                "static"@,
                "127.0.0.1"@,
            ],
        ),
    ] + Seq::new(ipset.len(), |i: int| route_add_line(ipset[i]@, gateway))
}

/// Appends the commands of `route_lines` to `out`.
fn push_route_commands(out: &mut Vec<Command>, gateway: &str, ipset: &Vec<String>)
    ensures
        lines_of(final(out)@) == lines_of(old(out)@) + route_lines(gateway@, ipset@),
{
    let ghost before = lines_of(out@);
    let address = command(
        "netsh",
        &[
            "interface",
            "ip",
            "set",
            "address",
            "utun233",
            "static",
            "172.7.0.2",
            "255.255.255.0",
            "172.7.0.1",
            "3",
        ],
    );
    let dns = command(
        "netsh",
        &["interface", "ip", "set", "dns", "name=utun233", "static", "127.0.0.1"],
    );
    proof {
        assert(address.words() =~= seq![
            "interface"@,
            "ip"@,
            "set"@,
            "address"@,
            "utun233"@,
            "static"@,
            "172.7.0.2"@,
            "255.255.255.0"@,
            "172.7.0.1"@,
            "3"@,
        ]);
        assert(dns.words() =~= seq![
            "interface"@,
            "ip"@,
            "set"@,
            "dns"@,
            "name=utun233"@,
            "static"@,
            "127.0.0.1"@,
        ]);
    }
    out.push(address);
    out.push(dns);
    let ghost head = lines_of(out@);
    let mut i: usize = 0;
    while i < ipset.len()
        invariant
            i <= ipset.len(),
            head == before + route_lines(gateway@, Seq::<String>::empty()),
            lines_of(out@) == head + Seq::new(
                i as nat,
                |j: int| route_add_line(ipset@[j]@, gateway@),
            ),
        decreases ipset.len() - i,
    {
        let add = command("route", &["add", ipset[i].as_str(), gateway, "metric", "3"]);
        assert(add.words() =~= seq!["add"@, ipset@[i as int]@, gateway@, "metric"@, "3"@]);
        let ghost so_far = lines_of(out@);
        out.push(add);
        assert(lines_of(out@) =~= so_far.push(route_add_line(ipset@[i as int]@, gateway@)));
        assert(lines_of(out@) =~= head + Seq::new(
            (i + 1) as nat,
            |j: int| route_add_line(ipset@[j]@, gateway@),
        ));
        i += 1;
    }
    assert(lines_of(out@) =~= before + route_lines(gateway@, ipset@));
}

/// The commands that, on Windows, give the device its address and route the
/// addresses of `ipset` past it, through the host's gateway.
pub fn tun_route_commands(gateway: &str, ipset: &Vec<String>) -> (r: Vec<Command>)
    ensures
        lines_of(r@) == route_lines(gateway@, ipset@),
{
    let mut out: Vec<Command> = Vec::new();
    assert(lines_of(out@) =~= Seq::<CommandLine>::empty());
    push_route_commands(&mut out, gateway, ipset);
    assert(lines_of(out@) =~= route_lines(gateway@, ipset@));
    out
}

/// The addresses whose coming up is not a change of the host's network: the
/// device's own two and the loopback.
pub open spec fn own_address(addr: Seq<char>) -> bool {
    addr == "172.7.0.2"@ || addr == "172.7.0.1"@ || addr == "127.0.0.1"@
}

/// Whether an interface that came up with the address `addr` is a change of
/// the host's network: the address is an IPv4 one and none of the gateway's own.
pub fn reacts_to(addr: &str, is_ipv4: bool) -> (r: bool)
    ensures
        r == (is_ipv4 && !own_address(addr@)),
{
    is_ipv4 && !addr.eq("172.7.0.2") && !addr.eq("172.7.0.1") && !addr.eq("127.0.0.1")
}

/// What is run on Windows when the host's network has changed: the default
/// route through the device is deleted and, where the host's new gateway is
/// known, the device and the routes past it are set up again.
pub open spec fn reroute_lines(gateway: Option<Seq<char>>, ipset: Seq<String>) -> Seq<CommandLine> {
    seq![("route"@, seq!["delete"@, "0.0.0.0"@, "172.7.0.1"@])] + match gateway {
        Some(gw) => route_lines(gw, ipset),
        None => Seq::empty(),
    }
}

/// The commands to run on Windows when the host's network has changed.
/// `gateway` is the host's default gateway, `None` where it could not be read.
pub fn reroute_commands(gateway: Option<&str>, ipset: &Vec<String>) -> (r: Vec<Command>)
    ensures
        lines_of(r@) == reroute_lines(
            match gateway {
                Some(gw) => Some(gw@),
                None => None,
            },
            ipset@,
        ),
{
    let mut out: Vec<Command> = Vec::new();
    let delete = command("route", &["delete", "0.0.0.0", "172.7.0.1"]);
    assert(delete.words() =~= seq!["delete"@, "0.0.0.0"@, "172.7.0.1"@]);
    out.push(delete);
    let ghost head = lines_of(out@);
    assert(head =~= seq![("route"@, seq!["delete"@, "0.0.0.0"@, "172.7.0.1"@])]);
    match gateway {
        Some(gw) => {
            push_route_commands(&mut out, gw, ipset);
        },
        None => {
            assert(lines_of(out@) =~= head + Seq::<CommandLine>::empty());
        },
    }
    out
}

/// What the host knows of its own network.
pub struct NetInfo {
    pub default_ipv4_gateway: Option<String>,
    pub default_ipv6_gateway: Option<String>,
    pub default_ipv4_address: Option<String>,
    pub default_ipv6_address: Option<String>,
    pub ipv4_forwarding: bool,
    pub ipv6_forwarding: bool,
    pub default_interface: Option<String>,
}

/// What to do after the host's network was read, when an interface came up.
pub enum WatchStep {
    /// Bind outgoing sockets to this interface, set the routes up for the
    /// network that was read and remember it; the event is dealt with.
    Rebind(String),
    /// Remember that the network has changed; the event is dealt with.
    MarkChanged,
    /// The event is dealt with and nothing is to be done.
    Done,
    /// Read the network again after this many milliseconds.
    Retry(u64),
}

/// The step for each reading of the host's network.
pub open spec fn watch_step(
    platform: Platform,
    info: Option<NetInfo>,
    up_addr: Seq<char>,
    init_ipv4: Seq<char>,
) -> WatchStep {
    match info {
        None => WatchStep::Retry(7000),
        Some(info) => match (info.default_interface, info.default_ipv4_address) {
            (Some(iface), Some(ip)) => if ip@ != "172.7.0.2"@ {
                WatchStep::Rebind(iface)
            } else if platform is Macos {
                WatchStep::Retry(100)
            } else if init_ipv4 != up_addr {
                WatchStep::MarkChanged
            } else {
                WatchStep::Done
            },
            _ => WatchStep::Retry(0),
        },
    }
}

/// Decides what to do when an interface came up with the address `up_addr`
/// and the host's network was read again.
///
/// `info` is what was read, `None` where reading failed; `init_ipv4` is the
/// host's address when the gateway started. While the host's default
/// address is still the device's own, macOS reads again after a tenth of a
/// second; other platforms note the change if the new address differs from
/// the first one. A failed reading is tried again after seven seconds, an
/// incomplete one at once.
pub fn on_net_info(platform: Platform, info: Option<&NetInfo>, up_addr: &str, init_ipv4: &str) -> (r:
    WatchStep)
    ensures
        match (
            r,
            watch_step(
                platform,
                match info {
                    Some(i) => Some(*i),
                    None => None,
                },
                up_addr@,
                init_ipv4@,
            ),
        ) {
            (WatchStep::Rebind(a), WatchStep::Rebind(b)) => a@ == b@,
            (WatchStep::MarkChanged, WatchStep::MarkChanged) => true,
            (WatchStep::Done, WatchStep::Done) => true,
            (WatchStep::Retry(a), WatchStep::Retry(b)) => a == b,
            _ => false,
        },
{
    let info = match info {
        Some(info) => info,
        None => {
            return WatchStep::Retry(7000);
        },
    };
    match (&info.default_interface, &info.default_ipv4_address) {
        (Some(iface), Some(ip)) => {
            if !ip.as_str().eq("172.7.0.2") {
                WatchStep::Rebind(iface.clone())
            } else {
                match platform {
                    Platform::Macos => WatchStep::Retry(100),
                    _ => if !init_ipv4.eq(up_addr) {
                        WatchStep::MarkChanged
                    } else {
                        WatchStep::Done
                    },
                }
            }
        },
        _ => WatchStep::Retry(0),
    }
}

/// Whether the host's routes are put back when the runtime has ended: the
/// host's default address is known and is not the device's own, and, except
/// on macOS, the network has not changed while the gateway ran.
pub fn restores_routes(platform: Platform, network_changed: bool, info: &NetInfo) -> (r: bool)
    ensures
        r == ({
            &&& platform is Macos || (platform is Linux && !network_changed)
            &&& info.default_ipv4_address matches Some(ip)
            &&& ip@ != "172.7.0.2"@
        }),
{
    let considered = match platform {
        Platform::Macos => true,
        Platform::Linux => !network_changed,
        _ => false,
    };
    match &info.default_ipv4_address {
        Some(ip) => considered && !ip.as_str().eq("172.7.0.2"),
        None => false,
    }
}

} // verus!
