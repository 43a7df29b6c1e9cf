//! Command lines for the platform's network tools.
//!
//! Nothing is run here. Each function gives the program and the arguments a
//! caller has to run it with.

use crate::cmd::column;
use crate::cmd::get_interface_index;
use crate::cmd::interface_entry;
use crate::cmd::row_view;
use crate::cmd::table;
use crate::cmd::CmdError;
use vstd::prelude::*;
use vstd::string::StringExecFns;

verus! {

/// A program and the arguments to run it with.
pub struct Command {
    pub program: String,
    pub args: Vec<String>,
}

impl Command {
    /// The program's name.
    pub open spec fn name(&self) -> Seq<char> {
        self.program@
    }

    /// The arguments, in order.
    pub open spec fn words(&self) -> Seq<Seq<char>> {
        row_view(self.args@)
    }
}

/// The strings of `parts`, in order.
pub open spec fn parts_view(parts: Seq<&str>) -> Seq<Seq<char>> {
    Seq::new(parts.len(), |i: int| parts[i]@)
}

/// The command that runs `program` with `parts` as its arguments.
pub fn command(program: &str, parts: &[&str]) -> (r: Command)
    ensures
        r.name() == program@,
        r.words() == parts_view(parts@),
{
    let mut args: Vec<String> = Vec::new();
    let mut i: usize = 0;
    while i < parts.len()
        invariant
            i <= parts.len(),
            args@.len() == i,
            forall|j: int| 0 <= j < i ==> args@[j]@ == parts@[j]@,
        decreases parts.len() - i,
    {
        args.push(parts[i].to_owned());
        i += 1;
    }
    assert(row_view(args@) =~= parts_view(parts@));
    Command { program: program.to_owned(), args }
}

/// The character of a decimal digit.
pub open spec fn digit_char(d: nat) -> char {
    if d == 0 {
        '0'
    } else if d == 1 {
        '1'
    } else if d == 2 {
        '2'
    } else if d == 3 {
        '3'
    } else if d == 4 {
        '4'
    } else if d == 5 {
        '5'
    } else if d == 6 {
        '6'
    } else if d == 7 {
        '7'
    } else if d == 8 {
        '8'
    } else {
        '9'
    }
}

/// A number in decimal, without leading zeros.
pub open spec fn decimal_text(n: nat) -> Seq<char>
    decreases n,
{
    if n < 10 {
        seq![digit_char(n)]
    } else {
        decimal_text(n / 10).push(digit_char(n % 10))
    }
}

fn digit_str(d: u32) -> (r: &'static str)
    requires
        d < 10,
    ensures
        r@ == seq![digit_char(d as nat)],
{
    proof {
        reveal_strlit("0");
        reveal_strlit("1");
        reveal_strlit("2");
        reveal_strlit("3");
        reveal_strlit("4");
        reveal_strlit("5");
        reveal_strlit("6");
        reveal_strlit("7");
        reveal_strlit("8");
        reveal_strlit("9");
    }
    let r = if d == 0 {
        "0"
    } else if d == 1 {
        "1"
    } else if d == 2 {
        "2"
    } else if d == 3 {
        "3"
    } else if d == 4 {
        "4"
    } else if d == 5 {
        "5"
    } else if d == 6 {
        "6"
    } else if d == 7 {
        "7"
    } else if d == 8 {
        "8"
    } else {
        "9"
    };
    assert(r@ =~= seq![digit_char(d as nat)]);
    r
}

/// Writes a number in decimal.
pub fn decimal(n: u32) -> (r: String)
    ensures
        r@ == decimal_text(n as nat),
    decreases n,
{
    if n < 10 {
        digit_str(n).to_owned()
    } else {
        let mut text = decimal(n / 10);
        text.append(digit_str(n % 10));
        assert(text@ =~= decimal_text(n as nat));
        text
    }
}

/// A network adapter as the platform describes it.
pub struct Adapter {
    pub adapter_name: String,
    pub ipv4_metric: u32,
    pub ipv6_if_index: u32,
    pub gateways: Vec<Gateway>,
}

/// A gateway of an adapter: its address in canonical text, and its family.
pub struct Gateway {
    pub address: String,
    pub is_ipv6: bool,
}

/// Adapter `j` comes after adapter `i` when the adapters are put in order of
/// their IPv4 metric, adapters with the same metric staying in their order.
pub open spec fn comes_after(adapters: Seq<Adapter>, i: int, j: int) -> bool {
    adapters[i].ipv4_metric < adapters[j].ipv4_metric || (adapters[i].ipv4_metric
        == adapters[j].ipv4_metric && i < j)
}

/// Among the first `k` adapters, the wanted one that comes last in order of
/// metric.
pub open spec fn last_wanted(adapters: Seq<Adapter>, wanted: spec_fn(Adapter) -> bool, k: nat) -> Option<
    int,
>
    decreases k,
{
    if k == 0 {
        None
    } else {
        let before = last_wanted(adapters, wanted, (k - 1) as nat);
        if !wanted(adapters[k - 1]) {
            before
        } else {
            match before {
                Some(i) => if comes_after(adapters, i, k - 1) {
                    Some(k - 1)
                } else {
                    before
                },
                None => Some(k - 1),
            }
        }
    }
}

/// `last_wanted` gives a wanted adapter after which no other wanted adapter
/// comes, and gives none only where none is wanted.
pub proof fn lemma_last_wanted(adapters: Seq<Adapter>, wanted: spec_fn(Adapter) -> bool, k: nat)
    requires
        k <= adapters.len(),
    ensures
        match last_wanted(adapters, wanted, k) {
            Some(i) => ({
                &&& 0 <= i < k
                &&& wanted(adapters[i])
                &&& forall|j: int|
                    0 <= j < k && j != i && wanted(#[trigger] adapters[j]) ==> comes_after(
                        adapters,
                        j,
                        i,
                    )
            }),
            None => forall|j: int| 0 <= j < k ==> !wanted(#[trigger] adapters[j]),
        },
    decreases k,
{
    if k > 0 {
        lemma_last_wanted(adapters, wanted, (k - 1) as nat);
    }
}

/// The adapter is named `name`.
pub open spec fn named(name: Seq<char>) -> spec_fn(Adapter) -> bool {
    |a: Adapter| a.adapter_name@ == name
}

/// The interface index that the default IPv4 route is added with: that of
/// the adapter named `interface` that comes last in order of metric, 0
/// where no adapter has the name.
pub open spec fn route_interface_index(adapters: Seq<Adapter>, interface: Seq<char>) -> nat {
    match last_wanted(adapters, named(interface), adapters.len()) {
        Some(i) => adapters[i].ipv6_if_index as nat,
        None => 0,
    }
}

/// Sets the address, mask and gateway of the interface `name`.
pub fn add_interface_ipv4_address(name: &str, addr: &str, gw: &str, mask: &str) -> (r: Command)
    ensures
        r.name() == "netsh"@,
        r.words() == seq![
            "interface"@,
            "ipv4"@,
            "set"@,
            "address"@,
            name@,
            "static"@,
            addr@,
            mask@,
            gw@,
            "store=active"@,
        ],
{
    let r = command(
        "netsh",
        &["interface", "ipv4", "set", "address", name, "static", addr, mask, gw, "store=active"],
    );
    assert(r.words() =~= seq![
        "interface"@,
        "ipv4"@,
        "set"@,
        "address"@,
        name@,
        "static"@,
        addr@,
        mask@,
        gw@,
        "store=active"@,
    ]);
    r
}

/// Sets the IPv6 address of the interface `name`. The prefix length is not
/// passed on.
pub fn add_interface_ipv6_address(name: &str, addr: &str, prefixlen: i32) -> (r: Command)
    ensures
        r.name() == "netsh"@,
        r.words() == seq![
            "interface"@,
            "ipv6"@,
            "set"@,
            "address"@,
            "interface="@ + name@,
            "address="@ + addr@,
            "store=active"@,
        ],
{
    let interface = "interface=".to_owned().concat(name);
    let address = "address=".to_owned().concat(addr);
    let r = command(
        "netsh",
        &[
            "interface",
            "ipv6",
            "set",
            "address",
            interface.as_str(),
            address.as_str(),
            "store=active",
        ],
    );
    assert(r.words() =~= seq![
        "interface"@,
        "ipv6"@,
        "set"@,
        "address"@,
        "interface="@ + name@,
        "address="@ + addr@,
        "store=active"@,
    ]);
    r
}

/// Adds the default IPv4 route through `gateway` on the interface named
/// `interface`, with metric 1 where the route is the primary one.
pub fn add_default_ipv4_route(
    adapters: &Vec<Adapter>,
    gateway: &str,
    interface: &str,
    primary: bool,
) -> (r: Command)
    ensures
        r.name() == "netsh"@,
        r.words() == seq![
            "interface"@,
            "ipv4"@,
            "add"@,
            "route"@,
            "0.0.0.0/0"@,
            decimal_text(route_interface_index(adapters@, interface@)),
            gateway@,
            if primary {
                "metric=1"@
            } else {
                ""@
            },
            "store=active"@,
        ],
{
    let mut if_idx: u32 = 0;
    let mut best: u32 = 0;
    let mut found = false;
    let mut k: usize = 0;
    while k < adapters.len()
        invariant
            k <= adapters.len(),
            match last_wanted(adapters@, named(interface@), k as nat) {
                Some(i) => 0 <= i < k && found && best == adapters@[i].ipv4_metric && if_idx
                    == adapters@[i].ipv6_if_index,
                None => !found && if_idx == 0,
            },
        decreases adapters.len() - k,
    {
        proof {
            lemma_last_wanted(adapters@, named(interface@), k as nat);
        }
        let adapter = &adapters[k];
        if adapter.adapter_name.as_str().eq(interface) {
            if !found || best <= adapter.ipv4_metric {
                if_idx = adapter.ipv6_if_index;
                best = adapter.ipv4_metric;
                found = true;
            }
        }
        k += 1;
    }
    let index = decimal(if_idx);
    let metric = if primary {
        "metric=1"
    } else {
        ""
    };
    let r = command(
        "netsh",
        &[
            "interface",
            "ipv4",
            "add",
            "route",
            "0.0.0.0/0",
            index.as_str(),
            gateway,
            metric,
            "store=active",
        ],
    );
    assert(r.words() =~= seq![
        "interface"@,
        "ipv4"@,
        "add"@,
        "route"@,
        "0.0.0.0/0"@,
        decimal_text(route_interface_index(adapters@, interface@)),
        gateway@,
        if primary {
            "metric=1"@
        } else {
            ""@
        },
        "store=active"@,
    ]);
    r
}

/// The words of the command that adds the default IPv6 route.
pub open spec fn add_ipv6_route_words(index: Seq<char>, gateway: Seq<char>) -> Seq<Seq<char>> {
    seq!["interface"@, "ipv6"@, "add"@, "route"@, "::/0"@, index, gateway, "store=active"@]
}

/// Adds the default IPv6 route through `gateway` on the interface named
/// `interface`, whose index is read from `interfaces`, what
/// `netsh interface ip show interface` printed.
pub fn add_default_ipv6_route(interfaces: &str, gateway: &str, interface: &str, primary: bool) -> (r:
    Result<Command, CmdError>)
    ensures
        match column(interface_entry(table(interfaces@), interface@), 0) {
            Ok(index) => r matches Ok(c) && c.name() == "netsh"@ && c.words()
                == add_ipv6_route_words(index, gateway@),
            Err(e) => r matches Err(f) && f == e,
        },
{
    match get_interface_index(interfaces, interface) {
        Err(e) => Err(e),
        Ok(index) => {
            let c = command(
                "netsh",
                &[
                    "interface",
                    "ipv6",
                    "add",
                    "route",
                    "::/0",
                    index.as_str(),
                    gateway,
                    "store=active",
                ],
            );
            assert(c.words() =~= add_ipv6_route_words(index@, gateway@));
            Ok(c)
        },
    }
}

/// The words of the command that deletes the default route to `prefix` on
/// the interface with the index `index`.
pub open spec fn delete_route_words(prefix: Seq<char>, index: Seq<char>) -> Seq<Seq<char>> {
    seq!["interface"@, "ipv4"@, "delete"@, "route"@, prefix, "if"@, index, "store=active"@]
}

/// Deletes the default route to `prefix`: on the interface named by
/// `ifscope`, whose index is read from `interfaces`, or on all interfaces
/// where no scope is given.
fn delete_default_route(family: &str, prefix: &str, ifscope: Option<&str>, interfaces: &str) -> (r:
    Result<Command, CmdError>)
    ensures
        match ifscope {
            Some(scope) => match column(interface_entry(table(interfaces@), scope@), 0) {
                Ok(index) => r matches Ok(c) && c.name() == "netsh"@ && c.words()
                    == delete_route_words(prefix@, index),
                Err(e) => r matches Err(f) && f == e,
            },
            None => r matches Ok(c) && c.name() == "route"@ && c.words() == seq![
                family@,
                "delete"@,
                prefix@,
            ],
        },
{
    match ifscope {
        Some(scope) => match get_interface_index(interfaces, scope) {
            Err(e) => Err(e),
            Ok(index) => {
                let c = command(
                    "netsh",
                    &[
                        "interface",
                        "ipv4",
                        "delete",
                        "route",
                        prefix,
                        "if",
                        index.as_str(),
                        "store=active",
                    ],
                );
                assert(c.words() =~= delete_route_words(prefix@, index@));
                Ok(c)
            },
        },
        None => {
            let c = command("route", &[family, "delete", prefix]);
            assert(c.words() =~= seq![family@, "delete"@, prefix@]);
            Ok(c)
        },
    }
}

/// Deletes the default IPv6 route. With a scope, the route of the
/// interface the scope names, whose index is read from `interfaces`, what
/// `netsh interface ip show interface` printed; without one, `interfaces`
/// is not read.
pub fn delete_default_ipv6_route(ifscope: Option<&str>, interfaces: &str) -> (r: Result<
    Command,
    CmdError,
>)
    ensures
        match ifscope {
            Some(scope) => match column(interface_entry(table(interfaces@), scope@), 0) {
                Ok(index) => r matches Ok(c) && c.name() == "netsh"@ && c.words()
                    == delete_route_words("::/0"@, index),
                Err(e) => r matches Err(f) && f == e,
            },
            None => r matches Ok(c) && c.name() == "route"@ && c.words() == seq![
                "-6"@,
                "delete"@,
                "::/0"@,
            ],
        },
{
    delete_default_route("-6", "::/0", ifscope, interfaces)
}

/// Deletes the default IPv4 route. With a scope, the route of the
/// interface the scope names, whose index is read from `interfaces`, what
/// `netsh interface ip show interface` printed; without one, `interfaces`
/// is not read.
pub fn delete_default_ipv4_route(ifscope: Option<&str>, interfaces: &str) -> (r: Result<
    Command,
    CmdError,
>)
    ensures
        match ifscope {
            Some(scope) => match column(interface_entry(table(interfaces@), scope@), 0) {
                Ok(index) => r matches Ok(c) && c.name() == "netsh"@ && c.words()
                    == delete_route_words("0.0.0.0/0"@, index),
                Err(e) => r matches Err(f) && f == e,
            },
            None => r matches Ok(c) && c.name() == "route"@ && c.words() == seq![
                "-4"@,
                "delete"@,
                "0.0.0.0/0"@,
            ],
        },
{
    delete_default_route("-4", "0.0.0.0/0", ifscope, interfaces)
}

/// Some gateway of the adapter has the address `address`.
pub open spec fn routes_through(a: Adapter, address: Seq<char>) -> bool {
    exists|i: int| 0 <= i < a.gateways@.len() && (#[trigger] a.gateways@[i]).address@ == address
}

/// The address of the last IPv6 gateway among the first `k` gateways of an adapter.
pub open spec fn last_ipv6(gateways: Seq<Gateway>, k: nat) -> Option<Seq<char>>
    decreases k,
{
    if k == 0 {
        None
    } else if gateways[k - 1].is_ipv6 {
        Some(gateways[k - 1].address@)
    } else {
        last_ipv6(gateways, (k - 1) as nat)
    }
}

/// The adapter routes through `address` and has an IPv6 gateway.
pub open spec fn gives_ipv6_gateway(address: Seq<char>) -> spec_fn(Adapter) -> bool {
    |a: Adapter| routes_through(a, address) && last_ipv6(a.gateways@, a.gateways@.len()) is Some
}

/// The IPv6 gateway that belongs to the IPv4 gateway `address`: the last
/// IPv6 gateway of the adapter that routes through `address`, has an IPv6
/// gateway and comes last in order of metric. Empty where there is none.
pub open spec fn ipv6_gateway_of(adapters: Seq<Adapter>, address: Seq<char>) -> Seq<char> {
    match last_wanted(adapters, gives_ipv6_gateway(address), adapters.len()) {
        Some(i) => last_ipv6(adapters[i].gateways@, adapters[i].gateways@.len())->0,
        None => Seq::empty(),
    }
}

/// Looks through the gateways of an adapter.
fn scan_gateways(a: &Adapter, address: &str) -> (r: (bool, Option<String>))
    ensures
        r.0 == routes_through(*a, address@),
        match last_ipv6(a.gateways@, a.gateways@.len()) {
            Some(g) => r.1 matches Some(s) && s@ == g,
            None => r.1 is None,
        },
{
    let mut through = false;
    let mut last: Option<String> = None;
    let mut i: usize = 0;
    while i < a.gateways.len()
        invariant
            i <= a.gateways.len(),
            through == exists|j: int|
                0 <= j < i && (#[trigger] a.gateways@[j]).address@ == address@,
            match last_ipv6(a.gateways@, i as nat) {
                Some(g) => last matches Some(s) && s@ == g,
                None => last is None,
            },
        decreases a.gateways.len() - i,
    {
        let g = &a.gateways[i];
        if g.address.as_str().eq(address) {
            through = true;
        }
        if g.is_ipv6 {
            last = Some(g.address.clone());
        }
        i += 1;
    }
    (through, last)
}

/// The IPv6 gateway that belongs to the default IPv4 gateway.
///
/// `gateway` is the default IPv4 gateway in canonical text, `None` where
/// what the route table gave is not an address. That is an error as soon as
/// there is an adapter to compare it with.
pub fn get_default_ipv6_gateway(adapters: &Vec<Adapter>, gateway: Option<&str>) -> (r: Result<
    String,
    CmdError,
>)
    ensures
        match gateway {
            Some(address) => r matches Ok(s) && s@ == ipv6_gateway_of(adapters@, address@),
            None => if adapters@.len() == 0 {
                r matches Ok(s) && s@ == Seq::<char>::empty()
            } else {
                r matches Err(e) && e == CmdError::InvalidGateway
            },
        },
{
    let address = match gateway {
        Some(address) => address,
        None => {
            if adapters.len() == 0 {
                return Ok(String::new());
            } else {
                return Err(CmdError::InvalidGateway);
            }
        },
    };
    let mut result = String::new();
    let mut best: u32 = 0;
    let mut found = false;
    let mut k: usize = 0;
    while k < adapters.len()
        invariant
            k <= adapters.len(),
            match last_wanted(adapters@, gives_ipv6_gateway(address@), k as nat) {
                Some(i) => ({
                    &&& 0 <= i < k
                    &&& found
                    &&& best == adapters@[i].ipv4_metric
                    &&& Some(result@) == last_ipv6(
                        adapters@[i].gateways@,
                        adapters@[i].gateways@.len(),
                    )
                }),
                None => !found && result@ == Seq::<char>::empty(),
            },
        decreases adapters.len() - k,
    {
        proof {
            lemma_last_wanted(adapters@, gives_ipv6_gateway(address@), k as nat);
        }
        let adapter = &adapters[k];
        let (through, last) = scan_gateways(adapter, address);
        if through && (!found || best <= adapter.ipv4_metric) {
            match last {
                Some(g) => {
                    result = g;
                    best = adapter.ipv4_metric;
                    found = true;
                },
                None => {},
            }
        }
        k += 1;
    }
    Ok(result)
}

/// Adds the rule that sends traffic from `addr` by the default IPv4 route.
/// The platform needs no such rule: nothing is to be run.
pub fn add_default_ipv4_rule(addr: &str) -> (r: Result<(), CmdError>)
    ensures
        r is Ok,
{
    Ok(())
}

/// Adds the rule that sends traffic from `addr` by the default IPv6 route.
/// The platform needs no such rule: nothing is to be run.
pub fn add_default_ipv6_rule(addr: &str) -> (r: Result<(), CmdError>)
    ensures
        r is Ok,
{
    Ok(())
}

/// Deletes the rule that sends traffic from `addr` by the default IPv4
/// route. The platform has no such rule: nothing is to be run.
pub fn delete_default_ipv4_rule(addr: &str) -> (r: Result<(), CmdError>)
    ensures
        r is Ok,
{
    Ok(())
}

/// Deletes the rule that sends traffic from `addr` by the default IPv6
/// route. The platform has no such rule: nothing is to be run.
pub fn delete_default_ipv6_rule(addr: &str) -> (r: Result<(), CmdError>)
    ensures
        r is Ok,
{
    Ok(())
}

} // verus!
