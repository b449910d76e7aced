//! The network of the containers: one bridge on the host, and for each
//! container a pair of virtual interfaces that joins it to the bridge.

use crate::script::{Op, OpView};
use crate::{script, text};
use vstd::prelude::*;

verus! {

/// The bridge that all containers share.
pub const BRIDGE: &'static str = "cb0";

/// The address of the bridge, through which the containers reach other hosts.
pub const GATEWAY: &'static str = "10.0.0.1";

/// The network of the containers.
pub const CONTAINER_SUBNET: &'static str = "10.0.0.0/24";

/// A command that has to succeed.
pub open spec fn command(bin: Seq<char>, args: Seq<Seq<char>>) -> OpView {
    OpView::Run { bin, args, complaint: None }
}

/// A command that runs in the network of the process `pid`.
pub open spec fn command_in_network(pid: u32, args: Seq<Seq<char>>) -> OpView {
    command("nsenter"@, seq!["-t"@, text::decimal(pid as nat), "-n"@] + args)
}

fn run_cmd(bin: &str, args: Vec<&str>) -> (op: Op)
    ensures
        op@ == command(bin@, args.deep_view()),
{
    Op::Run { bin: bin.to_owned(), args: text::own_words(args), complaint: None }
}

fn run_ip(args: Vec<&str>) -> (op: Op)
    ensures
        op@ == command("ip"@, args.deep_view()),
{
    run_cmd("ip", args)
}

fn run_nsenter(pid: u32, args: Vec<&str>) -> (op: Op)
    ensures
        op@ == command_in_network(pid, args.deep_view()),
{
    let pid_text = text::decimal_text(pid as u64);
    let mut full: Vec<String> = text::own_words(vec!["-t", pid_text.as_str(), "-n"]);
    let ghost head = full.deep_view();
    assert(head =~= seq!["-t"@, text::decimal(pid as nat), "-n"@]);
    let mut rest = text::own_words(args);
    let ghost tail = rest.deep_view();
    full.append(&mut rest);
    assert(full.deep_view() =~= head + tail);
    Op::Run { bin: "nsenter".to_owned(), args: full, complaint: None }
}

/// Brings the loopback interface up.
pub open spec fn loopback_script() -> Seq<OpView> {
    seq![
        OpView::Run {
            bin: "ip"@,
            args: seq!["link"@, "set"@, "lo"@, "up"@],
            complaint: Some("启动 lo 失败"@),
        },
    ]
}

/// Brings the loopback interface up.
pub fn setup_loopback() -> (script: Vec<Op>)
    ensures
        script.deep_view() == loopback_script(),
        script::well_formed(script.deep_view()),
{
    let args = text::own_words(vec!["link", "set", "lo", "up"]);
    assert(args.deep_view() =~= seq!["link"@, "set"@, "lo"@, "up"@]);
    let script = vec![
        Op::Run { bin: "ip".to_owned(), args, complaint: Some("启动 lo 失败".to_owned()) },
    ];
    assert(script.deep_view() =~= seq![script[0]@]);
    script
}

/// The arguments with which `iptables` looks for the rule that `add_args`
/// append.
pub open spec fn check_args(add_args: Seq<Seq<char>>) -> Seq<Seq<char>> {
    add_args.map_values(
        |arg: Seq<char>|
            if arg == "-A"@ {
                "-C"@
            } else {
                arg
            },
    )
}

/// Appends a rule unless it is there.
pub open spec fn rule(add_args: Seq<Seq<char>>) -> Seq<OpView> {
    seq![
        OpView::Probe { bin: "iptables"@, args: check_args(add_args), skip: 1 },
        command("iptables"@, add_args),
    ]
}

/// Appends a rule of the packet filter unless it is there.
pub fn ensure_iptables(add_args: Vec<&str>) -> (script: Vec<Op>)
    ensures
        script.deep_view() == rule(add_args.deep_view()),
        script::well_formed(script.deep_view()),
{
    let mut args: Vec<String> = Vec::new();
    let mut i: usize = 0;
    while i < add_args.len()
        invariant
            i <= add_args.len(),
            args.deep_view() =~= check_args(add_args.deep_view()).take(i as int),
        decreases add_args.len() - i,
    {
        let ghost before = args.deep_view();
        let arg = if text::same_text(add_args[i], "-A") {
            "-C".to_owned()
        } else {
            add_args[i].to_owned()
        };
        let ghost shown = arg@;
        args.push(arg);
        assert(args.deep_view() =~= before.push(shown));
        i += 1;
    }
    assert(args.deep_view() =~= check_args(add_args.deep_view()));
    let script = vec![
        Op::Probe { bin: "iptables".to_owned(), args, skip: 1 },
        run_cmd("iptables", add_args),
    ];
    assert(script.deep_view() =~= seq![script[0]@, script[1]@]);
    script
}

/// What lets the containers reach other hosts.
pub open spec fn nat_script() -> Seq<OpView> {
    seq![OpView::Write { path: "/proc/sys/net/ipv4/ip_forward"@, contents: "1"@ }] + rule(
        seq![
            "-t"@,
            "nat"@,
            "-A"@,
            "POSTROUTING"@,
            "-s"@,
            CONTAINER_SUBNET@,
            "-j"@,
            "MASQUERADE"@,
        ],
    ) + rule(seq!["-A"@, "FORWARD"@, "-s"@, CONTAINER_SUBNET@, "-j"@, "ACCEPT"@]) + rule(
        seq!["-A"@, "FORWARD"@, "-d"@, CONTAINER_SUBNET@, "-j"@, "ACCEPT"@],
    )
}

/// Lets the containers reach other hosts.
pub fn setup_nat() -> (script: Vec<Op>)
    ensures
        script.deep_view() == nat_script(),
        script::well_formed(script.deep_view()),
{
    let mut script = vec![
        Op::Write {
            path: "/proc/sys/net/ipv4/ip_forward".to_owned(),
            contents: "1".to_owned(),
        },
    ];
    let ghost forward = script.deep_view();
    assert(forward =~= seq![
        OpView::Write { path: "/proc/sys/net/ipv4/ip_forward"@, contents: "1"@ },
    ]);
    let masquerade = vec![
        "-t", "nat", "-A", "POSTROUTING", "-s", CONTAINER_SUBNET, "-j", "MASQUERADE",
    ];
    assert(masquerade.deep_view() =~= seq![
        "-t"@,
        "nat"@,
        "-A"@,
        "POSTROUTING"@,
        "-s"@,
        CONTAINER_SUBNET@,
        "-j"@,
        "MASQUERADE"@,
    ]);
    let mut first = ensure_iptables(masquerade);
    let outwards = vec!["-A", "FORWARD", "-s", CONTAINER_SUBNET, "-j", "ACCEPT"];
    assert(outwards.deep_view() =~= seq![
        "-A"@,
        "FORWARD"@,
        "-s"@,
        CONTAINER_SUBNET@,
        "-j"@,
        "ACCEPT"@,
    ]);
    let mut second = ensure_iptables(outwards);
    let inwards = vec!["-A", "FORWARD", "-d", CONTAINER_SUBNET, "-j", "ACCEPT"];
    assert(inwards.deep_view() =~= seq![
        "-A"@,
        "FORWARD"@,
        "-d"@,
        CONTAINER_SUBNET@,
        "-j"@,
        "ACCEPT"@,
    ]);
    let mut third = ensure_iptables(inwards);
    let ghost (a, b, c) = (first.deep_view(), second.deep_view(), third.deep_view());
    script.append(&mut first);
    assert(script.deep_view() =~= forward + a);
    script.append(&mut second);
    assert(script.deep_view() =~= forward + a + b);
    script.append(&mut third);
    assert(script.deep_view() =~= forward + a + b + c);
    script
}

/// Where the container whose root is `merged` finds its name server.
pub open spec fn dns_script(merged: Seq<char>) -> Seq<OpView> {
    seq![
        OpView::Write {
            path: text::joined_path(merged, "etc/resolv.conf"@),
            contents: "nameserver 8.8.8.8\n"@,
        },
    ]
}

/// Tells the container whose root is `merged` its name server.
pub fn setup_dns(merged: &str) -> (script: Vec<Op>)
    ensures
        script.deep_view() == dns_script(merged@),
        script::well_formed(script.deep_view()),
{
    let script = vec![
        Op::Write {
            path: text::join_path(merged, "etc/resolv.conf"),
            contents: "nameserver 8.8.8.8\n".to_owned(),
        },
    ];
    assert(script.deep_view() =~= seq![script[0]@]);
    script
}

/// Makes the bridge, unless it is there, and brings it up.
pub open spec fn bridge_script() -> Seq<OpView> {
    seq![
        OpView::Probe { bin: "ip"@, args: seq!["link"@, "show"@, BRIDGE@], skip: 2 },
        command("ip"@, seq!["link"@, "add"@, BRIDGE@, "type"@, "bridge"@]),
        command("ip"@, seq!["addr"@, "add"@, GATEWAY@ + "/24"@, "dev"@, BRIDGE@]),
        command("ip"@, seq!["link"@, "set"@, BRIDGE@, "up"@]),
    ]
}

/// Makes the bridge, unless it is there, and brings it up.
pub fn ensure_bridge() -> (script: Vec<Op>)
    ensures
        script.deep_view() == bridge_script(),
        script::well_formed(script.deep_view()),
{
    let show = vec!["link", "show", BRIDGE];
    assert(show.deep_view() =~= seq!["link"@, "show"@, BRIDGE@]);
    let link = vec!["link", "add", BRIDGE, "type", "bridge"];
    assert(link.deep_view() =~= seq!["link"@, "add"@, BRIDGE@, "type"@, "bridge"@]);
    let network = text::join(GATEWAY, "/24");
    let addr = vec!["addr", "add", network.as_str(), "dev", BRIDGE];
    assert(addr.deep_view() =~= seq!["addr"@, "add"@, GATEWAY@ + "/24"@, "dev"@, BRIDGE@]);
    let up = vec!["link", "set", BRIDGE, "up"];
    assert(up.deep_view() =~= seq!["link"@, "set"@, BRIDGE@, "up"@]);
    let script = vec![
        Op::Probe { bin: "ip".to_owned(), args: text::own_words(show), skip: 2 },
        run_ip(link),
        run_ip(addr),
        run_ip(up),
    ];
    assert(script.deep_view() =~= seq![script[0]@, script[1]@, script[2]@, script[3]@]);
    script
}

/// Joins the network of the process `pid` to the bridge by a pair of
/// interfaces, and gives the inner one its address and route.
pub open spec fn veth_script(
    host_if: Seq<char>,
    cont_if: Seq<char>,
    pid: u32,
    ip: Seq<char>,
) -> Seq<OpView> {
    seq![
        command(
            "ip"@,
            seq!["link"@, "add"@, host_if, "type"@, "veth"@, "peer"@, "name"@, cont_if],
        ),
        command("ip"@, seq!["link"@, "set"@, host_if, "master"@, BRIDGE@]),
        command("ip"@, seq!["link"@, "set"@, host_if, "up"@]),
        command("ip"@, seq!["link"@, "set"@, cont_if, "netns"@, text::decimal(pid as nat)]),
        command_in_network(
            pid,
            seq!["ip"@, "addr"@, "add"@, ip + "/24"@, "dev"@, cont_if],
        ),
        command_in_network(pid, seq!["ip"@, "link"@, "set"@, cont_if, "up"@]),
        command_in_network(pid, seq!["ip"@, "route"@, "add"@, "default"@, "via"@, GATEWAY@]),
    ]
}

/// Joins the network of the process `pid` to the bridge by a pair of
/// interfaces, and gives the inner one its address and route.
pub fn setup_veth_bridge(host_if: &str, cont_if: &str, pid: u32, ip: &str) -> (script: Vec<Op>)
    ensures
        script.deep_view() == veth_script(host_if@, cont_if@, pid, ip@),
        script::well_formed(script.deep_view()),
{
    let pid_text = text::decimal_text(pid as u64);
    let pair = vec!["link", "add", host_if, "type", "veth", "peer", "name", cont_if];
    assert(pair.deep_view() =~= seq![
        "link"@,
        "add"@,
        host_if@,
        "type"@,
        "veth"@,
        "peer"@,
        "name"@,
        cont_if@,
    ]);
    let join = vec!["link", "set", host_if, "master", BRIDGE];
    assert(join.deep_view() =~= seq!["link"@, "set"@, host_if@, "master"@, BRIDGE@]);
    let host_up = vec!["link", "set", host_if, "up"];
    assert(host_up.deep_view() =~= seq!["link"@, "set"@, host_if@, "up"@]);
    let hand_over = vec!["link", "set", cont_if, "netns", pid_text.as_str()];
    assert(hand_over.deep_view() =~= seq![
        "link"@,
        "set"@,
        cont_if@,
        "netns"@,
        text::decimal(pid as nat),
    ]);
    let network = text::join(ip, "/24");
    let addr = vec!["ip", "addr", "add", network.as_str(), "dev", cont_if];
    assert(addr.deep_view() =~= seq!["ip"@, "addr"@, "add"@, ip@ + "/24"@, "dev"@, cont_if@]);
    let cont_up = vec!["ip", "link", "set", cont_if, "up"];
    assert(cont_up.deep_view() =~= seq!["ip"@, "link"@, "set"@, cont_if@, "up"@]);
    let route = vec!["ip", "route", "add", "default", "via", GATEWAY];
    assert(route.deep_view() =~= seq![
        "ip"@,
        "route"@,
        "add"@,
        "default"@,
        "via"@,
        GATEWAY@,
    ]);
    let script = vec![
        run_ip(pair),
        run_ip(join),
        run_ip(host_up),
        run_ip(hand_over),
        run_nsenter(pid, addr),
        run_nsenter(pid, cont_up),
        run_nsenter(pid, route),
    ];
    assert(script.deep_view() =~= seq![
        script[0]@,
        script[1]@,
        script[2]@,
        script[3]@,
        script[4]@,
        script[5]@,
        script[6]@,
    ]);
    script
}

} // verus!
