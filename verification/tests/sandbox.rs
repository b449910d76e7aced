use capsule_box::sandbox::cgroup::{checked_memory_limit, parse_memory_limit, read_limit};
use capsule_box::sandbox::network::{
    ensure_bridge, ensure_iptables, setup_dns, setup_loopback, setup_nat, setup_veth_bridge,
};
use capsule_box::sandbox::{
    setup_namespace_and_exec, start_container, Cgroup, ContainerFs, Pipes, SandboxConfig,
};
use capsule_box::script::Op;

fn line(op: &Op) -> String {
    match op {
        Op::CreateDirAll { path } => format!("mkdir {}", path),
        Op::Write { path, contents } => format!("write {} {}", path, contents),
        Op::RemoveDir { path } => format!("rmdir {}", path),
        Op::RemoveDirAll { path } => format!("rm -r {}", path),
        Op::RemoveFile { path } => format!("rm {}", path),
        Op::Discard { path } => format!("rm -f {}", path),
        Op::MountOverlay { target, options } => format!("overlay {} {}", target, options),
        Op::Detach { target } => format!("detach {}", target),
        Op::Run { bin, args, complaint } => match complaint {
            Some(text) => format!("{} {} or {}", bin, args.join(" "), text),
            None => format!("{} {}", bin, args.join(" ")),
        },
        Op::Probe { bin, args, skip } => format!("probe {} {} / {}", bin, args.join(" "), skip),
        Op::CloseFd { fd } => format!("close {}", fd),
        Op::Notify { fd } => format!("notify {}", fd),
        Op::Wait { fd } => format!("wait {}", fd),
        Op::Unshare => "unshare".to_string(),
        Op::SetHostname { name } => format!("hostname {}", name),
        Op::NewSession => "setsid".to_string(),
        Op::ControllingTerminal { fd } => format!("ctty {}", fd),
        Op::Duplicate { fd, onto } => format!("dup {} {}", fd, onto),
        Op::MountProc { target } => format!("proc {}", target),
        Op::BindDevices { target } => format!("dev {}", target),
        Op::ChangeRoot { path } => format!("chroot {}", path),
        Op::ChangeDir { path } => format!("chdir {}", path),
        Op::Exec { argv } => format!("exec {}", argv.join(" ")),
    }
}

fn lines(script: &[Op]) -> Vec<String> {
    script.iter().map(line).collect()
}

fn config(stdio: Option<i32>, memory_limit: &str, command: &[&str]) -> SandboxConfig {
    SandboxConfig {
        container_id: "000012ab34cd".to_string(),
        command: command.iter().map(|w| w.to_string()).collect(),
        memory_limit: memory_limit.to_string(),
        hostname: "cb-000012ab".to_string(),
        ip: "10.0.0.7".to_string(),
        stdio,
    }
}

fn pipes() -> Pipes {
    Pipes { ns_r: 10, ns_w: 11, net_r: 12, net_w: 13 }
}

#[test]
fn memory_limits_are_read_with_their_units() {
    assert_eq!(parse_memory_limit("128M"), 134_217_728);
    assert_eq!(parse_memory_limit("1G"), 1_073_741_824);
    assert_eq!(parse_memory_limit("4k"), 4096);
    assert_eq!(parse_memory_limit("4K"), 4096);
    assert_eq!(parse_memory_limit("3m"), 3_145_728);
    assert_eq!(parse_memory_limit("2g"), 2_147_483_648);
    assert_eq!(parse_memory_limit("12345"), 12345);
    assert_eq!(parse_memory_limit("+12"), 12);
    assert_eq!(parse_memory_limit("max"), u64::MAX);
    assert_eq!(parse_memory_limit("unlimited"), u64::MAX);
    assert_eq!(parse_memory_limit("  256M\n"), 268_435_456);
    assert_eq!(parse_memory_limit("\u{3000}max\u{a0}"), u64::MAX);
}

#[test]
fn memory_limits_that_are_not_numbers_have_defaults() {
    assert_eq!(parse_memory_limit(""), 536_870_912);
    assert_eq!(parse_memory_limit("   "), 536_870_912);
    assert_eq!(parse_memory_limit("12-34"), 536_870_912);
    assert_eq!(parse_memory_limit("99999999999999999999"), 536_870_912);
    assert_eq!(parse_memory_limit("lots"), 0);
    assert_eq!(parse_memory_limit("Max"), 0);
    assert_eq!(parse_memory_limit("12b"), 12);
    assert_eq!(parse_memory_limit("1.5G"), 0);
    assert_eq!(parse_memory_limit("12 M"), 0);
    assert_eq!(parse_memory_limit("５１２"), 536_870_912);
}

#[test]
fn some_texts_stand_for_no_memory_limit() {
    assert_eq!(checked_memory_limit("128M"), Some(134_217_728));
    assert_eq!(checked_memory_limit("max"), Some(u64::MAX));
    assert_eq!(checked_memory_limit("18446744073709551615"), Some(u64::MAX));
    assert_eq!(checked_memory_limit("17179869183G"), Some(18_446_744_072_635_809_792));
    assert_eq!(checked_memory_limit("17179869184G"), None);
    assert_eq!(checked_memory_limit("18446744073709551615k"), None);
    assert_eq!(checked_memory_limit("12é"), None);
    assert_eq!(checked_memory_limit("十"), None);
    assert_eq!(checked_memory_limit("12％"), Some(536_870_912));
}

#[test]
fn a_limit_is_read_by_whether_it_ends_in_a_letter() {
    assert_eq!(read_limit("12é", true), None);
    assert_eq!(read_limit("12é", false), Some(536_870_912));
    assert_eq!(read_limit("12K", true), Some(12288));
    assert_eq!(read_limit("12K", false), Some(536_870_912));
    assert_eq!(read_limit("12", true), Some(1));
    assert_eq!(read_limit("12", false), Some(12));
    assert_eq!(read_limit("max", false), Some(u64::MAX));
    assert_eq!(read_limit("", true), Some(536_870_912));
}

#[test]
fn the_control_group_is_made_and_filled() {
    let (cgroup, script) = Cgroup::new("abc");
    assert_eq!(cgroup.path, "/sys/fs/cgroup/cb/abc");
    assert_eq!(
        lines(&script),
        vec![
            "mkdir /sys/fs/cgroup/cb",
            "write /sys/fs/cgroup/cb/cgroup.subtree_control +memory",
            "mkdir /sys/fs/cgroup/cb/abc",
        ]
    );
    assert_eq!(
        line(&cgroup.set_memory_limit(4096)),
        "write /sys/fs/cgroup/cb/abc/memory.max 4096"
    );
    assert_eq!(
        line(&cgroup.set_memory_limit(u64::MAX)),
        "write /sys/fs/cgroup/cb/abc/memory.max max"
    );
    assert_eq!(
        line(&cgroup.add_process(4711)),
        "write /sys/fs/cgroup/cb/abc/cgroup.procs 4711"
    );
    assert_eq!(line(&cgroup.cleanup()), "rmdir /sys/fs/cgroup/cb/abc");
    assert_eq!(line(&Cgroup::remove("abc")), "rmdir /sys/fs/cgroup/cb/abc");
}

#[test]
fn the_file_system_is_layered_and_removed() {
    let (fs, script) = ContainerFs::setup("abc");
    assert_eq!(fs.merged, "/run/cb/containers/abc/merged");
    assert_eq!(
        lines(&script),
        vec![
            "mkdir /run/cb/containers/abc/upper",
            "mkdir /run/cb/containers/abc/work",
            "mkdir /run/cb/containers/abc/merged",
            "mkdir /run/cb/containers/abc/merged/proc",
            "mkdir /run/cb/containers/abc/merged/dev",
            "overlay /run/cb/containers/abc/merged lowerdir=/var/lib/cb/rootfs,\
upperdir=/run/cb/containers/abc/upper,workdir=/run/cb/containers/abc/work",
        ]
    );
    assert_eq!(
        lines(&ContainerFs::remove("abc")),
        vec!["detach /run/cb/containers/abc/merged", "rm -r /run/cb/containers/abc"]
    );
}

#[test]
fn the_network_is_made_of_commands() {
    assert_eq!(lines(&setup_loopback()), vec!["ip link set lo up or 启动 lo 失败"]);
    assert_eq!(
        lines(&ensure_bridge()),
        vec![
            "probe ip link show cb0 / 2",
            "ip link add cb0 type bridge",
            "ip addr add 10.0.0.1/24 dev cb0",
            "ip link set cb0 up",
        ]
    );
    assert_eq!(
        lines(&setup_veth_bridge("v00001", "c00001", 4711, "10.0.0.7")),
        vec![
            "ip link add v00001 type veth peer name c00001",
            "ip link set v00001 master cb0",
            "ip link set v00001 up",
            "ip link set c00001 netns 4711",
            "nsenter -t 4711 -n ip addr add 10.0.0.7/24 dev c00001",
            "nsenter -t 4711 -n ip link set c00001 up",
            "nsenter -t 4711 -n ip route add default via 10.0.0.1",
        ]
    );
    assert_eq!(
        lines(&setup_nat()),
        vec![
            "write /proc/sys/net/ipv4/ip_forward 1",
            "probe iptables -t nat -C POSTROUTING -s 10.0.0.0/24 -j MASQUERADE / 1",
            "iptables -t nat -A POSTROUTING -s 10.0.0.0/24 -j MASQUERADE",
            "probe iptables -C FORWARD -s 10.0.0.0/24 -j ACCEPT / 1",
            "iptables -A FORWARD -s 10.0.0.0/24 -j ACCEPT",
            "probe iptables -C FORWARD -d 10.0.0.0/24 -j ACCEPT / 1",
            "iptables -A FORWARD -d 10.0.0.0/24 -j ACCEPT",
        ]
    );
    assert_eq!(
        lines(&setup_dns("/run/cb/containers/abc/merged")),
        vec!["write /run/cb/containers/abc/merged/etc/resolv.conf nameserver 8.8.8.8\n"]
    );
}

#[test]
fn a_rule_is_looked_for_before_it_is_added() {
    assert_eq!(
        lines(&ensure_iptables(vec!["-t", "nat", "-A", "X", "-AA"])),
        vec!["probe iptables -t nat -C X -AA / 1", "iptables -t nat -A X -AA"]
    );
    assert_eq!(
        lines(&ensure_iptables(vec!["-A", "-A"])),
        vec!["probe iptables -C -C / 1", "iptables -A -A"]
    );
}

#[test]
fn containers_share_no_directory() {
    let (a, _) = ContainerFs::setup("a");
    let (b, _) = ContainerFs::setup("b");
    assert_ne!(a.upper, b.upper);
    assert_ne!(a.work, b.work);
    assert_ne!(a.merged, b.merged);
    assert_ne!(Cgroup::new("a").0.path, Cgroup::new("b").0.path);
}

#[test]
fn a_container_is_prepared_before_its_process() {
    let cfg = config(None, "1M", &["ls"]);
    let plan = start_container(&cfg);
    assert_eq!(plan.prepare.len(), 10);
    assert_eq!(plan.cgroup_made, 9);
    assert_eq!(plan.memory, Some(1_048_576));
    assert_eq!(
        line(&plan.prepare[9]),
        "write /sys/fs/cgroup/cb/000012ab34cd/memory.max 1048576"
    );
    assert_eq!(plan.host_if, "v000012ab");
    assert_eq!(plan.cont_if, "c000012ab");
    assert_eq!(plan.fs.merged, "/run/cb/containers/000012ab34cd/merged");
}

#[test]
fn a_start_without_readable_limit_stops_at_the_control_group() {
    let plan = start_container(&config(None, "1é", &["ls"]));
    assert_eq!(plan.memory, None);
    assert_eq!(plan.prepare.len(), plan.cgroup_made);
}

#[test]
fn a_failed_start_removes_a_control_group_that_was_made() {
    let plan = start_container(&config(None, "1M", &["ls"]));
    for reached in 0..9 {
        assert!(plan.abandon(reached).is_empty());
    }
    for reached in 9..11 {
        assert_eq!(lines(&plan.abandon(reached)), vec!["rmdir /sys/fs/cgroup/cb/000012ab34cd"]);
    }
}

#[test]
fn the_parent_sets_the_network_up_before_it_lets_the_container_go_on() {
    let cfg = config(None, "1M", &["ls"]);
    let plan = start_container(&cfg);
    let script = lines(&plan.attach(&cfg, 4711, &pipes()));
    assert_eq!(script.len(), 26);
    assert_eq!(
        script[..6],
        [
            "close 11",
            "close 12",
            "write /sys/fs/cgroup/cb/000012ab34cd/cgroup.procs 4711",
            "wait 10",
            "close 10",
            "probe ip link show cb0 / 2",
        ]
    );
    assert_eq!(script[9], "ip link add v000012ab type veth peer name c000012ab");
    assert_eq!(script[13], "nsenter -t 4711 -n ip addr add 10.0.0.7/24 dev c000012ab");
    assert_eq!(script[16], "write /proc/sys/net/ipv4/ip_forward 1");
    assert_eq!(
        script[23],
        "write /run/cb/containers/000012ab34cd/merged/etc/resolv.conf nameserver 8.8.8.8\n"
    );
    assert_eq!(script[24..], ["notify 13", "close 13"]);
}

#[test]
fn the_container_confines_itself_before_it_becomes_its_command() {
    let (first, second) =
        setup_namespace_and_exec(&config(None, "1M", &["ls", "/"]), "/m", &pipes());
    assert_eq!(
        lines(&first),
        vec!["close 10", "close 13", "unshare", "notify 11", "close 11", "hostname cb-000012ab"]
    );
    assert_eq!(
        lines(&second),
        vec![
            "ip link set lo up or 启动 lo 失败",
            "wait 12",
            "close 12",
            "proc /m/proc",
            "dev /m/dev",
            "chroot /m",
            "chdir /",
            "exec ls /",
        ]
    );
}

#[test]
fn a_terminal_becomes_the_standard_streams() {
    let (_, second) = setup_namespace_and_exec(&config(Some(9), "1M", &["sh"]), "/m", &pipes());
    assert_eq!(
        lines(&second)[3..9],
        ["setsid", "ctty 9", "dup 9 0", "dup 9 1", "dup 9 2", "close 9"]
    );
    let (_, second) = setup_namespace_and_exec(&config(Some(2), "1M", &["sh"]), "/m", &pipes());
    assert_eq!(
        lines(&second)[3..9],
        ["setsid", "ctty 2", "dup 2 0", "dup 2 1", "dup 2 2", "proc /m/proc"]
    );
}

#[test]
fn a_command_that_cannot_be_handed_over_is_left_out() {
    let (_, second) = setup_namespace_and_exec(&config(None, "1M", &[]), "/m", &pipes());
    assert_eq!(line(second.last().unwrap()), "chdir /");
    let (_, second) = setup_namespace_and_exec(&config(None, "1M", &["a", "b\0c"]), "/m", &pipes());
    assert_eq!(line(second.last().unwrap()), "chdir /");
    let (_, second) = setup_namespace_and_exec(&config(None, "1M", &["a", ""]), "/m", &pipes());
    assert_eq!(line(second.last().unwrap()), "exec a ");
}
