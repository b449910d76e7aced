//! What the preparation of a container, its network and its processes bring
//! about.

use crate::error::AppErrorView;
use crate::sandbox::start::{
    Stage, StageView, StartAction, StartActionView, StartEvent, StartEventView,
};
use crate::sandbox::{cgroup, fs, network, start, ConfigView, LaunchPlan, Pipes, SandboxConfig};
use crate::script::{OpView, OutcomeView};
use crate::{sandbox, script, text};
use vstd::prelude::*;
use vstd::utf8;

verus! {

/// Whether an operation of the list makes this directory before the operation
/// at `before`.
pub open spec fn makes_before(list: Seq<OpView>, path: Seq<char>, before: int) -> bool {
    exists|i: int| 0 <= i < before && #[trigger] list[i] == (OpView::CreateDirAll { path })
}

/// A container has a directory of its own below that of all containers, and in
/// it one for each layer and one for what it sees.
pub proof fn container_has_its_directories(container_id: Seq<char>)
    ensures
        fs::base_path(container_id) == text::joined_path("/run/cb/containers"@, container_id),
        fs::upper_path(container_id) == text::joined_path(fs::base_path(container_id), "upper"@),
        fs::work_path(container_id) == text::joined_path(fs::base_path(container_id), "work"@),
        fs::merged_path(container_id) == text::joined_path(fs::base_path(container_id), "merged"@),
        cgroup::cgroup_path(container_id) == text::joined_path(
            "/sys/fs/cgroup/cb"@,
            container_id,
        ),
{
}

/// The root of a container is an overlay: its lower layer is the shared base,
/// its upper and work layers are two directories of the container that have
/// been made before, and so has been the directory that it is mounted on. It is
/// mounted once, last. What is mounted below it later has its place there.
pub proof fn root_is_an_overlay_of_made_layers(container_id: Seq<char>)
    ensures
        ({
            let list = fs::fs_script(container_id);
            let last = list.len() - 1;
            let base = text::joined_path("/run/cb/containers"@, container_id);
            let upper = text::joined_path(base, "upper"@);
            let work = text::joined_path(base, "work"@);
            let merged = text::joined_path(base, "merged"@);
            &&& list.len() > 0
            &&& list[last] == (OpView::MountOverlay {
                target: merged,
                options: "lowerdir="@ + "/var/lib/cb/rootfs"@ + ",upperdir="@ + upper
                    + ",workdir="@ + work,
            })
            &&& makes_before(list, upper, last)
            &&& makes_before(list, work, last)
            &&& makes_before(list, merged, last)
            &&& makes_before(list, text::joined_path(merged, "proc"@), last)
            &&& makes_before(list, text::joined_path(merged, "dev"@), last)
            &&& upper != work
            &&& upper != merged
            &&& work != merged
            &&& forall|i: int| 0 <= i < last ==> (#[trigger] list[i]) is CreateDirAll
        }),
{
    let list = fs::fs_script(container_id);
    let base = fs::base_path(container_id);
    assert(list[0] == (OpView::CreateDirAll { path: fs::upper_path(container_id) }));
    assert(list[1] == (OpView::CreateDirAll { path: fs::work_path(container_id) }));
    assert(list[2] == (OpView::CreateDirAll { path: fs::merged_path(container_id) }));
    assert(list[3] == (OpView::CreateDirAll {
        path: text::joined_path(fs::merged_path(container_id), "proc"@),
    }));
    assert(list[4] == (OpView::CreateDirAll {
        path: text::joined_path(fs::merged_path(container_id), "dev"@),
    }));
    reveal_strlit("upper");
    reveal_strlit("work");
    reveal_strlit("merged");
    let (u, w, m) = (
        fs::upper_path(container_id),
        fs::work_path(container_id),
        fs::merged_path(container_id),
    );
    assert(u.last() == 'r');
    assert(w.last() == 'k');
    assert(m.last() == 'd');
}

proof fn lemma_names_differ(
    front: Seq<char>,
    a: Seq<char>,
    x: Seq<char>,
    b: Seq<char>,
    y: Seq<char>,
)
    requires
        !a.contains('/'),
        !b.contains('/'),
        a != b,
    ensures
        front + a + seq!['/'] + x != front + b + seq!['/'] + y,
{
    let s = front + a + seq!['/'] + x;
    let t = front + b + seq!['/'] + y;
    if s == t {
        let n = front.len() as int;
        if a.len() < b.len() {
            assert(s[n + a.len()] == '/');
            assert(t[n + a.len()] == b[a.len() as int]);
            assert(b.contains(b[a.len() as int]));
        } else if b.len() < a.len() {
            assert(t[n + b.len()] == '/');
            assert(s[n + b.len()] == a[b.len() as int]);
            assert(a.contains(a[b.len() as int]));
        } else {
            assert(a =~= s.subrange(n, n + a.len()));
            assert(b =~= t.subrange(n, n + b.len()));
        }
    }
}

/// What stands in a container's own directory.
proof fn lemma_own_path(container_id: Seq<char>, name: Seq<char>, below: Seq<char>)
    requires
        sandbox::laws::is_plain(container_id),
        sandbox::laws::is_plain(name),
        sandbox::laws::is_plain(below),
    ensures
        ({
            let own = "/run/cb/containers/"@ + container_id + seq!['/'] + name;
            &&& text::joined_path(fs::base_path(container_id), name) == own
            &&& text::joined_path(own, below) == "/run/cb/containers/"@ + container_id + seq!['/']
                + (name + seq!['/'] + below)
        }),
{
    reveal_strlit("/run/cb/containers");
    reveal_strlit("/run/cb/containers/");
    assert(container_id.contains(container_id[0]));
    assert(container_id.contains(container_id.last()));
    assert(name.contains(name[0]));
    assert(name.contains(name.last()));
    assert(below.contains(below[0]));
    let base = fs::base_path(container_id);
    assert(base =~= "/run/cb/containers/"@ + container_id);
    assert(base.last() == container_id.last());
    let own = "/run/cb/containers/"@ + container_id + seq!['/'] + name;
    assert(text::joined_path(base, name) =~= own);
    assert(own.last() == name.last());
    assert(text::joined_path(own, below) =~= "/run/cb/containers/"@ + container_id + seq!['/'] + (
    name + seq!['/'] + below));
}

/// The directory that an operation of the preparation makes is below that of
/// the container.
proof fn lemma_made_below(container_id: Seq<char>, i: int) -> (rest: Seq<char>)
    requires
        sandbox::laws::is_plain(container_id),
        0 <= i < 5,
    ensures
        fs::fs_script(container_id)[i] == (OpView::CreateDirAll {
            path: "/run/cb/containers/"@ + container_id + seq!['/'] + rest,
        }),
{
    reveal_strlit("upper");
    reveal_strlit("work");
    reveal_strlit("merged");
    reveal_strlit("proc");
    reveal_strlit("dev");
    lemma_own_path(container_id, "upper"@, "proc"@);
    lemma_own_path(container_id, "work"@, "proc"@);
    lemma_own_path(container_id, "merged"@, "proc"@);
    lemma_own_path(container_id, "merged"@, "dev"@);
    if i == 0 {
        "upper"@
    } else if i == 1 {
        "work"@
    } else if i == 2 {
        "merged"@
    } else if i == 3 {
        "merged"@ + seq!['/'] + "proc"@
    } else {
        "merged"@ + seq!['/'] + "dev"@
    }
}

proof fn lemma_made_apart(a: Seq<char>, i: int, b: Seq<char>, j: int)
    requires
        sandbox::laws::is_plain(a),
        sandbox::laws::is_plain(b),
        a != b,
        0 <= i < 5,
        0 <= j < 5,
    ensures
        fs::fs_script(a)[i] != fs::fs_script(b)[j],
{
    let r = lemma_made_below(a, i);
    let t = lemma_made_below(b, j);
    lemma_names_differ("/run/cb/containers/"@, a, r, b, t);
}

proof fn lemma_options_below(container_id: Seq<char>)
    requires
        sandbox::laws::is_plain(container_id),
    ensures
        fs::overlay_options(container_id) == ("lowerdir="@ + fs::BASE_ROOTFS@ + ",upperdir="@
            + "/run/cb/containers/"@) + container_id + seq!['/'] + ("upper"@ + ",workdir="@
            + fs::work_path(container_id)),
{
    assert(sandbox::laws::is_plain("upper"@)) by {
        reveal_strlit("upper");
    }
    lemma_own_path(container_id, "upper"@, "upper"@);
    assert(fs::overlay_options(container_id) =~= ("lowerdir="@ + fs::BASE_ROOTFS@ + ",upperdir="@
        + "/run/cb/containers/"@) + container_id + seq!['/'] + ("upper"@ + ",workdir="@
        + fs::work_path(container_id)));
}

proof fn lemma_options_differ(a: Seq<char>, b: Seq<char>)
    requires
        sandbox::laws::is_plain(a),
        sandbox::laws::is_plain(b),
        a != b,
    ensures
        fs::overlay_options(a) != fs::overlay_options(b),
{
    lemma_options_below(a);
    lemma_options_below(b);
    lemma_names_differ(
        "lowerdir="@ + fs::BASE_ROOTFS@ + ",upperdir="@ + "/run/cb/containers/"@,
        a,
        "upper"@ + ",workdir="@ + fs::work_path(a),
        b,
        "upper"@ + ",workdir="@ + fs::work_path(b),
    );
}

/// The overlays of two containers share no layer, and are mounted on different
/// directories.
pub proof fn overlays_share_no_layer(a: Seq<char>, b: Seq<char>)
    requires
        sandbox::laws::is_plain(a),
        sandbox::laws::is_plain(b),
        a != b,
    ensures
        ({
            let (x, y) = (fs::fs_script(a), fs::fs_script(b));
            &&& x.last() matches OpView::MountOverlay { target, options } && (
            y.last() matches OpView::MountOverlay { target: other, options: others } && target
                != other && options != others)
            &&& forall|i: int, j: int|
                0 <= i < 5 && 0 <= j < 5 ==> #[trigger] x[i] != #[trigger] y[j]
        }),
{
    sandbox::laws::containers_share_no_directory(a, b);
    lemma_options_differ(a, b);
    assert forall|i: int, j: int| 0 <= i < 5 && 0 <= j < 5 implies #[trigger] fs::fs_script(a)[i]
        != #[trigger] fs::fs_script(b)[j] by {
        lemma_made_apart(a, i, b, j);
    }
}

/// The file system of a container is unmounted where it was mounted, and then
/// all of its directory is removed.
pub proof fn removal_unmounts_first(container_id: Seq<char>)
    ensures
        fs::fs_removal(container_id) == seq![
            OpView::Detach { target: fs::merged_path(container_id) },
            OpView::RemoveDirAll {
                path: text::joined_path("/run/cb/containers"@, container_id),
            },
        ],
        fs::fs_script(container_id).last() matches OpView::MountOverlay { target, .. } && target
            == fs::merged_path(container_id),
{
    assert(fs::fs_removal(container_id) =~= seq![
        OpView::Detach { target: fs::merged_path(container_id) },
        OpView::RemoveDirAll { path: text::joined_path("/run/cb/containers"@, container_id) },
    ]);
}

/// The control group of a container is made in one that passes the memory
/// controller on.
pub proof fn control_group_has_the_memory_controller(container_id: Seq<char>)
    ensures
        cgroup::cgroup_script(container_id) == seq![
            OpView::CreateDirAll { path: "/sys/fs/cgroup/cb"@ },
            OpView::Write {
                path: "/sys/fs/cgroup/cb/cgroup.subtree_control"@,
                contents: "+memory"@,
            },
            OpView::CreateDirAll {
                path: text::joined_path("/sys/fs/cgroup/cb"@, container_id),
            },
        ],
{
    reveal_strlit("/sys/fs/cgroup/cb");
    reveal_strlit("cgroup.subtree_control");
    reveal_strlit("/sys/fs/cgroup/cb/cgroup.subtree_control");
    assert(text::joined_path("/sys/fs/cgroup/cb"@, "cgroup.subtree_control"@)
        =~= "/sys/fs/cgroup/cb/cgroup.subtree_control"@);
    assert(cgroup::cgroup_script(container_id) =~= seq![
        OpView::CreateDirAll { path: "/sys/fs/cgroup/cb"@ },
        OpView::Write {
            path: "/sys/fs/cgroup/cb/cgroup.subtree_control"@,
            contents: "+memory"@,
        },
        OpView::CreateDirAll { path: text::joined_path("/sys/fs/cgroup/cb"@, container_id) },
    ]);
}

/// A process joins a control group by its number, which reads back from what is
/// written.
pub proof fn process_joins_by_its_number(path: Seq<char>, pid: u32)
    ensures
        cgroup::join_op(path, pid) matches OpView::Write { path: file, contents } && file
            == text::joined_path(path, "cgroup.procs"@) && contents == text::decimal(pid as nat)
            && text::parsed_unsigned(contents, u32::MAX as nat) == Some(pid as nat),
{
    text::decimal_reads_back(pid as nat);
    assert(text::parsed_unsigned(text::decimal(pid as nat), u32::MAX as nat) == Some(pid as nat));
}

/// A limit is written where the kernel reads it, so that it reads back as the
/// same number of bytes, and as a word where it is none.
pub proof fn limit_is_written_as_given(path: Seq<char>, bytes: u64)
    ensures
        cgroup::limit_op(path, bytes) matches OpView::Write { path: file, contents } && file
            == text::joined_path(path, "memory.max"@) && cgroup::memory_limit_of(contents) == Some(
            bytes as nat,
        ) && contents == (if bytes == 0xffff_ffff_ffff_ffff {
            "max"@
        } else {
            text::decimal(bytes as nat)
        }),
{
    cgroup::written_limit_reads_back(bytes);
}

/// Whether an operation writes to this file.
pub open spec fn writes_to(op: OpView, file: Seq<char>) -> bool {
    op matches OpView::Write { path, .. } && path == file
}

/// The memory of a container is bounded by what the user gave: the preparation
/// writes once to the limit of the container's control group, last, after the
/// group has been made; and what it writes stands for the same number of bytes
/// as what the user gave. Where that stands for none, no limit is written.
pub proof fn memory_is_bounded_as_given(plan: LaunchPlan, cfg: ConfigView)
    requires
        plan.is_for(cfg),
    ensures
        ({
            let list = plan.prepare.deep_view();
            let last = list.len() - 1;
            let group = text::joined_path("/sys/fs/cgroup/cb"@, cfg.container_id);
            let file = text::joined_path(group, "memory.max"@);
            let given = cgroup::memory_limit_of(cfg.memory_limit);
            &&& plan.cgroup.path@ == group
            &&& given is Some ==> {
                &&& writes_to(list[last], file)
                &&& makes_before(list, group, last)
                &&& forall|i: int| 0 <= i < last ==> !writes_to(#[trigger] list[i], file)
                &&& list[last] matches OpView::Write { contents, .. } && cgroup::memory_limit_of(
                    contents,
                ) == given
            }
            &&& given is None ==> forall|i: int|
                0 <= i < list.len() ==> !writes_to(#[trigger] list[i], file)
            &&& match plan.memory {
                Some(bytes) => given == Some(bytes as nat),
                None => given is None,
            }
        }),
{
    let list = plan.prepare.deep_view();
    let a = fs::fs_script(cfg.container_id);
    let b = cgroup::cgroup_script(cfg.container_id);
    let group = text::joined_path("/sys/fs/cgroup/cb"@, cfg.container_id);
    let file = text::joined_path(group, "memory.max"@);
    control_group_has_the_memory_controller(cfg.container_id);
    reveal_strlit("memory.max");
    reveal_strlit("/sys/fs/cgroup/cb/cgroup.subtree_control");
    assert(file.last() == 'x');
    assert("/sys/fs/cgroup/cb/cgroup.subtree_control"@.last() == 'l');
    assert forall|i: int| 0 <= i < 9 implies !writes_to(#[trigger] list[i], file) by {
        if i < 6 {
            assert(list[i] == a[i]);
        } else {
            assert(list[i] == b[i - 6]);
        }
    }
    if let Some(bytes) = plan.memory {
        let op = cgroup::limit_op(group, bytes);
        assert(cgroup::memory_limit_of(cfg.memory_limit) == Some(bytes as nat));
        assert(list.len() == 10 && list[9] == op);
        limit_is_written_as_given(group, bytes);
        assert(list[8] == b[2]);
    } else {
        assert(list.len() == 9);
    }
}

/// The preparation of a container makes its file system, then its control
/// group, and nothing else but the limit.
pub proof fn preparation_is_complete(plan: LaunchPlan, cfg: ConfigView)
    requires
        plan.is_for(cfg),
    ensures
        ({
            let list = plan.prepare.deep_view();
            let files = fs::fs_script(cfg.container_id);
            let group = cgroup::cgroup_script(cfg.container_id);
            &&& list.len() <= files.len() + group.len() + 1
            &&& list.take((files.len() + group.len()) as int) == files + group
            &&& plan.fs.merged@ == fs::merged_path(cfg.container_id)
            &&& plan.fs.upper@ == fs::upper_path(cfg.container_id)
            &&& plan.fs.work@ == fs::work_path(cfg.container_id)
            &&& plan.host_if@ == "v"@ + sandbox::short_id(cfg.container_id)
            &&& plan.cont_if@ == "c"@ + sandbox::short_id(cfg.container_id)
        }),
{
    let list = plan.prepare.deep_view();
    let files = fs::fs_script(cfg.container_id);
    let group = cgroup::cgroup_script(cfg.container_id);
    assert(list.take((files.len() + group.len()) as int) =~= files + group);
}

/// The interfaces of a container are named by the first eight bytes of its
/// identifier, with a letter for each side in front.
pub proof fn interfaces_are_named_by_the_identifier(container_id: Seq<char>)
    requires
        sandbox::has_short_id(container_id),
    ensures
        sandbox::short_id(container_id).is_prefix_of(container_id),
        utf8::encode_utf8(sandbox::short_id(container_id)).len() == 8,
        sandbox::host_interface(container_id) == "v"@ + sandbox::short_id(container_id),
        sandbox::container_interface(container_id) == "c"@ + sandbox::short_id(container_id),
{
    text::laws::cutting_keeps_the_first_bytes(container_id, 8);
}

/// A command, as it is run: the program, and its words.
pub open spec fn runs(op: OpView, bin: Seq<char>, args: Seq<Seq<char>>) -> bool {
    op == (OpView::Run { bin, args, complaint: None })
}

/// The same command in the network of the process `pid`.
pub open spec fn runs_inside(op: OpView, pid: u32, args: Seq<Seq<char>>) -> bool {
    runs(op, "nsenter"@, seq!["-t"@, text::decimal(pid as nat), "-n"@] + args)
}

/// A container is joined to the bridge: a pair of interfaces with the two names
/// is made, the host's one is put on the bridge and brought up, the container's
/// one is moved to the network of its process, and there given the container's
/// address, brought up, and made the way to the bridge's address.
pub proof fn container_is_joined_to_the_bridge(
    host_if: Seq<char>,
    cont_if: Seq<char>,
    pid: u32,
    ip: Seq<char>,
)
    ensures
        ({
            let list = network::veth_script(host_if, cont_if, pid, ip);
            let number = text::decimal(pid as nat);
            let ip_program = "ip"@;
            &&& list.len() == 7
            &&& runs(
                list[0],
                ip_program,
                seq!["link"@, "add"@, host_if, "type"@, "veth"@, "peer"@, "name"@, cont_if],
            )
            &&& runs(list[1], ip_program, seq!["link"@, "set"@, host_if, "master"@, "cb0"@])
            &&& runs(list[2], ip_program, seq!["link"@, "set"@, host_if, "up"@])
            &&& runs(list[3], ip_program, seq!["link"@, "set"@, cont_if, "netns"@, number])
            &&& runs_inside(
                list[4],
                pid,
                seq!["ip"@, "addr"@, "add"@, ip + "/24"@, "dev"@, cont_if],
            )
            &&& runs_inside(list[5], pid, seq!["ip"@, "link"@, "set"@, cont_if, "up"@])
            &&& runs_inside(
                list[6],
                pid,
                seq!["ip"@, "route"@, "add"@, "default"@, "via"@, "10.0.0.1"@],
            )
        }),
{
}

/// The bridge is looked for; if it is not there it is made and given the address
/// that the containers take as their way out; and it is brought up.
pub proof fn bridge_has_the_gateway_address()
    ensures
        ({
            let list = network::bridge_script();
            &&& list.len() == 4
            &&& list[0] == (OpView::Probe {
                bin: "ip"@,
                args: seq!["link"@, "show"@, "cb0"@],
                skip: 2,
            })
            &&& runs(list[1], "ip"@, seq!["link"@, "add"@, "cb0"@, "type"@, "bridge"@])
            &&& runs(
                list[2],
                "ip"@,
                seq!["addr"@, "add"@, "10.0.0.1"@ + "/24"@, "dev"@, "cb0"@],
            )
            &&& runs(list[3], "ip"@, seq!["link"@, "set"@, "cb0"@, "up"@])
        }),
{
}

/// A rule is looked for by the words that add it, with the action changed, and
/// added by those words.
pub open spec fn ensures_rule(
    probe: OpView,
    addition: OpView,
    look: Seq<Seq<char>>,
    append: Seq<Seq<char>>,
) -> bool {
    &&& probe == (OpView::Probe { bin: "iptables"@, args: look, skip: 1 })
    &&& runs(addition, "iptables"@, append)
}

/// Containers reach other hosts: the kernel forwards, what they send is sent on
/// under the host's address, and what goes out of their network and into it is
/// let through.
pub proof fn containers_reach_other_hosts()
    ensures
        ({
            let list = network::nat_script();
            let net = "10.0.0.0/24"@;
            &&& list.len() == 7
            &&& list[0] == (OpView::Write {
                path: "/proc/sys/net/ipv4/ip_forward"@,
                contents: "1"@,
            })
            &&& ensures_rule(
                list[1],
                list[2],
                seq!["-t"@, "nat"@, "-C"@, "POSTROUTING"@, "-s"@, net, "-j"@, "MASQUERADE"@],
                seq!["-t"@, "nat"@, "-A"@, "POSTROUTING"@, "-s"@, net, "-j"@, "MASQUERADE"@],
            )
            &&& ensures_rule(
                list[3],
                list[4],
                seq!["-C"@, "FORWARD"@, "-s"@, net, "-j"@, "ACCEPT"@],
                seq!["-A"@, "FORWARD"@, "-s"@, net, "-j"@, "ACCEPT"@],
            )
            &&& ensures_rule(
                list[5],
                list[6],
                seq!["-C"@, "FORWARD"@, "-d"@, net, "-j"@, "ACCEPT"@],
                seq!["-A"@, "FORWARD"@, "-d"@, net, "-j"@, "ACCEPT"@],
            )
        }),
{
    reveal_strlit("-A");
    reveal_strlit("-C");
    reveal_strlit("-t");
    reveal_strlit("-s");
    reveal_strlit("-d");
    reveal_strlit("-j");
    reveal_strlit("nat");
    reveal_strlit("POSTROUTING");
    reveal_strlit("FORWARD");
    reveal_strlit("MASQUERADE");
    reveal_strlit("ACCEPT");
    reveal_strlit("10.0.0.0/24");
    let net = "10.0.0.0/24"@;
    assert("-A"@[1] == 'A' && "-t"@[1] == 't' && "-s"@[1] == 's' && "-d"@[1] == 'd' && "-j"@[1]
        == 'j');
    assert("nat"@.len() == 3 && "POSTROUTING"@.len() == 11 && "FORWARD"@.len() == 7
        && "MASQUERADE"@.len() == 10 && "ACCEPT"@.len() == 6 && net.len() == 11 && "-A"@.len()
        == 2);
    assert(network::check_args(
        seq!["-t"@, "nat"@, "-A"@, "POSTROUTING"@, "-s"@, net, "-j"@, "MASQUERADE"@],
    ) =~= seq!["-t"@, "nat"@, "-C"@, "POSTROUTING"@, "-s"@, net, "-j"@, "MASQUERADE"@]);
    assert(network::check_args(seq!["-A"@, "FORWARD"@, "-s"@, net, "-j"@, "ACCEPT"@]) =~= seq![
        "-C"@,
        "FORWARD"@,
        "-s"@,
        net,
        "-j"@,
        "ACCEPT"@,
    ]);
    assert(network::check_args(seq!["-A"@, "FORWARD"@, "-d"@, net, "-j"@, "ACCEPT"@]) =~= seq![
        "-C"@,
        "FORWARD"@,
        "-d"@,
        net,
        "-j"@,
        "ACCEPT"@,
    ]);
}

/// The container finds a name server in its own root, and its loopback
/// interface is brought up.
pub proof fn container_finds_names(merged: Seq<char>)
    ensures
        network::dns_script(merged) == seq![
            OpView::Write {
                path: text::joined_path(merged, "etc/resolv.conf"@),
                contents: "nameserver 8.8.8.8\n"@,
            },
        ],
        network::loopback_script() == seq![
            OpView::Run {
                bin: "ip"@,
                args: seq!["link"@, "set"@, "lo"@, "up"@],
                complaint: Some("启动 lo 失败"@),
            },
        ],
{
    assert(network::dns_script(merged) =~= seq![
        OpView::Write {
            path: text::joined_path(merged, "etc/resolv.conf"@),
            contents: "nameserver 8.8.8.8\n"@,
        },
    ]);
    assert(network::loopback_script() =~= seq![
        OpView::Run {
            bin: "ip"@,
            args: seq!["link"@, "set"@, "lo"@, "up"@],
            complaint: Some("启动 lo 失败"@),
        },
    ]);
}

/// What the parent of a container does, in order: it gives up the container's
/// ends of the pipes, moves the process to the container's control group, waits
/// for the namespaces, makes the bridge, joins the container to it by its own
/// interfaces and address, lets it reach other hosts, tells it its name server,
/// and lets it go on.
pub proof fn parent_sets_up_this_container(cfg: ConfigView, pid: u32, pipes: Pipes)
    ensures
        ({
            let list = sandbox::attach_script(cfg, pid, pipes);
            let group = text::joined_path("/sys/fs/cgroup/cb"@, cfg.container_id);
            let base = text::joined_path("/run/cb/containers"@, cfg.container_id);
            &&& list.len() == 26
            &&& list[0] == (OpView::CloseFd { fd: pipes.ns_w })
            &&& list[1] == (OpView::CloseFd { fd: pipes.net_r })
            &&& list[2] == (OpView::Write {
                path: text::joined_path(group, "cgroup.procs"@),
                contents: text::decimal(pid as nat),
            })
            &&& list[3] == (OpView::Wait { fd: pipes.ns_r })
            &&& list[4] == (OpView::CloseFd { fd: pipes.ns_r })
            &&& list.subrange(5, 9) == network::bridge_script()
            &&& list.subrange(9, 16) == network::veth_script(
                "v"@ + sandbox::short_id(cfg.container_id),
                "c"@ + sandbox::short_id(cfg.container_id),
                pid,
                cfg.ip,
            )
            &&& list.subrange(16, 23) == network::nat_script()
            &&& list.subrange(23, 24) == network::dns_script(text::joined_path(base, "merged"@))
            &&& list[24] == (OpView::Notify { fd: pipes.net_w })
            &&& list[25] == (OpView::CloseFd { fd: pipes.net_w })
        }),
{
    let list = sandbox::attach_script(cfg, pid, pipes);
    assert(list.len() == 26);
    assert(list.subrange(5, 9) =~= network::bridge_script());
    assert(list.subrange(9, 16) =~= network::veth_script(
        sandbox::host_interface(cfg.container_id),
        sandbox::container_interface(cfg.container_id),
        pid,
        cfg.ip,
    ));
    assert(list.subrange(16, 23) =~= network::nat_script());
    assert(list.subrange(23, 24) =~= network::dns_script(fs::merged_path(cfg.container_id)));
}

/// A terminal becomes all three standard streams of a new session that it
/// controls, and its own descriptor is closed unless it is one of them.
pub proof fn terminal_becomes_the_standard_streams(slave: i32)
    ensures
        ({
            let list = sandbox::tty_script(slave);
            &&& list.take(5) == seq![
                OpView::NewSession,
                OpView::ControllingTerminal { fd: slave },
                OpView::Duplicate { fd: slave, onto: 0 },
                OpView::Duplicate { fd: slave, onto: 1 },
                OpView::Duplicate { fd: slave, onto: 2 },
            ]
            &&& slave <= 2 ==> list.len() == 5
            &&& slave > 2 ==> list.len() == 6 && list[5] == (OpView::CloseFd { fd: slave })
        }),
{
    let list = sandbox::tty_script(slave);
    assert(list.take(5) =~= seq![
        OpView::NewSession,
        OpView::ControllingTerminal { fd: slave },
        OpView::Duplicate { fd: slave, onto: 0 },
        OpView::Duplicate { fd: slave, onto: 1 },
        OpView::Duplicate { fd: slave, onto: 2 },
    ]);
}

/// The first process of a container moves to new namespaces, says so, and
/// takes the host name that the container was given.
pub proof fn first_process_leaves_the_namespaces(cfg: ConfigView, pipes: Pipes)
    ensures
        sandbox::namespace_script(cfg, pipes) == seq![
            OpView::CloseFd { fd: pipes.ns_r },
            OpView::CloseFd { fd: pipes.net_w },
            OpView::Unshare,
            OpView::Notify { fd: pipes.ns_w },
            OpView::CloseFd { fd: pipes.ns_w },
            OpView::SetHostname { name: cfg.hostname },
        ],
{
    assert(sandbox::namespace_script(cfg, pipes) =~= seq![
        OpView::CloseFd { fd: pipes.ns_r },
        OpView::CloseFd { fd: pipes.net_w },
        OpView::Unshare,
        OpView::Notify { fd: pipes.ns_w },
        OpView::CloseFd { fd: pipes.ns_w },
        OpView::SetHostname { name: cfg.hostname },
    ]);
}

/// Whether a command has a word and none of its words holds a zero: what the
/// kernel takes.
pub open spec fn kernel_takes(command: Seq<Seq<char>>) -> bool {
    command.len() > 0 && forall|i: int, j: int|
        0 <= i < command.len() && 0 <= j < command[i].len() ==> #[trigger] command[i][j] != '\0'
}

/// A list of operations without probes in which nothing fails is carried out
/// from its first to its last.
pub proof fn unfailing_list_is_carried_out(list: Seq<OpView>, outcomes: Seq<OutcomeView>, at: nat)
    requires
        at <= list.len(),
        outcomes.len() + at >= list.len(),
        forall|i: int| 0 <= i < list.len() ==> !((#[trigger] list[i]) is Probe),
        forall|i: int|
            at <= i < list.len() ==> sandbox::laws::does_not_fail(
                #[trigger] list[i],
                outcomes[i - at],
            ),
    ensures
        script::trace(list, at, outcomes).len() == list.len() - at,
        forall|i: int|
            0 <= i < list.len() - at ==> #[trigger] script::trace(list, at, outcomes)[i] == at + i,
        script::ending(list, at, outcomes) == Some(Ok::<(), AppErrorView>(())),
    decreases list.len() - at,
{
    if at < list.len() {
        assert(sandbox::laws::does_not_fail(list[at as int], outcomes[0]));
        assert(script::next(list[at as int], at, outcomes[0]) == Ok::<
            nat,
            AppErrorView,
        >(at + 1));
        let rest = outcomes.drop_first();
        assert forall|i: int| at + 1 <= i < list.len() implies sandbox::laws::does_not_fail(
            #[trigger] list[i],
            rest[i - (at + 1)],
        ) by {
            assert(rest[i - (at + 1)] == outcomes[i - at]);
        }
        unfailing_list_is_carried_out(list, rest, at + 1);
        let steps = script::trace(list, at, outcomes);
        let tail = script::trace(list, at + 1, rest);
        assert(steps == seq![at] + tail);
        assert forall|i: int| 0 <= i < list.len() - at implies #[trigger] steps[i] == at + i by {
            if i > 0 {
                assert(steps[i] == tail[i - 1]);
            }
        }
    }
}

/// A container becomes its command: whatever the command is, if the kernel takes
/// it, becoming it is the last thing that the container does, and if nothing
/// fails it is done. What the kernel does not take is never tried. Before that
/// come, in order, the loopback interface, the wait for the network, the
/// terminal if there is one, and the root.
pub proof fn container_becomes_its_command(
    cfg: ConfigView,
    merged: Seq<char>,
    pipes: Pipes,
    outcomes: Seq<OutcomeView>,
)
    ensures
        ({
            let list = sandbox::container_script(cfg, merged, pipes);
            let last = (list.len() - 1) as nat;
            let unfailing = outcomes.len() >= list.len() && forall|i: int|
                0 <= i < list.len() ==> sandbox::laws::does_not_fail(
                    #[trigger] list[i],
                    outcomes[i],
                );
            let done = if kernel_takes(cfg.command) {
                last as int
            } else {
                list.len() as int
            };
            &&& kernel_takes(cfg.command) ==> list.last() == (OpView::Exec { argv: cfg.command })
            &&& kernel_takes(cfg.command) && unfailing ==> script::trace(
                list,
                0,
                outcomes,
            ).last() == last
            &&& !kernel_takes(cfg.command) ==> forall|i: int|
                0 <= i < list.len() ==> !((#[trigger] list[i]) is Exec)
            &&& list.take(done) == network::loopback_script() + seq![
                OpView::Wait { fd: pipes.net_r },
                OpView::CloseFd { fd: pipes.net_r },
            ] + (match cfg.stdio {
                Some(slave) => sandbox::tty_script(slave),
                None => seq![],
            }) + seq![
                OpView::MountProc { target: text::joined_path(merged, "proc"@) },
                OpView::BindDevices { target: text::joined_path(merged, "dev"@) },
                OpView::ChangeRoot { path: merged },
                OpView::ChangeDir { path: "/"@ },
            ]
        }),
{
    let list = sandbox::container_script(cfg, merged, pipes);
    let last = (list.len() - 1) as nat;
    assert(kernel_takes(cfg.command) == sandbox::is_executable(cfg.command)) by {
        if kernel_takes(cfg.command) {
            assert forall|i: int| 0 <= i < cfg.command.len() implies !(
            #[trigger] cfg.command[i]).contains('\0') by {
                let word = cfg.command[i];
                assert forall|j: int| 0 <= j < word.len() implies word[j] != '\0' by {
                    assert(cfg.command[i][j] != '\0');
                }
            }
        }
        if sandbox::is_executable(cfg.command) {
            assert forall|i: int, j: int|
                0 <= i < cfg.command.len() && 0 <= j < cfg.command[i].len() implies
                #[trigger] cfg.command[i][j] != '\0' by {
                assert(!cfg.command[i].contains('\0'));
            }
        }
    }
    let tty = match cfg.stdio {
        Some(slave) => sandbox::tty_script(slave),
        None => seq![],
    };
    let head = network::loopback_script() + seq![
        OpView::Wait { fd: pipes.net_r },
        OpView::CloseFd { fd: pipes.net_r },
    ];
    let root = seq![
        OpView::MountProc { target: text::joined_path(merged, "proc"@) },
        OpView::BindDevices { target: text::joined_path(merged, "dev"@) },
        OpView::ChangeRoot { path: merged },
        OpView::ChangeDir { path: "/"@ },
    ];
    assert(sandbox::rootfs_script(merged) =~= root);
    let tail = if kernel_takes(cfg.command) {
        seq![OpView::Exec { argv: cfg.command }]
    } else {
        seq![]
    };
    let before = head + tty + root;
    assert(list =~= before + tail);
    assert(list.take(before.len() as int) =~= before);
    assert forall|k: int| 0 <= k < before.len() implies !((#[trigger] before[k]) is Probe)
        && !(before[k] is Exec) by {
        let a = head.len() as int;
        let b = a + tty.len();
        if k < a {
            assert(before[k] == head[k]);
        } else if k < b {
            assert(before[k] == tty[k - a]);
        } else {
            assert(before[k] == root[k - b]);
        }
    }
    assert forall|k: int| 0 <= k < list.len() implies !((#[trigger] list[k]) is Probe) by {
        if k < before.len() {
            assert(list[k] == before[k]);
        }
    }
    if !kernel_takes(cfg.command) {
        assert forall|i: int| 0 <= i < list.len() implies !((#[trigger] list[i]) is Exec) by {
            assert(list[i] == before[i]);
        }
    } else if outcomes.len() >= list.len() && forall|i: int|
        0 <= i < list.len() ==> sandbox::laws::does_not_fail(#[trigger] list[i], outcomes[i]) {
        unfailing_list_is_carried_out(list, outcomes, 0);
        assert(script::trace(list, 0, outcomes)[last as int] == last);
    }
}

/// A start goes on as long as nothing fails: from each operation of the
/// preparation to the next, then to the pipes, to the process, to what its
/// parent does for this process over these pipes, and to its end, with the
/// process that was made. It stops before the pipes where the memory limit
/// cannot be read.
pub proof fn unfailing_start_goes_on(
    cfg: ConfigView,
    at: nat,
    pid: u32,
    pipes: Pipes,
    outcome: OutcomeView,
)
    ensures
        ({
            let list = sandbox::prepare_script(cfg);
            let (stage, action) = start::start_step(
                cfg,
                StageView::Preparing { at },
                StartEventView::Carried { outcome },
            );
            at < list.len() && sandbox::laws::does_not_fail(list[at as int], outcome) ==> {
                &&& at + 1 < list.len() ==> stage == (StageView::Preparing { at: at + 1 })
                    && action is Perform
                &&& at + 1 == list.len() && cgroup::memory_limit_of(cfg.memory_limit) is Some
                    ==> stage is MakingPipes && action is MakePipes
                &&& at + 1 == list.len() && cgroup::memory_limit_of(cfg.memory_limit) is None
                    ==> stage is Ended && action == (StartActionView::Unreadable {
                    undo: seq![
                        OpView::RemoveDir {
                            path: text::joined_path("/sys/fs/cgroup/cb"@, cfg.container_id),
                        },
                    ],
                })
            }
        }),
        start::start_step(
            cfg,
            StageView::MakingPipes,
            StartEventView::PipesMade { pipes: Ok(pipes) },
        ) == (StageView::Forking { pipes }, StartActionView::Fork),
        start::start_step(
            cfg,
            StageView::Forking { pipes },
            StartEventView::Forked { pid: Ok(pid) },
        ) == (
            StageView::Attaching {
                pid,
                pipes,
                script: sandbox::attach_script(cfg, pid, pipes),
                at: 0,
            },
            StartActionView::Perform,
        ),
        ({
            let list = sandbox::attach_script(cfg, pid, pipes);
            let (stage, action) = start::start_step(
                cfg,
                StageView::Attaching { pid, pipes, script: list, at },
                StartEventView::Carried { outcome },
            );
            at < list.len() && sandbox::laws::does_not_fail(list[at as int], outcome) && !(
            list[at as int] is Probe) ==> {
                &&& at + 1 < list.len() ==> stage == (StageView::Attaching {
                    pid,
                    pipes,
                    script: list,
                    at: at + 1,
                }) && action is Perform
                &&& at + 1 == list.len() ==> stage is Ended && action == (StartActionView::Finish {
                    pid,
                })
            }
        }),
        start::start_begun() == (StageView::Preparing { at: 0 }, StartActionView::Perform),
{
    let list = sandbox::prepare_script(cfg);
    sandbox::laws::preparation_is_well_formed(cfg);
    if at < list.len() {
        assert(!(list[at as int] is Probe));
    }
}

/// A start that fails in its preparation removes the control group just when an
/// operation before the one that failed has made it.
pub proof fn failed_preparation_removes_a_group_that_was_made(
    cfg: ConfigView,
    at: nat,
    outcome: OutcomeView,
)
    requires
        sandbox::laws::is_plain(cfg.container_id),
        at < sandbox::prepare_script(cfg).len(),
        !sandbox::laws::does_not_fail(sandbox::prepare_script(cfg)[at as int], outcome),
    ensures
        ({
            let group = text::joined_path("/sys/fs/cgroup/cb"@, cfg.container_id);
            let (stage, action) = start::start_step(
                cfg,
                StageView::Preparing { at },
                StartEventView::Carried { outcome },
            );
            &&& stage is Ended
            &&& action matches StartActionView::Fail { undo, error } && (if makes_before(
                sandbox::prepare_script(cfg),
                group,
                at as int,
            ) {
                undo == seq![OpView::RemoveDir { path: group }]
            } else {
                undo == Seq::<OpView>::empty()
            }) && outcome == OutcomeView::Failed(error)
        }),
{
    let list = sandbox::prepare_script(cfg);
    let id = cfg.container_id;
    let a = fs::fs_script(id);
    let b = cgroup::cgroup_script(id);
    let group = text::joined_path("/sys/fs/cgroup/cb"@, id);
    sandbox::laws::preparation_is_well_formed(cfg);
    control_group_has_the_memory_controller(id);
    reveal_strlit("/sys/fs/cgroup/cb");
    reveal_strlit("/run/cb/containers");
    assert(id.contains(id[0]));
    assert(group.len() > "/sys/fs/cgroup/cb"@.len());
    assert(group[1] == 's');
    let base = fs::base_path(id);
    assert(base[1] == 'r');
    assert(forall|i: int| 0 <= i < 6 ==> list[i] == a[i]);
    assert(list[6] == b[0] && list[7] == b[1] && list[8] == b[2]);
    reveal_strlit("upper");
    reveal_strlit("work");
    reveal_strlit("merged");
    reveal_strlit("proc");
    reveal_strlit("dev");
    assert(fs::upper_path(id)[1] == base[1]);
    assert(fs::work_path(id)[1] == base[1]);
    assert(fs::merged_path(id)[1] == base[1]);
    assert(text::joined_path(fs::merged_path(id), "proc"@)[1] == base[1]);
    assert(text::joined_path(fs::merged_path(id), "dev"@)[1] == base[1]);
    assert forall|i: int| 0 <= i < 8 implies #[trigger] list[i] != (OpView::CreateDirAll {
        path: group,
    }) by {
        if i < 6 {
            assert(list[i] == a[i]);
        }
    }
    if at >= 9 {
        assert(list[8] == (OpView::CreateDirAll { path: group }));
    }
}

/// A start that fails after its preparation removes the control group, whatever
/// it fails of; the error is the one that came.
pub proof fn failed_start_removes_the_group(
    cfg: ConfigView,
    pipes: Pipes,
    pid: u32,
    at: nat,
    error: AppErrorView,
    outcome: OutcomeView,
)
    ensures
        ({
            let undo = seq![
                OpView::RemoveDir {
                    path: text::joined_path("/sys/fs/cgroup/cb"@, cfg.container_id),
                },
            ];
            let fails = (StageView::Ended, StartActionView::Fail { undo, error });
            let list = sandbox::attach_script(cfg, pid, pipes);
            let attaching = StageView::Attaching { pid, pipes, script: list, at };
            &&& start::start_step(
                cfg,
                StageView::MakingPipes,
                StartEventView::PipesMade { pipes: Err(error) },
            ) == fails
            &&& start::start_step(
                cfg,
                StageView::Forking { pipes },
                StartEventView::Forked { pid: Err(error) },
            ) == fails
            &&& at < list.len() && outcome == OutcomeView::Failed(error) && !script::is_tolerant(
                list[at as int],
            ) ==> start::start_step(cfg, attaching, StartEventView::Carried { outcome }) == fails
            &&& at < list.len() && outcome is Refused && list[at as int] is Run ==> {
                let (stage, action) = start::start_step(
                    cfg,
                    attaching,
                    StartEventView::Carried { outcome },
                );
                &&& stage is Ended
                &&& action matches StartActionView::Fail { undo: done, error: said } && done == undo
                    && said is Io
            }
        }),
{
}

/// After a probe a start goes on as the probe says.
pub proof fn start_goes_on_after_a_probe(
    cfg: ConfigView,
    pipes: Pipes,
    pid: u32,
    at: nat,
    outcome: OutcomeView,
)
    ensures
        ({
            let list = sandbox::attach_script(cfg, pid, pipes);
            let stage = StageView::Attaching { pid, pipes, script: list, at };
            at < list.len() ==> match list[at as int] {
                OpView::Probe { skip, .. } => {
                    let to = if outcome is Done {
                        at + 1 + skip
                    } else {
                        at + 1
                    };
                    to < list.len() ==> start::start_step(
                        cfg,
                        stage,
                        StartEventView::Carried { outcome },
                    ) == (
                        StageView::Attaching { pid, pipes, script: list, at: to },
                        StartActionView::Perform,
                    )
                },
                _ => true,
            }
        }),
{
}

/// Nothing is done of an event that a start does not wait for, and it stays
/// where it is.
pub proof fn start_leaves_other_events(cfg: ConfigView, stage: StageView, event: StartEventView)
    requires
        match stage {
            StageView::Preparing { .. } => !(event is Carried),
            StageView::MakingPipes => !(event is PipesMade),
            StageView::Forking { .. } => !(event is Forked),
            StageView::Attaching { .. } => !(event is Carried),
            StageView::Ended => true,
        },
    ensures
        start::start_step(cfg, stage, event) == (stage, StartActionView::Nothing),
{
}

/// A configuration and a start are all of what they hold.
pub proof fn start_is_seen_whole(
    cfg: SandboxConfig,
    stage: Stage,
    event: StartEvent,
    action: StartAction,
)
    ensures
        cfg@.container_id == cfg.container_id@,
        cfg@.command == cfg.command.deep_view(),
        cfg@.memory_limit == cfg.memory_limit@,
        cfg@.hostname == cfg.hostname@,
        cfg@.ip == cfg.ip@,
        cfg@.stdio == cfg.stdio,
        stage matches Stage::Preparing { at } ==> stage@ == (StageView::Preparing { at: at as nat }),
        stage is MakingPipes <==> stage@ is MakingPipes,
        stage matches Stage::Forking { pipes } ==> stage@ == (StageView::Forking { pipes }),
        stage matches Stage::Attaching { pid, pipes, script, at } ==> stage@ == (
        StageView::Attaching { pid, pipes, script: script.deep_view(), at: at as nat }),
        stage is Ended <==> stage@ is Ended,
        event matches StartEvent::Carried { outcome } ==> event@ == (StartEventView::Carried {
            outcome: outcome@,
        }),
        event matches StartEvent::PipesMade { pipes: Ok(pipes) } ==> event@ == (
        StartEventView::PipesMade { pipes: Ok(pipes) }),
        event matches StartEvent::PipesMade { pipes: Err(e) } ==> event@ == (
        StartEventView::PipesMade { pipes: Err(e@) }),
        event matches StartEvent::Forked { pid: Ok(pid) } ==> event@ == (StartEventView::Forked {
            pid: Ok(pid),
        }),
        event matches StartEvent::Forked { pid: Err(e) } ==> event@ == (StartEventView::Forked {
            pid: Err(e@),
        }),
        action is Perform <==> action@ is Perform,
        action is MakePipes <==> action@ is MakePipes,
        action is Fork <==> action@ is Fork,
        action is Nothing <==> action@ is Nothing,
        action matches StartAction::Finish { pid } ==> action@ == (StartActionView::Finish { pid }),
        action matches StartAction::Fail { undo, error } ==> action@ == (StartActionView::Fail {
            undo: undo.deep_view(),
            error: error@,
        }),
        action matches StartAction::Unreadable { undo } ==> action@ == (
        StartActionView::Unreadable { undo: undo.deep_view() }),
{
}

/// A start that fails in its preparation undoes nothing as long as the control
/// group is still to be made, and after that removes it.
pub proof fn preparation_is_undone_from_the_group_on(
    cfg: ConfigView,
    at: nat,
    outcome: OutcomeView,
    error: AppErrorView,
)
    requires
        at < sandbox::prepare_script(cfg).len(),
        outcome == OutcomeView::Failed(error),
        !script::is_tolerant(sandbox::prepare_script(cfg)[at as int]),
    ensures
        ({
            let made = fs::fs_script(cfg.container_id).len() + cgroup::cgroup_script(
                cfg.container_id,
            ).len();
            let remove = OpView::RemoveDir {
                path: text::joined_path("/sys/fs/cgroup/cb"@, cfg.container_id),
            };
            start::start_step(
                cfg,
                StageView::Preparing { at },
                StartEventView::Carried { outcome },
            ) == (
                StageView::Ended,
                StartActionView::Fail {
                    undo: if at < made {
                        seq![]
                    } else {
                        seq![remove]
                    },
                    error,
                },
            )
        }),
{
}

/// Any rule is looked for by its own words, but for the action to add, which is
/// to look; if it is there it is not added, and else it is added by its own
/// words.
pub proof fn rule_is_looked_for_before_it_is_added(add_args: Seq<Seq<char>>, i: int)
    ensures
        ({
            let list = network::rule(add_args);
            &&& list.len() == 2
            &&& list[0] matches OpView::Probe { bin, args, skip } && bin == "iptables"@ && skip == 1
                && args.len() == add_args.len() && (0 <= i < add_args.len() ==> args[i] == (
            if add_args[i] == "-A"@ {
                "-C"@
            } else {
                add_args[i]
            }))
            &&& runs(list[1], "iptables"@, add_args)
        }),
{
}

/// An identifier can be cut for names if it has eight bytes and the eighth ends
/// a character.
pub proof fn identifier_is_cut_behind_a_character(container_id: Seq<char>)
    ensures
        sandbox::has_short_id(container_id) <==> utf8::encode_utf8(container_id).len() >= 8
            && text::has_byte_prefix(container_id, 8),
        sandbox::short_id(container_id) == text::byte_prefix(container_id, 8),
{
}

/// A start is in order just when it is at an operation of the list that it
/// carries out, and, once the process is there, the list is the one for this
/// process and these pipes.
pub proof fn order_is_being_in_the_list(cfg: ConfigView, stage: StageView)
    ensures
        start::stage_in_order(cfg, stage) <==> (match stage {
            StageView::Preparing { at } => at < sandbox::prepare_script(cfg).len(),
            StageView::Attaching { pid, pipes, script, at } => at < script.len() && script
                == sandbox::attach_script(cfg, pid, pipes),
            _ => true,
        }),
{
}

} // verus!
