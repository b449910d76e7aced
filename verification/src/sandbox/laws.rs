//! In what order a container is set up.

use crate::error::AppErrorView;
use crate::sandbox::start::{StageView, StartActionView, StartEventView};
use crate::sandbox::{cgroup, fs, network, start, ConfigView, Pipes};
use crate::script::{OpView, OutcomeView};
use crate::{sandbox, script, text};
use vstd::prelude::*;
use vstd::utf8;

verus! {

/// Whether the operation at `i` is carried out before the one that `reached`
/// counts to, and does not fail.
pub open spec fn succeeds_before(
    list: Seq<OpView>,
    outcomes: Seq<OutcomeView>,
    reached: int,
    i: nat,
) -> bool {
    exists|p: int|
        0 <= p < reached && #[trigger] script::trace(list, 0, outcomes)[p] == i
            && does_not_fail(list[i as int], outcomes[p])
}

/// Whether an outcome is one with which an operation has done its work: a
/// command has to report success, and nothing may fail but what may.
pub open spec fn does_not_fail(op: OpView, outcome: OutcomeView) -> bool {
    &&& op is Run ==> outcome is Done
    &&& outcome is Failed ==> script::is_tolerant(op)
}

/// Where a list of operations has no probe, one of them is reached only when
/// all before it have been carried out and have not failed.
pub proof fn all_before_succeed(
    list: Seq<OpView>,
    outcomes: Seq<OutcomeView>,
    reached: int,
    i: nat,
)
    requires
        forall|k: int| 0 <= k < list.len() ==> !((#[trigger] list[k]) is Probe),
        0 <= reached < script::trace(list, 0, outcomes).len(),
        i < script::trace(list, 0, outcomes)[reached],
    ensures
        succeeds_before(list, outcomes, reached, i),
{
    let steps = script::trace(list, 0, outcomes);
    script::trace_is_bounded(list, 0, outcomes);
    script::steps_are_reached_in_order(list, 0, outcomes, reached, i);
    if script::is_left_out(list, steps, outcomes, i) {
        let p = choose|p: int|
            0 <= p < steps.len() && outcomes[p] is Done && (
            match list[(#[trigger] steps[p]) as int] {
                OpView::Probe { skip, .. } => steps[p] < i <= steps[p] + skip,
                _ => false,
            });
        assert(!(list[steps[p] as int] is Probe));
    } else {
        let p = choose|p: int|
            0 <= p < reached && #[trigger] steps[p] == i && script::next(
                list[i as int],
                i,
                outcomes[p],
            ) is Ok;
        assert(does_not_fail(list[i as int], outcomes[p]));
    }
}

/// A container is let go on once, and only after its network has been set up:
/// each command before that has succeeded, or has been left out because a
/// probe showed that its work was done.
pub proof fn network_comes_before_release(
    cfg: ConfigView,
    pid: u32,
    pipes: Pipes,
    outcomes: Seq<OutcomeView>,
    reached: int,
    i: nat,
)
    requires
        ({
            let list = sandbox::attach_script(cfg, pid, pipes);
            let steps = script::trace(list, 0, outcomes);
            &&& 0 <= reached < steps.len()
            &&& list[steps[reached] as int] is Notify
            &&& i < list.len()
            &&& list[i as int] is Run || list[i as int] is Write
        }),
    ensures
        ({
            let list = sandbox::attach_script(cfg, pid, pipes);
            let steps = script::trace(list, 0, outcomes);
            &&& steps[reached] == list.len() - 2
            &&& list[list.len() - 2] == (OpView::Notify { fd: pipes.net_w })
            &&& i < steps[reached]
            &&& succeeds_before(list, outcomes, reached, i) || script::is_left_out(
                list,
                steps,
                outcomes,
                i,
            )
        }),
{
    let list = sandbox::attach_script(cfg, pid, pipes);
    let steps = script::trace(list, 0, outcomes);
    script::trace_is_bounded(list, 0, outcomes);
    assert(list.len() == 26);
    assert(steps[reached] == 24);
    assert(script::well_formed(list));
    script::steps_are_reached_in_order(list, 0, outcomes, reached, i);
    if !script::is_left_out(list, steps, outcomes, i) {
        let p = choose|p: int|
            0 <= p < reached && #[trigger] steps[p] == i && script::next(
                list[i as int],
                i,
                outcomes[p],
            ) is Ok;
        assert(does_not_fail(list[i as int], outcomes[p]));
    }
}

/// The network of a container is set up only after its process has joined its
/// control group and its parent has waited for its namespaces.
pub proof fn namespaces_come_before_network(cfg: ConfigView, pid: u32, pipes: Pipes, i: int)
    requires
        0 <= i < sandbox::attach_script(cfg, pid, pipes).len(),
        sandbox::attach_script(cfg, pid, pipes)[i] is Run,
    ensures
        exists|joins: int, waits: int|
            0 <= joins < waits < i && #[trigger] sandbox::attach_script(cfg, pid, pipes)[joins]
                == cgroup::join_op(cgroup::cgroup_path(cfg.container_id), pid)
                && #[trigger] sandbox::attach_script(cfg, pid, pipes)[waits] == (OpView::Wait {
                fd: pipes.ns_r,
            }),
{
    let list = sandbox::attach_script(cfg, pid, pipes);
    assert(list[2] == cgroup::join_op(cgroup::cgroup_path(cfg.container_id), pid));
    assert(list[3] == (OpView::Wait { fd: pipes.ns_r }));
    assert(!(list[0] is Run) && !(list[1] is Run) && !(list[4] is Run));
}

/// The parent is told of the namespaces only when they are there.
pub proof fn notification_follows_unshare(
    cfg: ConfigView,
    pipes: Pipes,
    outcomes: Seq<OutcomeView>,
    reached: int,
)
    requires
        0 <= reached < script::trace(
            sandbox::namespace_script(cfg, pipes),
            0,
            outcomes,
        ).len(),
        sandbox::namespace_script(cfg, pipes)[script::trace(
            sandbox::namespace_script(cfg, pipes),
            0,
            outcomes,
        )[reached] as int] is Notify,
    ensures
        exists|p: int|
            0 <= p < reached && #[trigger] sandbox::namespace_script(cfg, pipes)[script::trace(
                sandbox::namespace_script(cfg, pipes),
                0,
                outcomes,
            )[p] as int] is Unshare && !(outcomes[p] is Failed),
{
    let list = sandbox::namespace_script(cfg, pipes);
    let steps = script::trace(list, 0, outcomes);
    script::trace_is_bounded(list, 0, outcomes);
    assert(steps[reached] == 3);
    all_before_succeed(list, outcomes, reached, 2);
    let p = choose|p: int|
        0 <= p < reached && #[trigger] steps[p] == 2 && does_not_fail(list[2], outcomes[p]);
    assert(list[steps[p] as int] is Unshare);
}

/// A container becomes its command last, and only when everything that
/// confines it has been carried out and has not failed: among that, that it
/// waited for its network, that its root is `merged`, and that it stands in
/// that root.
pub proof fn exec_comes_last(
    cfg: ConfigView,
    merged: Seq<char>,
    pipes: Pipes,
    outcomes: Seq<OutcomeView>,
    reached: int,
)
    requires
        0 <= reached < script::trace(
            sandbox::container_script(cfg, merged, pipes),
            0,
            outcomes,
        ).len(),
        sandbox::container_script(cfg, merged, pipes)[script::trace(
            sandbox::container_script(cfg, merged, pipes),
            0,
            outcomes,
        )[reached] as int] is Exec,
    ensures
        ({
            let list = sandbox::container_script(cfg, merged, pipes);
            let last = (list.len() - 1) as nat;
            let steps = script::trace(list, 0, outcomes);
            &&& steps[reached] == last
            &&& list[last as int] == (OpView::Exec { argv: cfg.command })
            &&& forall|i: nat| i < last ==> #[trigger] succeeds_before(list, outcomes, reached, i)
            &&& list[1] == (OpView::Wait { fd: pipes.net_r })
            &&& list[last - 2] == (OpView::ChangeRoot { path: merged })
            &&& list[last - 1] == (OpView::ChangeDir { path: "/"@ })
        }),
{
    let list = sandbox::container_script(cfg, merged, pipes);
    let last = (list.len() - 1) as nat;
    let steps = script::trace(list, 0, outcomes);
    script::trace_is_bounded(list, 0, outcomes);
    let tty = match cfg.stdio {
        Some(slave) => sandbox::tty_script(slave),
        None => seq![],
    };
    let head = network::loopback_script() + seq![
        OpView::Wait { fd: pipes.net_r },
        OpView::CloseFd { fd: pipes.net_r },
    ];
    let rootfs = sandbox::rootfs_script(merged);
    let tail = if sandbox::is_executable(cfg.command) {
        seq![OpView::Exec { argv: cfg.command }]
    } else {
        seq![]
    };
    assert(list == head + tty + rootfs + tail);
    assert forall|k: int| 0 <= k < list.len() implies !((#[trigger] list[k]) is Probe) && (
    list[k] is Exec ==> k == last && tail.len() == 1) by {
        let a = head.len() as int;
        let b = a + tty.len();
        let c = b + rootfs.len();
        if k < a {
            assert(list[k] == head[k]);
        } else if k < b {
            assert(list[k] == tty[k - a]);
        } else if k < c {
            assert(list[k] == rootfs[k - b]);
        } else {
            assert(list[k] == tail[k - c]);
        }
    }
    assert forall|i: nat| i < last implies #[trigger] succeeds_before(
        list,
        outcomes,
        reached,
        i,
    ) by {
        all_before_succeed(list, outcomes, reached, i);
    }
    assert(list[1] == head[1]);
    assert(list[last - 2] == rootfs[2]);
    assert(list[last - 1] == rootfs[3]);
}

/// Every directory that is made for a container, and the place where its file
/// system is mounted, lie below the directory that is removed with it.
pub proof fn removal_covers_setup(container_id: Seq<char>, i: int)
    requires
        0 <= i < fs::fs_script(container_id).len(),
    ensures
        match fs::fs_script(container_id)[i] {
            OpView::CreateDirAll { path } => fs::base_path(container_id).is_prefix_of(path),
            OpView::MountOverlay { target, .. } => fs::base_path(container_id).is_prefix_of(
                target,
            ) && fs::fs_removal(container_id)[0] == (OpView::Detach { target }),
            _ => false,
        },
        fs::fs_removal(container_id)[1] == (OpView::RemoveDirAll {
            path: fs::base_path(container_id),
        }),
{
    let base = fs::base_path(container_id);
    reveal_strlit("upper");
    reveal_strlit("work");
    reveal_strlit("merged");
    reveal_strlit("proc");
    reveal_strlit("dev");
    joined_path_extends(base, "upper"@);
    joined_path_extends(base, "work"@);
    joined_path_extends(base, "merged"@);
    joined_path_extends(fs::merged_path(container_id), "proc"@);
    joined_path_extends(fs::merged_path(container_id), "dev"@);
    if i == 3 || i == 4 {
        let merged = fs::merged_path(container_id);
        let path = text::joined_path(
            merged,
            if i == 3 {
                "proc"@
            } else {
                "dev"@
            },
        );
        assert(path.subrange(0, base.len() as int) =~= merged.subrange(0, base.len() as int)) by {
            assert(path.subrange(0, merged.len() as int) =~= merged);
        }
        assert(base.is_prefix_of(path));
    }
}

proof fn joined_path_extends(base: Seq<char>, relative: Seq<char>)
    requires
        relative.len() > 0,
        relative[0] != '/',
    ensures
        base.is_prefix_of(text::joined_path(base, relative)),
        base.len() <= text::joined_path(base, relative).len(),
        text::joined_path(base, relative).subrange(0, base.len() as int) == base,
{
    let path = text::joined_path(base, relative);
    assert(path.subrange(0, base.len() as int) =~= base);
}

/// Whether an identifier names one entry of a directory.
pub open spec fn is_plain(container_id: Seq<char>) -> bool {
    container_id.len() > 0 && !container_id.contains('/')
}

proof fn plain_path(dir: Seq<char>, name: Seq<char>)
    requires
        dir.len() > 0,
        dir.last() != '/',
        is_plain(name),
    ensures
        text::joined_path(dir, name) == dir + seq!['/'] + name,
        text::joined_path(dir, name).len() > 0,
        text::joined_path(dir, name).last() != '/',
{
    assert(name.contains(name[0]));
    assert(name.contains(name.last()));
    let path = text::joined_path(dir, name);
    assert(path.last() == name.last());
}

proof fn plain_paths_differ(dir: Seq<char>, a: Seq<char>, b: Seq<char>, rest: Seq<char>)
    requires
        dir + seq!['/'] + a + rest == dir + seq!['/'] + b + rest,
    ensures
        a == b,
{
    let x = dir + seq!['/'] + a + rest;
    let y = dir + seq!['/'] + b + rest;
    let n = (dir.len() + 1) as int;
    assert(x.len() == y.len());
    assert(a =~= x.subrange(n, n + a.len()));
    assert(b =~= y.subrange(n, n + b.len()));
}

/// Every container has layers and a control group of its own: different plain
/// identifiers give different directories, and so does each of the layers.
pub proof fn containers_share_no_directory(a: Seq<char>, b: Seq<char>)
    requires
        is_plain(a),
        is_plain(b),
        a != b,
    ensures
        fs::base_path(a) != fs::base_path(b),
        fs::upper_path(a) != fs::upper_path(b),
        fs::work_path(a) != fs::work_path(b),
        fs::merged_path(a) != fs::merged_path(b),
        cgroup::cgroup_path(a) != cgroup::cgroup_path(b),
{
    reveal_strlit("/run/cb/containers");
    reveal_strlit("/sys/fs/cgroup/cb");
    let dir = fs::CONTAINERS_DIR@;
    let none: Seq<char> = seq![];
    plain_path(dir, a);
    plain_path(dir, b);
    if fs::base_path(a) == fs::base_path(b) {
        assert(dir + seq!['/'] + a + none =~= dir + seq!['/'] + b + none) by {
            assert(dir + seq!['/'] + a + none =~= fs::base_path(a));
            assert(dir + seq!['/'] + b + none =~= fs::base_path(b));
        }
        plain_paths_differ(dir, a, b, none);
    }
    let groups = cgroup::CGROUP_BASE@;
    plain_path(groups, a);
    plain_path(groups, b);
    if cgroup::cgroup_path(a) == cgroup::cgroup_path(b) {
        assert(groups + seq!['/'] + a + none =~= groups + seq!['/'] + b + none) by {
            assert(groups + seq!['/'] + a + none =~= cgroup::cgroup_path(a));
            assert(groups + seq!['/'] + b + none =~= cgroup::cgroup_path(b));
        }
        plain_paths_differ(groups, a, b, none);
    }
    reveal_strlit("upper");
    reveal_strlit("work");
    reveal_strlit("merged");
    layers_differ(a, b, "upper"@);
    layers_differ(a, b, "work"@);
    layers_differ(a, b, "merged"@);
}

proof fn layers_differ(a: Seq<char>, b: Seq<char>, layer: Seq<char>)
    requires
        is_plain(a),
        is_plain(b),
        a != b,
        layer.len() > 0,
        layer[0] != '/',
    ensures
        text::joined_path(fs::base_path(a), layer) != text::joined_path(fs::base_path(b), layer),
{
    reveal_strlit("/run/cb/containers");
    let dir = fs::CONTAINERS_DIR@;
    plain_path(dir, a);
    plain_path(dir, b);
    let rest = seq!['/'] + layer;
    let x = text::joined_path(fs::base_path(a), layer);
    let y = text::joined_path(fs::base_path(b), layer);
    assert(x =~= dir + seq!['/'] + a + rest);
    assert(y =~= dir + seq!['/'] + b + rest);
    if x == y {
        plain_paths_differ(dir, a, b, rest);
    }
}

/// The first bytes of an ASCII text are its first characters.
pub proof fn short_id_of_ascii(container_id: Seq<char>)
    requires
        utf8::is_ascii_chars(container_id),
        container_id.len() >= 8,
    ensures
        sandbox::has_short_id(container_id),
        sandbox::short_id(container_id) == container_id.take(8),
{
    text::byte_prefix_of_ascii(container_id, 8);
}

/// The interfaces of a container with an ASCII identifier have names of nine
/// ASCII characters, which the kernel takes, and which differ from each other.
pub proof fn interface_names_fit(container_id: Seq<char>)
    requires
        utf8::is_ascii_chars(container_id),
        container_id.len() >= 8,
    ensures
        sandbox::host_interface(container_id).len() == 9,
        sandbox::container_interface(container_id).len() == 9,
        utf8::is_ascii_chars(sandbox::host_interface(container_id)),
        utf8::is_ascii_chars(sandbox::container_interface(container_id)),
        sandbox::host_interface(container_id) != sandbox::container_interface(container_id),
{
    short_id_of_ascii(container_id);
    reveal_strlit("v");
    reveal_strlit("c");
    assert(sandbox::host_interface(container_id)[0] == 'v');
    assert(sandbox::container_interface(container_id)[0] == 'c');
}

/// A rule of the packet filter that is there is not added again.
pub proof fn rule_is_not_added_twice(add_args: Seq<Seq<char>>, outcomes: Seq<OutcomeView>)
    requires
        outcomes.len() > 0,
        outcomes[0] is Done,
    ensures
        script::trace(network::rule(add_args), 0, outcomes) == seq![0nat],
{
    reveal_with_fuel(script::trace, 2);
    assert(script::trace(network::rule(add_args), 0, outcomes) =~= seq![0nat]);
}

/// A rule of the packet filter that is not there is added.
pub proof fn missing_rule_is_added(add_args: Seq<Seq<char>>, outcomes: Seq<OutcomeView>)
    requires
        outcomes.len() > 1,
        !(outcomes[0] is Done),
    ensures
        script::trace(network::rule(add_args), 0, outcomes) == seq![0nat, 1nat],
{
    reveal_with_fuel(script::trace, 3);
    assert(outcomes.drop_first()[0] == outcomes[1]);
    assert(script::trace(network::rule(add_args), 0, outcomes) =~= seq![0nat, 1nat]);
}

/// What comes of adding a rule of the packet filter: it is looked for first,
/// and if it is there nothing is added and all is well; otherwise, be it that
/// it is not there or that it cannot be looked for, it is added once, and what
/// comes of that decides.
pub proof fn adding_a_rule_is_decided(add_args: Seq<Seq<char>>, outcomes: Seq<OutcomeView>)
    requires
        outcomes.len() > 1,
    ensures
        ({
            let list = network::rule(add_args);
            let found = outcomes[0] is Done;
            &&& list[0] == (OpView::Probe {
                bin: "iptables"@,
                args: network::check_args(add_args),
                skip: 1,
            })
            &&& list[1] == network::command("iptables"@, add_args)
            &&& found ==> script::trace(list, 0, outcomes) == seq![0nat] && script::ending(
                list,
                0,
                outcomes,
            ) == Some(Ok::<(), AppErrorView>(()))
            &&& !found ==> script::trace(list, 0, outcomes) == seq![0nat, 1nat] && script::ending(
                list,
                0,
                outcomes,
            ) == Some(
                match outcomes[1] {
                    OutcomeView::Done => Ok(()),
                    OutcomeView::Refused => Err(
                        AppErrorView::Io(script::complaint_of("iptables"@, add_args, None)),
                    ),
                    OutcomeView::Failed(error) => Err(error),
                },
            )
        }),
{
    if outcomes[0] is Done {
        rule_is_not_added_twice(add_args, outcomes);
    } else {
        missing_rule_is_added(add_args, outcomes);
    }
    reveal_with_fuel(script::ending, 3);
    assert(outcomes.drop_first()[0] == outcomes[1]);
}

/// How many copies of a rule there are after it was added with the given
/// outcomes, where there were `copies`: one more if the command that adds it
/// was carried out and succeeded.
pub open spec fn copies_after(
    copies: nat,
    add_args: Seq<Seq<char>>,
    outcomes: Seq<OutcomeView>,
) -> nat {
    if script::trace(network::rule(add_args), 0, outcomes).contains(1) && outcomes[1] is Done {
        copies + 1
    } else {
        copies
    }
}

/// Adding a rule again and again leaves one copy of it: if there is at most
/// one, the rule is found just when there is one, and all is well in the end,
/// there is exactly one.
pub proof fn adding_a_rule_leaves_one_copy(
    copies: nat,
    add_args: Seq<Seq<char>>,
    outcomes: Seq<OutcomeView>,
)
    requires
        copies <= 1,
        outcomes.len() > 1,
        outcomes[0] is Done <==> copies > 0,
        script::ending(network::rule(add_args), 0, outcomes) == Some(Ok::<(), AppErrorView>(())),
    ensures
        copies_after(copies, add_args, outcomes) == 1,
{
    adding_a_rule_is_decided(add_args, outcomes);
    let steps = script::trace(network::rule(add_args), 0, outcomes);
    if !(outcomes[0] is Done) {
        assert(steps[1] == 1);
    }
}

/// Looking for a rule and adding it differ in the action alone.
pub proof fn rule_is_looked_for_as_added(add_args: Seq<Seq<char>>, i: int)
    requires
        0 <= i < add_args.len(),
    ensures
        network::check_args(add_args).len() == add_args.len(),
        add_args[i] == "-A"@ ==> network::check_args(add_args)[i] == "-C"@,
        add_args[i] != "-A"@ ==> network::check_args(add_args)[i] == add_args[i],
{
}

/// A bridge that is there is not made again, only brought up.
pub proof fn bridge_is_not_made_twice(outcomes: Seq<OutcomeView>)
    requires
        outcomes.len() > 1,
        outcomes[0] is Done,
    ensures
        script::trace(network::bridge_script(), 0, outcomes) == seq![0nat, 3nat],
{
    reveal_with_fuel(script::trace, 3);
    assert(outcomes.drop_first()[0] == outcomes[1]);
    assert(script::trace(network::bridge_script(), 0, outcomes) =~= seq![0nat, 3nat]);
}

/// A bridge that is not there is made, given its address and brought up.
pub proof fn missing_bridge_is_made(outcomes: Seq<OutcomeView>)
    requires
        outcomes.len() > 3,
        !(outcomes[0] is Done),
        outcomes[1] is Done,
        outcomes[2] is Done,
    ensures
        script::trace(network::bridge_script(), 0, outcomes) == seq![0nat, 1nat, 2nat, 3nat],
{
    reveal_with_fuel(script::trace, 5);
    let second = outcomes.drop_first();
    let third = second.drop_first();
    assert(second[0] == outcomes[1]);
    assert(third[0] == outcomes[2]);
    assert(third.drop_first()[0] == outcomes[3]);
    assert(script::trace(network::bridge_script(), 0, outcomes) =~= seq![
        0nat,
        1nat,
        2nat,
        3nat,
    ]);
}

/// What prepares a container can be carried out as a script, without probes.
pub proof fn preparation_is_well_formed(cfg: ConfigView)
    ensures
        script::well_formed(sandbox::prepare_script(cfg)),
        forall|i: int|
            0 <= i < sandbox::prepare_script(cfg).len() ==> !((#[trigger] sandbox::prepare_script(
                cfg,
            )[i]) is Probe),
        sandbox::prepare_script(cfg).len() >= sandbox::cgroup_made_at(cfg) > 0,
{
    let list = sandbox::prepare_script(cfg);
    let a = fs::fs_script(cfg.container_id);
    let b = cgroup::cgroup_script(cfg.container_id);
    assert forall|i: int| 0 <= i < list.len() implies !((#[trigger] list[i]) is Probe) by {
        if i < a.len() {
            assert(list[i] == a[i]);
        } else if i < a.len() + b.len() {
            assert(list[i] == b[i - a.len()]);
        }
    }
}

/// How far a start has come after the given events, and what it asks for.
pub open spec fn start_after(cfg: ConfigView, events: Seq<StartEventView>) -> (
    StageView,
    StartActionView,
)
    decreases events.len(),
{
    if events.len() == 0 {
        start::start_begun()
    } else {
        start::start_step(cfg, start_after(cfg, events.drop_last()).0, events.last())
    }
}

/// Whether, when the start was at the operation at `i` of its preparation, the
/// operation was carried out and let the list go on.
pub open spec fn prepared(cfg: ConfigView, events: Seq<StartEventView>, i: nat) -> bool {
    exists|k: int|
        0 <= k < events.len() && (#[trigger] start_after(cfg, events.take(k))).0 == (
        StageView::Preparing { at: i }) && lets_go_on(
            sandbox::prepare_script(cfg)[i as int],
            i,
            events[k],
        )
}

/// Whether an event says that an operation was carried out and lets its list go
/// on.
pub open spec fn lets_go_on(op: OpView, i: nat, event: StartEventView) -> bool {
    match event {
        StartEventView::Carried { outcome } => script::next(op, i, outcome) is Ok,
        _ => false,
    }
}

/// Whether, when the start was at the operation at `i` of what the parent of
/// the process `pid` does, the operation was carried out with this event.
pub open spec fn attached_by(
    cfg: ConfigView,
    events: Seq<StartEventView>,
    pid: u32,
    pipes: Pipes,
    i: nat,
    k: int,
) -> bool {
    let list = sandbox::attach_script(cfg, pid, pipes);
    &&& 0 <= k < events.len()
    &&& start_after(cfg, events.take(k)).0 == (StageView::Attaching {
        pid,
        pipes,
        script: list,
        at: i,
    })
    &&& lets_go_on(list[i as int], i, events[k])
}

/// Whether the operation at `i` of what the parent of the process `pid` does
/// was carried out and let the list go on, or was left out because a probe
/// before it succeeded.
pub open spec fn attached(
    cfg: ConfigView,
    events: Seq<StartEventView>,
    pid: u32,
    pipes: Pipes,
    i: nat,
) -> bool {
    let list = sandbox::attach_script(cfg, pid, pipes);
    ||| exists|k: int| #[trigger] attached_by(cfg, events, pid, pipes, i, k)
    ||| exists|p: nat, k: int| #[trigger]
        attached_by(cfg, events, pid, pipes, p, k) && events[k] == (StartEventView::Carried {
            outcome: OutcomeView::Done,
        }) && (match list[p as int] {
            OpView::Probe { skip, .. } => p < i <= p + skip,
            _ => false,
        })
}

/// Whether all that the parent of the process `pid` does was carried out or left
/// out.
pub open spec fn is_attached(
    cfg: ConfigView,
    events: Seq<StartEventView>,
    pid: u32,
    pipes: Pipes,
) -> bool {
    forall|i: nat|
        i < sandbox::attach_script(cfg, pid, pipes).len() ==> #[trigger] attached(
            cfg,
            events,
            pid,
            pipes,
            i,
        )
}

/// What a start has behind it at each stage.
pub open spec fn has_behind_it(
    cfg: ConfigView,
    events: Seq<StartEventView>,
    stage: StageView,
) -> bool {
    match stage {
        StageView::Preparing { at } => forall|i: nat| i < at ==> #[trigger] prepared(
            cfg,
            events,
            i,
        ),
        StageView::MakingPipes => is_prepared(cfg, events),
        StageView::Forking { .. } => is_prepared(cfg, events),
        StageView::Attaching { pid, pipes, at, .. } => is_prepared(cfg, events) && forall|i: nat|
            i < at ==> #[trigger] attached(cfg, events, pid, pipes, i),
        StageView::Ended => true,
    }
}

/// Whether the whole preparation was carried out, each operation letting it go
/// on, and the memory limit can be read.
pub open spec fn is_prepared(cfg: ConfigView, events: Seq<StartEventView>) -> bool {
    &&& cgroup::memory_limit_of(cfg.memory_limit) is Some
    &&& forall|i: nat|
        i < sandbox::prepare_script(cfg).len() ==> #[trigger] prepared(cfg, events, i)
}

proof fn lemma_behind_stays(cfg: ConfigView, events: Seq<StartEventView>)
    requires
        events.len() > 0,
    ensures
        forall|i: nat|
            prepared(cfg, events.drop_last(), i) ==> #[trigger] prepared(cfg, events, i),
        forall|pid: u32, pipes: Pipes, i: nat, k: int| #[trigger]
            attached_by(cfg, events.drop_last(), pid, pipes, i, k) ==> attached_by(
                cfg,
                events,
                pid,
                pipes,
                i,
                k,
            ) && events[k] == events.drop_last()[k],
        forall|pid: u32, pipes: Pipes, i: nat|
            attached(cfg, events.drop_last(), pid, pipes, i) ==> #[trigger] attached(
                cfg,
                events,
                pid,
                pipes,
                i,
            ),
{
    let init = events.drop_last();
    assert forall|i: nat| prepared(cfg, init, i) implies #[trigger] prepared(cfg, events, i) by {
        let k = choose|k: int|
            0 <= k < init.len() && (#[trigger] start_after(cfg, init.take(k))).0 == (
            StageView::Preparing { at: i }) && lets_go_on(
                sandbox::prepare_script(cfg)[i as int],
                i,
                init[k],
            );
        assert(events.take(k) =~= init.take(k));
        assert(events[k] == init[k]);
        assert(start_after(cfg, events.take(k)).0 == (StageView::Preparing { at: i }));
    }
    assert forall|pid: u32, pipes: Pipes, i: nat, k: int| #[trigger]
        attached_by(cfg, init, pid, pipes, i, k) implies attached_by(
        cfg,
        events,
        pid,
        pipes,
        i,
        k,
    ) && events[k] == init[k] by {
        assert(events.take(k) =~= init.take(k));
    }
    assert forall|pid: u32, pipes: Pipes, i: nat|
        attached(cfg, init, pid, pipes, i) implies #[trigger] attached(
        cfg,
        events,
        pid,
        pipes,
        i,
    ) by {
        if exists|k: int| #[trigger] attached_by(cfg, init, pid, pipes, i, k) {
            let k = choose|k: int| #[trigger] attached_by(cfg, init, pid, pipes, i, k);
            assert(attached_by(cfg, events, pid, pipes, i, k));
        } else {
            let (p, k) = choose|p: nat, k: int| #[trigger]
                attached_by(cfg, init, pid, pipes, p, k) && init[k] == (StartEventView::Carried {
                    outcome: OutcomeView::Done,
                }) && (match sandbox::attach_script(cfg, pid, pipes)[p as int] {
                    OpView::Probe { skip, .. } => p < i <= p + skip,
                    _ => false,
                });
            assert(attached_by(cfg, events, pid, pipes, p, k));
        }
    }
}

/// Whatever comes of what it asks for, a start has behind it what belongs to
/// its stage.
pub proof fn start_goes_in_order(cfg: ConfigView, events: Seq<StartEventView>)
    ensures
        start::stage_in_order(cfg, start_after(cfg, events).0),
        has_behind_it(cfg, events, start_after(cfg, events).0),
    decreases events.len(),
{
    preparation_is_well_formed(cfg);
    if events.len() > 0 {
        let init = events.drop_last();
        let last = (events.len() - 1) as int;
        start_goes_in_order(cfg, init);
        lemma_behind_stays(cfg, events);
        assert(events.take(last) =~= init);
        let before = start_after(cfg, init).0;
        let after = start_after(cfg, events).0;
        match (before, events.last()) {
            (StageView::Preparing { at }, StartEventView::Carried { outcome }) => {
                let prepare = sandbox::prepare_script(cfg);
                if script::next(prepare[at as int], at, outcome) is Ok {
                    assert(!(prepare[at as int] is Probe));
                    assert(start_after(cfg, events.take(last)).0 == before);
                    assert(prepared(cfg, events, at));
                }
            },
            (
                StageView::Attaching { pid, pipes, script: list, at },
                StartEventView::Carried { outcome },
            ) => {
                if let Ok(to) = script::next(list[at as int], at, outcome) {
                    assert(attached_by(cfg, events, pid, pipes, at, last));
                    assert forall|i: nat| i < to implies #[trigger] attached(
                        cfg,
                        events,
                        pid,
                        pipes,
                        i,
                    ) by {
                        if i < at {
                            assert(attached(cfg, init, pid, pipes, i));
                        }
                    }
                }
            },
            (StageView::Forking { pipes }, StartEventView::Forked { pid }) => {
                if let Ok(pid) = pid {
                    assert(script::well_formed(sandbox::attach_script(cfg, pid, pipes)));
                }
            },
            _ => {},
        }
    }
}

/// A process is asked for only when every operation of the preparation has
/// been carried out and let it go on, and the memory limit can be read.
pub proof fn process_needs_preparation(cfg: ConfigView, events: Seq<StartEventView>)
    requires
        start_after(cfg, events).1 is Fork,
    ensures
        is_prepared(cfg, events),
{
    start_goes_in_order(cfg, events);
}

/// A start succeeds only when, besides, everything that the parent of the
/// process does has been carried out and let it go on, or was left out because
/// a probe before it succeeded.
pub proof fn success_needs_attachment(cfg: ConfigView, events: Seq<StartEventView>, pid: u32)
    requires
        start_after(cfg, events).1 == (StartActionView::Finish { pid }),
    ensures
        is_prepared(cfg, events),
        exists|pipes: Pipes| is_attached(cfg, events, pid, pipes),
{
    let init = events.drop_last();
    let last = (events.len() - 1) as int;
    start_goes_in_order(cfg, init);
    lemma_behind_stays(cfg, events);
    assert(events.take(last) =~= init);
    if let StageView::Attaching { pid, pipes, script: list, at } = start_after(cfg, init).0 {
        assert(attached_by(cfg, events, pid, pipes, at, last));
        assert forall|i: nat| i < list.len() implies #[trigger] attached(
            cfg,
            events,
            pid,
            pipes,
            i,
        ) by {
            if i < at {
                assert(attached(cfg, init, pid, pipes, i));
            }
        }
        assert(is_attached(cfg, events, pid, pipes));
    }
}

/// The error that an event brings a start whose preparation is over, if it
/// brings one.
pub open spec fn late_error(stage: StageView, event: StartEventView) -> Option<AppErrorView> {
    match (stage, event) {
        (StageView::MakingPipes, StartEventView::PipesMade { pipes: Err(error) }) => Some(error),
        (StageView::Forking { .. }, StartEventView::Forked { pid: Err(error) }) => Some(error),
        (
            StageView::Attaching { script: list, at, .. },
            StartEventView::Carried { outcome },
        ) => match script::next(list[at as int], at, outcome) {
            Err(error) => Some(error),
            Ok(_) => None,
        },
        _ => None,
    }
}

/// Whatever fails once the preparation is over, be it the pipes, the process or
/// what its parent does, the start ends with that error, and the control group
/// is removed; and it fails with nothing else.
pub proof fn late_failure_removes_the_control_group(
    cfg: ConfigView,
    stage: StageView,
    event: StartEventView,
)
    requires
        !(stage is Preparing),
    ensures
        match late_error(stage, event) {
            Some(error) => start::start_step(cfg, stage, event) == (
                StageView::Ended,
                StartActionView::Fail {
                    undo: seq![
                        OpView::RemoveDir { path: cgroup::cgroup_path(cfg.container_id) },
                    ],
                    error,
                },
            ),
            None => !(start::start_step(cfg, stage, event).1 is Fail),
        },
{
    preparation_is_well_formed(cfg);
}

/// A preparation that fails ends the start with the error of the operation that
/// failed. The control group is removed just when it had been made.
pub proof fn early_failure_undoes_what_was_made(cfg: ConfigView, at: nat, outcome: OutcomeView)
    requires
        at < sandbox::prepare_script(cfg).len(),
    ensures
        ({
            let next = script::next(sandbox::prepare_script(cfg)[at as int], at, outcome);
            let step = start::start_step(
                cfg,
                StageView::Preparing { at },
                StartEventView::Carried { outcome },
            );
            &&& next matches Err(error) ==> step == (
                StageView::Ended,
                StartActionView::Fail {
                    undo: if at < sandbox::cgroup_made_at(cfg) {
                        seq![]
                    } else {
                        seq![OpView::RemoveDir { path: cgroup::cgroup_path(cfg.container_id) }]
                    },
                    error,
                },
            )
            &&& next is Ok ==> !(step.1 is Fail)
        }),
{
}

} // verus!
