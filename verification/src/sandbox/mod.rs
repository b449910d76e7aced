//! The sandbox that a container runs in.

pub mod cgroup;
pub mod effects;
pub mod fs;
pub mod laws;
pub mod limits;
pub mod network;
pub mod start;

pub use cgroup::Cgroup;
pub use fs::ContainerFs;

use crate::script::{Op, OpView};
use crate::{script, text};
use vstd::prelude::*;
use vstd::utf8;

verus! {

/// What a container is started with. `stdio` is the terminal that it talks to,
/// if it has one.
pub struct SandboxConfig {
    pub container_id: String,
    pub command: Vec<String>,
    pub memory_limit: String,
    pub hostname: String,
    pub ip: String,
    pub stdio: Option<i32>,
}

#[verifier::ext_equal]
pub struct ConfigView {
    pub container_id: Seq<char>,
    pub command: Seq<Seq<char>>,
    pub memory_limit: Seq<char>,
    pub hostname: Seq<char>,
    pub ip: Seq<char>,
    pub stdio: Option<i32>,
}

impl View for SandboxConfig {
    type V = ConfigView;

    open spec fn view(&self) -> ConfigView {
        ConfigView {
            container_id: self.container_id@,
            command: self.command.deep_view(),
            memory_limit: self.memory_limit@,
            hostname: self.hostname@,
            ip: self.ip@,
            stdio: self.stdio,
        }
    }
}

/// The ends of the two pipes over which a container and its parent wait for
/// each other: `ns` tells the parent that the namespaces are there, `net`
/// tells the container that its network is.
#[derive(Debug, Clone, Copy, PartialEq, Eq, Structural)]
pub struct Pipes {
    pub ns_r: i32,
    pub ns_w: i32,
    pub net_r: i32,
    pub net_w: i32,
}

/// How a container is started: what is done before its process is there, and
/// what the rest of the start needs to know.
pub struct LaunchPlan {
    pub fs: ContainerFs,
    pub cgroup: Cgroup,
    /// The bound on its memory, if the configuration has one.
    pub memory: Option<u64>,
    pub prepare: Vec<Op>,
    /// How many operations of `prepare` make the control group and what comes
    /// before it.
    pub cgroup_made: usize,
    /// The interface on the host's side.
    pub host_if: String,
    /// The interface on the container's side.
    pub cont_if: String,
}

/// Whether the first eight bytes of an identifier are there and are text.
pub open spec fn has_short_id(container_id: Seq<char>) -> bool {
    utf8::encode_utf8(container_id).len() >= 8 && text::has_byte_prefix(container_id, 8)
}

/// The first eight bytes of an identifier.
pub open spec fn short_id(container_id: Seq<char>) -> Seq<char> {
    text::byte_prefix(container_id, 8)
}

pub open spec fn host_interface(container_id: Seq<char>) -> Seq<char> {
    "v"@ + short_id(container_id)
}

pub open spec fn container_interface(container_id: Seq<char>) -> Seq<char> {
    "c"@ + short_id(container_id)
}

/// What is done before the container's process is there. Without a memory
/// limit that can be read the start ends with the control group made.
pub open spec fn prepare_script(cfg: ConfigView) -> Seq<OpView> {
    fs::fs_script(cfg.container_id) + cgroup::cgroup_script(cfg.container_id) + (
    match cgroup::memory_limit_of(cfg.memory_limit) {
        Some(bytes) => seq![
            cgroup::limit_op(cgroup::cgroup_path(cfg.container_id), bytes as u64),
        ],
        None => seq![],
    })
}

/// How many operations of the preparation make the control group and what comes
/// before it.
pub open spec fn cgroup_made_at(cfg: ConfigView) -> nat {
    fs::fs_script(cfg.container_id).len() + cgroup::cgroup_script(cfg.container_id).len()
}

/// How a container is started.
pub fn start_container(cfg: &SandboxConfig) -> (plan: LaunchPlan)
    requires
        has_short_id(cfg.container_id@),
    ensures
        plan.is_for(cfg@),
        script::well_formed(plan.prepare.deep_view()),
{
    let (fs, mut prepare) = ContainerFs::setup(cfg.container_id.as_str());
    let (cgroup, mut make_group) = Cgroup::new(cfg.container_id.as_str());
    let ghost (a, b) = (prepare.deep_view(), make_group.deep_view());
    let fs_ops: usize = prepare.len();
    assert(fs_ops == a.len());
    prepare.append(&mut make_group);
    assert(prepare.deep_view() =~= a + b);
    let cgroup_made: usize = prepare.len();
    assert(cgroup_made == (a + b).len());
    let memory = cgroup::checked_memory_limit(cfg.memory_limit.as_str());
    if let Some(bytes) = memory {
        let op = cgroup.set_memory_limit(bytes);
        let ghost limit = op@;
        prepare.push(op);
        assert(prepare.deep_view() =~= a + b + seq![limit]);
    } else {
        assert(a + b + seq![] =~= a + b);
    }
    let short = text::take_bytes(cfg.container_id.as_str(), 8);
    let host_if = text::join("v", short);
    let cont_if = text::join("c", short);
    LaunchPlan { fs, cgroup, memory, prepare, cgroup_made, host_if, cont_if }
}

/// What the parent of a container's process does once the process is there.
pub open spec fn attach_script(cfg: ConfigView, pid: u32, pipes: Pipes) -> Seq<OpView> {
    seq![
        OpView::CloseFd { fd: pipes.ns_w },
        OpView::CloseFd { fd: pipes.net_r },
        cgroup::join_op(cgroup::cgroup_path(cfg.container_id), pid),
        OpView::Wait { fd: pipes.ns_r },
        OpView::CloseFd { fd: pipes.ns_r },
    ] + network::bridge_script() + network::veth_script(
        host_interface(cfg.container_id),
        container_interface(cfg.container_id),
        pid,
        cfg.ip,
    ) + network::nat_script() + network::dns_script(fs::merged_path(cfg.container_id)) + seq![
        OpView::Notify { fd: pipes.net_w },
        OpView::CloseFd { fd: pipes.net_w },
    ]
}

impl LaunchPlan {
    /// The plan is that of the start of `cfg`.
    pub open spec fn is_for(&self, cfg: ConfigView) -> bool {
        &&& self.fs.merged@ == fs::merged_path(cfg.container_id)
        &&& self.fs.upper@ == fs::upper_path(cfg.container_id)
        &&& self.fs.work@ == fs::work_path(cfg.container_id)
        &&& self.cgroup.path@ == cgroup::cgroup_path(cfg.container_id)
        &&& match self.memory {
            Some(bytes) => cgroup::memory_limit_of(cfg.memory_limit) == Some(bytes as nat),
            None => cgroup::memory_limit_of(cfg.memory_limit) is None,
        }
        &&& self.prepare.deep_view() == prepare_script(cfg)
        &&& self.cgroup_made == cgroup_made_at(cfg)
        &&& self.host_if@ == host_interface(cfg.container_id)
        &&& self.cont_if@ == container_interface(cfg.container_id)
    }

    /// What the parent does once the container's process is there: it moves
    /// the process into the control group, waits for the namespaces, sets the
    /// network up, and lets the container go on.
    pub fn attach(&self, cfg: &SandboxConfig, pid: u32, pipes: &Pipes) -> (script: Vec<Op>)
        requires
            self.is_for(cfg@),
        ensures
            script.deep_view() == attach_script(cfg@, pid, *pipes),
            script::well_formed(script.deep_view()),
    {
        let mut script = vec![
            Op::CloseFd { fd: pipes.ns_w },
            Op::CloseFd { fd: pipes.net_r },
            self.cgroup.add_process(pid),
            Op::Wait { fd: pipes.ns_r },
            Op::CloseFd { fd: pipes.ns_r },
        ];
        let ghost a = seq![
            OpView::CloseFd { fd: pipes.ns_w },
            OpView::CloseFd { fd: pipes.net_r },
            cgroup::join_op(cgroup::cgroup_path(cfg.container_id@), pid),
            OpView::Wait { fd: pipes.ns_r },
            OpView::CloseFd { fd: pipes.ns_r },
        ];
        assert(script.deep_view() =~= a);
        let mut bridge = network::ensure_bridge();
        let mut veth = network::setup_veth_bridge(
            self.host_if.as_str(),
            self.cont_if.as_str(),
            pid,
            cfg.ip.as_str(),
        );
        let mut routing = network::setup_nat();
        let mut dns = network::setup_dns(self.fs.merged.as_str());
        let ghost (b, c, d, e) = (
            bridge.deep_view(),
            veth.deep_view(),
            routing.deep_view(),
            dns.deep_view(),
        );
        script.append(&mut bridge);
        assert(script.deep_view() =~= a + b);
        script.append(&mut veth);
        assert(script.deep_view() =~= a + b + c);
        script.append(&mut routing);
        assert(script.deep_view() =~= a + b + c + d);
        script.append(&mut dns);
        assert(script.deep_view() =~= a + b + c + d + e);
        script.push(Op::Notify { fd: pipes.net_w });
        script.push(Op::CloseFd { fd: pipes.net_w });
        assert(script.deep_view() =~= attach_script(cfg@, pid, *pipes));
        script
    }

    /// What is undone when the start fails after `reached` operations of
    /// `prepare`: the control group, if it has been made.
    pub fn abandon(&self, reached: usize) -> (script: Vec<Op>)
        ensures
            script.deep_view() == (if reached >= self.cgroup_made {
                seq![OpView::RemoveDir { path: self.cgroup.path@ }]
            } else {
                seq![]
            }),
    {
        let mut script: Vec<Op> = Vec::new();
        if reached >= self.cgroup_made {
            script.push(self.cgroup.cleanup());
            assert(script.deep_view() =~= seq![OpView::RemoveDir { path: self.cgroup.path@ }]);
        } else {
            assert(script.deep_view() =~= seq![]);
        }
        script
    }
}

/// Makes a terminal the one that a container talks to.
pub open spec fn tty_script(slave: i32) -> Seq<OpView> {
    seq![
        OpView::NewSession,
        OpView::ControllingTerminal { fd: slave },
        OpView::Duplicate { fd: slave, onto: 0 },
        OpView::Duplicate { fd: slave, onto: 1 },
        OpView::Duplicate { fd: slave, onto: 2 },
    ] + (if slave > 2 {
        seq![OpView::CloseFd { fd: slave }]
    } else {
        seq![]
    })
}

fn setup_tty(slave: i32) -> (script: Vec<Op>)
    ensures
        script.deep_view() == tty_script(slave),
{
    let mut script = vec![
        Op::NewSession,
        Op::ControllingTerminal { fd: slave },
        Op::Duplicate { fd: slave, onto: 0 },
        Op::Duplicate { fd: slave, onto: 1 },
        Op::Duplicate { fd: slave, onto: 2 },
    ];
    if slave > 2 {
        script.push(Op::CloseFd { fd: slave });
    }
    assert(script.deep_view() =~= tty_script(slave));
    script
}

/// Makes `merged` the root of a container's process, with the file systems
/// that it needs mounted below it.
pub open spec fn rootfs_script(merged: Seq<char>) -> Seq<OpView> {
    seq![
        OpView::MountProc { target: text::joined_path(merged, "proc"@) },
        OpView::BindDevices { target: text::joined_path(merged, "dev"@) },
        OpView::ChangeRoot { path: merged },
        OpView::ChangeDir { path: "/"@ },
    ]
}

fn setup_rootfs(merged: &str) -> (script: Vec<Op>)
    ensures
        script.deep_view() == rootfs_script(merged@),
{
    let script = vec![
        Op::MountProc { target: text::join_path(merged, "proc") },
        Op::BindDevices { target: text::join_path(merged, "dev") },
        Op::ChangeRoot { path: merged.to_owned() },
        Op::ChangeDir { path: "/".to_owned() },
    ];
    assert(script.deep_view() =~= rootfs_script(merged@));
    script
}

/// Whether the kernel can be handed a command: there is one, and none of its
/// words holds a zero, which would end it.
pub open spec fn is_executable(command: Seq<Seq<char>>) -> bool {
    command.len() > 0 && forall|i: int|
        0 <= i < command.len() ==> !(#[trigger] command[i]).contains('\0')
}

fn can_exec(command: &Vec<String>) -> (can: bool)
    ensures
        can == is_executable(command.deep_view()),
{
    if command.len() == 0 {
        return false;
    }
    let ghost words = command.deep_view();
    let mut i: usize = 0;
    while i < command.len()
        invariant
            i <= command.len(),
            words == command.deep_view(),
            forall|k: int| 0 <= k < i ==> !(#[trigger] words[k]).contains('\0'),
        decreases command.len() - i,
    {
        let chars = text::chars_of(command[i].as_str());
        assert(words[i as int] == chars@);
        let mut j: usize = 0;
        while j < chars.len()
            invariant
                i < command.len(),
                j <= chars.len(),
                words == command.deep_view(),
                words[i as int] == chars@,
                forall|k: int| 0 <= k < j ==> chars@[k] != '\0',
            decreases chars.len() - j,
        {
            if chars[j] == '\0' {
                assert(words[i as int].contains('\0'));
                return false;
            }
            j += 1;
        }
        assert(!words[i as int].contains('\0'));
        i += 1;
    }
    true
}

/// What the first process of a container does: it moves to new namespaces and
/// tells its parent so.
pub open spec fn namespace_script(cfg: ConfigView, pipes: Pipes) -> Seq<OpView> {
    seq![
        OpView::CloseFd { fd: pipes.ns_r },
        OpView::CloseFd { fd: pipes.net_w },
        OpView::Unshare,
        OpView::Notify { fd: pipes.ns_w },
        OpView::CloseFd { fd: pipes.ns_w },
        OpView::SetHostname { name: cfg.hostname },
    ]
}

/// What the second process of a container, the first in its new namespaces,
/// does: it waits for its network, changes its root and becomes the command.
/// A command that the kernel cannot be handed is left out.
pub open spec fn container_script(cfg: ConfigView, merged: Seq<char>, pipes: Pipes) -> Seq<OpView> {
    network::loopback_script() + seq![
        OpView::Wait { fd: pipes.net_r },
        OpView::CloseFd { fd: pipes.net_r },
    ] + (match cfg.stdio {
        Some(slave) => tty_script(slave),
        None => seq![],
    }) + rootfs_script(merged) + (if is_executable(cfg.command) {
        seq![OpView::Exec { argv: cfg.command }]
    } else {
        seq![]
    })
}

/// What the two processes of a container do, up to the point where the second
/// becomes the command.
pub fn setup_namespace_and_exec(cfg: &SandboxConfig, merged: &str, pipes: &Pipes) -> (scripts: (
    Vec<Op>,
    Vec<Op>,
))
    ensures
        scripts.0.deep_view() == namespace_script(cfg@, *pipes),
        scripts.1.deep_view() == container_script(cfg@, merged@, *pipes),
        script::well_formed(scripts.0.deep_view()),
        script::well_formed(scripts.1.deep_view()),
{
    let first = vec![
        Op::CloseFd { fd: pipes.ns_r },
        Op::CloseFd { fd: pipes.net_w },
        Op::Unshare,
        Op::Notify { fd: pipes.ns_w },
        Op::CloseFd { fd: pipes.ns_w },
        Op::SetHostname { name: cfg.hostname.clone() },
    ];
    assert(first.deep_view() =~= namespace_script(cfg@, *pipes));
    let mut second = network::setup_loopback();
    let ghost a = second.deep_view();
    second.push(Op::Wait { fd: pipes.net_r });
    second.push(Op::CloseFd { fd: pipes.net_r });
    let ghost b = seq![
        OpView::Wait { fd: pipes.net_r },
        OpView::CloseFd { fd: pipes.net_r },
    ];
    assert(second.deep_view() =~= a + b);
    let mut tty = match cfg.stdio {
        Some(slave) => setup_tty(slave),
        None => Vec::new(),
    };
    let ghost c = match cfg.stdio {
        Some(slave) => tty_script(slave),
        None => seq![],
    };
    assert(tty.deep_view() =~= c);
    second.append(&mut tty);
    assert(second.deep_view() =~= a + b + c);
    let mut rootfs = setup_rootfs(merged);
    let ghost d = rootfs.deep_view();
    second.append(&mut rootfs);
    assert(second.deep_view() =~= a + b + c + d);
    if can_exec(&cfg.command) {
        second.push(Op::Exec { argv: text::copy_words(&cfg.command) });
    }
    assert(second.deep_view() =~= container_script(cfg@, merged@, *pipes));
    (first, second)
}

} // verus!
