//! What the daemon does: how it takes a connection from its request to its
//! answer, and what it makes of its children's ends.

pub mod answers;
pub mod history;
pub mod laws;

use crate::container::{ContainerInfo, ContainerManager, InfoView, Kill, ManagerView, Signal};
use crate::error::{AppError, AppErrorView};
use crate::ipc::protocol::{Request, RequestView, Response, ResponseView};
use crate::sandbox::{Cgroup, ConfigView, ContainerFs, SandboxConfig};
use crate::script::{Op, OpView};
use crate::storage::{SavePlan, SaveView};
use crate::{container, error, sandbox, script, storage, text};
use vstd::prelude::*;

verus! {

/// Where the daemon listens.
pub const SOCKET_PATH: &'static str = "/run/cb/ipc.sock";

/// How long a container has to end by itself, in seconds.
pub const GRACE_SECONDS: u64 = 5;

/// The two ends of a terminal.
#[derive(Debug, Clone, Copy, PartialEq, Eq, Structural)]
pub struct Pty {
    pub master: i32,
    pub slave: i32,
}

/// A container that is being started.
pub struct Launch {
    pub id: String,
    pub command: Vec<String>,
    pub memory_limit: String,
    pub ip: String,
}

#[verifier::ext_equal]
pub struct LaunchView {
    pub id: Seq<char>,
    pub command: Seq<Seq<char>>,
    pub memory_limit: Seq<char>,
    pub ip: Seq<char>,
}

impl View for Launch {
    type V = LaunchView;

    open spec fn view(&self) -> LaunchView {
        LaunchView {
            id: self.id@,
            command: self.command.deep_view(),
            memory_limit: self.memory_limit@,
            ip: self.ip@,
        }
    }
}

/// How far a connection has come.
pub enum Phase {
    /// Its request has not been read.
    Idle,
    /// A container has been asked to end.
    Terminating { id: String },
    /// A container has been given time to end.
    Grace { id: String },
    /// It is being saved that a container was stopped.
    SavingStop { id: String },
    /// A terminal is being made for a container.
    OpeningPty { launch: Launch },
    /// A container is being started.
    Launching { launch: Launch, pty: Option<Pty> },
    /// It is being saved that a container runs.
    SavingRun { info: ContainerInfo, pty: Option<Pty> },
    /// What a container has left behind is being cleaned up.
    Cleaning { id: String },
    /// It has its answer.
    Done,
}

#[verifier::ext_equal]
pub enum PhaseView {
    Idle,
    Terminating { id: Seq<char> },
    Grace { id: Seq<char> },
    SavingStop { id: Seq<char> },
    OpeningPty { launch: LaunchView },
    Launching { launch: LaunchView, pty: Option<Pty> },
    SavingRun { info: InfoView, pty: Option<Pty> },
    Cleaning { id: Seq<char> },
    Done,
}

impl View for Phase {
    type V = PhaseView;

    open spec fn view(&self) -> PhaseView {
        match self {
            Phase::Idle => PhaseView::Idle,
            Phase::Terminating { id } => PhaseView::Terminating { id: id@ },
            Phase::Grace { id } => PhaseView::Grace { id: id@ },
            Phase::SavingStop { id } => PhaseView::SavingStop { id: id@ },
            Phase::OpeningPty { launch } => PhaseView::OpeningPty { launch: launch@ },
            Phase::Launching { launch, pty } => PhaseView::Launching { launch: launch@, pty: *pty },
            Phase::SavingRun { info, pty } => PhaseView::SavingRun { info: info@, pty: *pty },
            Phase::Cleaning { id } => PhaseView::Cleaning { id: id@ },
            Phase::Done => PhaseView::Done,
        }
    }
}

/// What happens to a connection.
pub enum Event {
    /// Its request has been read, `nanos` nanoseconds into a second.
    Requested { request: Request, nanos: u32 },
    /// A signal has been sent, or has not.
    Signalled { sent: bool },
    /// A pause is over.
    Woke,
    /// Metadata has been saved, or an attempt was made.
    Saved,
    /// A terminal has been made, or has not.
    PtyOpened { pty: Result<Pty, AppError> },
    /// A container has been started and is the process `pid`, or has not.
    Launched { pid: Result<u32, AppError> },
    /// What a container has left behind has been cleaned up, or has not.
    Cleaned { result: Result<(), AppError> },
}

#[verifier::ext_equal]
pub enum EventView {
    Requested { request: RequestView, nanos: u32 },
    Signalled { sent: bool },
    Woke,
    Saved,
    PtyOpened { pty: Result<Pty, AppErrorView> },
    Launched { pid: Result<u32, AppErrorView> },
    Cleaned { result: Result<(), AppErrorView> },
}

pub open spec fn result_view<T>(result: Result<T, AppError>) -> Result<T, AppErrorView> {
    match result {
        Ok(value) => Ok(value),
        Err(error) => Err(error@),
    }
}

impl View for Event {
    type V = EventView;

    open spec fn view(&self) -> EventView {
        match self {
            Event::Requested { request, nanos } => EventView::Requested {
                request: request@,
                nanos: *nanos,
            },
            Event::Signalled { sent } => EventView::Signalled { sent: *sent },
            Event::Woke => EventView::Woke,
            Event::Saved => EventView::Saved,
            Event::PtyOpened { pty } => EventView::PtyOpened { pty: result_view(*pty) },
            Event::Launched { pid } => EventView::Launched { pid: result_view(*pid) },
            Event::Cleaned { result } => EventView::Cleaned { result: result_view(*result) },
        }
    }
}

/// What is to be done for a connection. The last of a list of actions is
/// followed by the event that it brings about; what the others bring about does
/// not matter.
pub enum Action {
    Kill(Kill),
    Sleep { seconds: u64 },
    Save(SavePlan),
    OpenPty,
    Launch(SandboxConfig),
    CloseFd { fd: i32 },
    Clean(Vec<Op>),
    /// Send the answer.
    Respond(Response),
    /// Connect the client with the terminal of a container.
    Forward { master: i32 },
}

#[verifier::ext_equal]
pub enum ActionView {
    Kill(Kill),
    Sleep { seconds: u64 },
    Save(SaveView),
    OpenPty,
    Launch(ConfigView),
    CloseFd { fd: i32 },
    Clean(Seq<OpView>),
    Respond(ResponseView),
    Forward { master: i32 },
}

impl View for Action {
    type V = ActionView;

    open spec fn view(&self) -> ActionView {
        match self {
            Action::Kill(kill) => ActionView::Kill(*kill),
            Action::Sleep { seconds } => ActionView::Sleep { seconds: *seconds },
            Action::Save(plan) => ActionView::Save(plan@),
            Action::OpenPty => ActionView::OpenPty,
            Action::Launch(cfg) => ActionView::Launch(cfg@),
            Action::CloseFd { fd } => ActionView::CloseFd { fd: *fd },
            Action::Clean(ops) => ActionView::Clean(ops.deep_view()),
            Action::Respond(response) => ActionView::Respond(response@),
            Action::Forward { master } => ActionView::Forward { master: *master },
        }
    }
}

impl DeepView for Action {
    type V = ActionView;

    open spec fn deep_view(&self) -> ActionView {
        self@
    }
}

/// What becomes of the daemon's state and of a connection, and what is to be
/// done.
#[verifier::ext_equal]
pub struct Step {
    pub manager: ManagerView,
    pub phase: PhaseView,
    pub actions: Seq<ActionView>,
}

/// The identifier of a container that is made `nanos` nanoseconds into a
/// second.
pub open spec fn id_of(nanos: u32) -> Seq<char> {
    text::padded_hex(nanos as nat, 12)
}

/// The identifier of a container that is made `nanos` nanoseconds into a
/// second.
pub fn generate_id(nanos: u32) -> (id: String)
    ensures
        id@ == id_of(nanos),
{
    text::padded_hex_text(nanos, 12)
}

/// The line that shows a container in the list.
pub open spec fn list_line(info: InfoView) -> Seq<char> {
    text::byte_prefix(info.id, 12) + " ["@ + info.state + "] "@ + text::joined(info.command, " "@)
}

pub open spec fn list_items(entries: Seq<InfoView>) -> Seq<Seq<char>> {
    entries.map_values(|info: InfoView| list_line(info))
}

/// Whether the identifiers of all containers can be cut to be listed.
pub open spec fn is_listable(manager: ManagerView) -> bool {
    forall|id: Seq<char>| #[trigger]
        manager.containers.contains_key(id) ==> text::has_byte_prefix(manager.containers[id].id, 12)
}

pub open spec fn answered(manager: ManagerView, response: ResponseView) -> Step {
    Step { manager, phase: PhaseView::Done, actions: seq![ActionView::Respond(response)] }
}

pub open spec fn refused(manager: ManagerView, error: AppErrorView) -> Step {
    answered(manager, ResponseView::ErrorResponse { message: error::error_text(error) })
}

/// A container is asked to end, if it runs. One that does not is recorded as
/// stopped.
pub open spec fn stop_step(manager: ManagerView, id: Seq<char>) -> Step {
    if manager.containers.contains_key(id) && manager.containers[id].pid is Some {
        Step {
            manager,
            phase: PhaseView::Terminating { id },
            actions: seq![
                ActionView::Kill(
                    Kill {
                        pid: manager.containers[id].pid->0 as i32,
                        signal: Signal::Terminate,
                    },
                ),
            ],
        }
    } else {
        record_stop_step(manager, id)
    }
}

/// A container is recorded as stopped, if it is known.
pub open spec fn record_stop_step(manager: ManagerView, id: Seq<char>) -> Step {
    if manager.containers.contains_key(id) {
        let info = container::stopped(manager.containers[id]);
        Step {
            manager: manager.with(info),
            phase: PhaseView::SavingStop { id },
            actions: seq![ActionView::Save(storage::save_plan(info))],
        }
    } else {
        refused(manager, AppErrorView::NotFound(id))
    }
}

/// A container that has had time to end is killed if it still runs.
pub open spec fn kill_step(manager: ManagerView, id: Seq<char>) -> Step {
    let response = ActionView::Respond(
        ResponseView::StopResponse { container_id: id, state: "Stopping"@ },
    );
    Step {
        manager,
        phase: PhaseView::Done,
        actions: if manager.containers.contains_key(id) && manager.containers[id].pid is Some {
            seq![
                ActionView::Kill(
                    Kill { pid: manager.containers[id].pid->0 as i32, signal: Signal::Kill },
                ),
                response,
            ]
        } else {
            seq![response]
        },
    }
}

pub open spec fn hostname_of(id: Seq<char>) -> Seq<char> {
    "cb-"@ + sandbox::short_id(id)
}

pub open spec fn config_of(launch: LaunchView, pty: Option<Pty>) -> ConfigView {
    ConfigView {
        container_id: launch.id,
        command: launch.command,
        memory_limit: launch.memory_limit,
        hostname: hostname_of(launch.id),
        ip: launch.ip,
        stdio: match pty {
            Some(pty) => Some(pty.slave),
            None => None,
        },
    }
}

/// The start of a container is begun: it gets an identifier and an address,
/// and, if a user talks to it, a terminal.
pub open spec fn run_step(
    manager: ManagerView,
    command: Seq<Seq<char>>,
    memory_limit: Seq<char>,
    interactive: bool,
    nanos: u32,
) -> Step {
    match container::first_free(manager.pool) {
        None => refused(manager, AppErrorView::IpExhausted),
        Some(n) => {
            let launch = LaunchView {
                id: id_of(nanos),
                command,
                memory_limit,
                ip: container::address(n),
            };
            let manager = ManagerView { pool: manager.pool.insert(n), ..manager };
            if interactive {
                Step {
                    manager,
                    phase: PhaseView::OpeningPty { launch },
                    actions: seq![ActionView::OpenPty],
                }
            } else {
                launch_step(manager, launch, None)
            }
        },
    }
}

pub open spec fn launch_step(manager: ManagerView, launch: LaunchView, pty: Option<Pty>) -> Step {
    Step {
        manager,
        phase: PhaseView::Launching { launch, pty },
        actions: seq![ActionView::Launch(config_of(launch, pty))],
    }
}

/// What is known of a container that has been started.
pub open spec fn running(launch: LaunchView, pid: u32) -> InfoView {
    InfoView {
        id: launch.id,
        command: launch.command,
        state: "Running"@,
        memory_limit: launch.memory_limit,
        pid: Some(pid),
        ip: Some(launch.ip),
    }
}

/// A container has been started, which is saved before it is recorded; or it
/// has not, and what it was given is given back.
pub open spec fn launched_step(
    manager: ManagerView,
    launch: LaunchView,
    pty: Option<Pty>,
    pid: Result<u32, AppErrorView>,
) -> Step {
    match pid {
        Ok(pid) => Step {
            manager,
            phase: PhaseView::SavingRun { info: running(launch, pid), pty },
            actions: seq![ActionView::Save(storage::save_plan(running(launch, pid)))],
        },
        Err(e) => {
            let answer = refused(manager.freed(launch.ip), e);
            Step {
                actions: (match pty {
                    Some(pty) => seq![
                        ActionView::CloseFd { fd: pty.master },
                        ActionView::CloseFd { fd: pty.slave },
                    ],
                    None => seq![],
                }) + answer.actions,
                ..answer
            }
        },
    }
}

/// A container that has been started is recorded. Its user is connected with
/// its terminal, if it has one.
pub open spec fn recorded_step(manager: ManagerView, info: InfoView, pty: Option<Pty>) -> Step {
    match pty {
        Some(pty) => Step {
            manager: manager.with(info),
            phase: PhaseView::Done,
            actions: seq![
                ActionView::CloseFd { fd: pty.slave },
                ActionView::Forward { master: pty.master },
            ],
        },
        None => answered(
            manager.with(info),
            ResponseView::RunResponse { container_id: info.id },
        ),
    }
}

/// What cleans up after a container: its file system, its control group and
/// its metadata.
pub open spec fn removal_script(id: Seq<char>) -> Seq<OpView> {
    sandbox::fs::fs_removal(id) + seq![
        OpView::RemoveDir { path: sandbox::cgroup::cgroup_path(id) },
        OpView::RemoveFile { path: storage::stored_path(id) },
    ]
}

/// A container that may be removed is cleaned up after.
pub open spec fn remove_step(manager: ManagerView, id: Seq<char>) -> Step {
    match container::removable(manager, id) {
        Ok(_) => Step {
            manager,
            phase: PhaseView::Cleaning { id },
            actions: seq![ActionView::Clean(removal_script(id))],
        },
        Err(e) => refused(manager, e),
    }
}

/// A container that has been cleaned up after is forgotten.
pub open spec fn removed_step(
    manager: ManagerView,
    id: Seq<char>,
    result: Result<(), AppErrorView>,
) -> Step {
    match result {
        Ok(_) => answered(
            manager.without(id),
            ResponseView::StopResponse { container_id: id, state: "Removed"@ },
        ),
        Err(e) => refused(manager, e),
    }
}

/// What an event makes of a connection, but for a request for the list. A
/// start that fails after it has taken an address gives it back, whichever
/// step it fails in. An event that a connection does not wait for changes nothing.
pub open spec fn step_of(manager: ManagerView, phase: PhaseView, event: EventView) -> Step {
    match (phase, event) {
        (PhaseView::Idle, EventView::Requested { request, nanos }) => match request {
            RequestView::ListRequest { .. } => Step { manager, phase, actions: seq![] },
            RequestView::StopRequest { container_id, .. } => stop_step(manager, container_id),
            RequestView::RunRequest { command, memory_limit, interactive } => run_step(
                manager,
                command,
                memory_limit,
                interactive,
                nanos,
            ),
            RequestView::RemoveRequest { container_id } => remove_step(manager, container_id),
        },
        (PhaseView::Terminating { id }, EventView::Signalled { sent }) => if sent {
            Step {
                manager,
                phase: PhaseView::Grace { id },
                actions: seq![ActionView::Sleep { seconds: GRACE_SECONDS }],
            }
        } else {
            record_stop_step(manager, id)
        },
        (PhaseView::Grace { id }, EventView::Woke) => kill_step(manager, id),
        (PhaseView::SavingStop { id }, EventView::Saved) => answered(
            manager,
            ResponseView::StopResponse { container_id: id, state: "Stopped"@ },
        ),
        (PhaseView::OpeningPty { launch }, EventView::PtyOpened { pty }) => match pty {
            Ok(pty) => launch_step(manager, launch, Some(pty)),
            Err(e) => refused(manager.freed(launch.ip), e),
        },
        (PhaseView::Launching { launch, pty }, EventView::Launched { pid }) => launched_step(
            manager,
            launch,
            pty,
            pid,
        ),
        (PhaseView::SavingRun { info, pty }, EventView::Saved) => recorded_step(
            manager,
            info,
            pty,
        ),
        (PhaseView::Cleaning { id }, EventView::Cleaned { result }) => removed_step(
            manager,
            id,
            result,
        ),
        _ => Step { manager, phase, actions: seq![] },
    }
}

/// Whether a connection is asked for the list.
pub open spec fn asks_for_list(phase: PhaseView, event: EventView) -> bool {
    phase is Idle && (match event {
        EventView::Requested { request, .. } => request is ListRequest,
        _ => false,
    })
}

/// Whether `step` is what an event makes of a connection. The list shows the
/// containers in any order.
pub open spec fn is_step(
    manager: ManagerView,
    phase: PhaseView,
    event: EventView,
    step: Step,
) -> bool {
    if asks_for_list(phase, event) {
        exists|entries: Seq<InfoView>| #[trigger]
            container::lists(entries, manager.containers) && step == answered(
                manager,
                ResponseView::ListResponse { items: list_items(entries) },
            )
    } else {
        step == step_of(manager, phase, event)
    }
}

/// What holds of a connection, however far it has come: a container that is
/// being started has an identifier whose first eight bytes can be cut, and an
/// address of the containers' network.
pub open spec fn in_order(phase: PhaseView) -> bool {
    match phase {
        PhaseView::OpeningPty { launch } => launch_in_order(launch),
        PhaseView::Launching { launch, .. } => launch_in_order(launch),
        PhaseView::SavingRun { info, .. } => info.pid is Some && info.ip is Some
            && container::host_octet_of(info.ip->0) is Some,
        _ => true,
    }
}

pub open spec fn launch_in_order(launch: LaunchView) -> bool {
    sandbox::has_short_id(launch.id) && container::host_octet_of(launch.ip) is Some
}

fn one(action: Action) -> (actions: Vec<Action>)
    ensures
        actions.deep_view() == seq![action@],
{
    let actions = vec![action];
    assert(actions.deep_view() =~= seq![actions[0]@]);
    actions
}

fn answer(response: Response) -> (done: (Phase, Vec<Action>))
    ensures
        done.0@ == PhaseView::Done,
        done.1.deep_view() == seq![ActionView::Respond(response@)],
{
    (Phase::Done, one(Action::Respond(response)))
}

fn refuse(error: &AppError) -> (done: (Phase, Vec<Action>))
    ensures
        done.0@ == PhaseView::Done,
        done.1.deep_view() == seq![
            ActionView::Respond(
                ResponseView::ErrorResponse { message: error::error_text(error@) },
            ),
        ],
{
    answer(Response::ErrorResponse { message: error.message() })
}

/// The line that shows a container in the list.
pub fn show_container(info: &ContainerInfo) -> (line: String)
    requires
        text::has_byte_prefix(info.id@, 12),
    ensures
        line@ == list_line(info@),
{
    let mut line = text::join(text::take_bytes(info.id.as_str(), 12), " [");
    line.append(info.state.as_str());
    line.append("] ");
    line.append(text::join_words(&info.command, " ").as_str());
    line
}

/// Whether the identifiers of all containers can be cut to be listed.
pub fn can_list(manager: &ContainerManager) -> (can: bool)
    requires
        manager.wf(),
    ensures
        can == is_listable(manager@),
{
    let entries = manager.list();
    let ghost all = entries.deep_view();
    proof {
        container::by_id_finds(all);
    }
    let mut i: usize = 0;
    while i < entries.len()
        invariant
            i <= entries.len(),
            all == entries.deep_view(),
            container::lists(all, manager@.containers),
            forall|k: int|
                0 <= k < all.len() ==> manager@.containers.contains_key((#[trigger] all[k]).id)
                    && manager@.containers[all[k].id] == all[k],
            forall|k: int| 0 <= k < i ==> text::has_byte_prefix((#[trigger] all[k]).id, 12),
        decreases entries.len() - i,
    {
        assert(all[i as int] == entries[i as int]@);
        if !text::can_take_bytes(entries[i].id.as_str(), 12) {
            assert(manager@.containers.contains_key(all[i as int].id));
            return false;
        }
        i += 1;
    }
    assert forall|id: Seq<char>| #[trigger] manager@.containers.contains_key(id) implies
        text::has_byte_prefix(manager@.containers[id].id, 12) by {
        let k = choose|k: int| 0 <= k < all.len() && (#[trigger] all[k]).id == id;
        assert(manager@.containers[id] == all[k]);
    }
    true
}

fn list_containers(manager: &ContainerManager) -> (done: (Phase, Vec<Action>))
    requires
        manager.wf(),
        is_listable(manager@),
    ensures
        exists|entries: Seq<InfoView>| #[trigger]
            container::lists(entries, manager@.containers) && done.0@ == PhaseView::Done
                && done.1.deep_view() == seq![
                ActionView::Respond(ResponseView::ListResponse { items: list_items(entries) }),
            ],
{
    let entries = manager.list();
    let ghost all = entries.deep_view();
    proof {
        container::by_id_finds(all);
    }
    let mut items: Vec<String> = Vec::new();
    let mut i: usize = 0;
    while i < entries.len()
        invariant
            i <= entries.len(),
            all == entries.deep_view(),
            is_listable(manager@),
            forall|k: int|
                0 <= k < all.len() ==> manager@.containers.contains_key((#[trigger] all[k]).id)
                    && manager@.containers[all[k].id] == all[k],
            items.deep_view() =~= list_items(all).take(i as int),
        decreases entries.len() - i,
    {
        assert(all[i as int] == entries[i as int]@);
        assert(manager@.containers.contains_key(all[i as int].id));
        let ghost before = items.deep_view();
        let line = show_container(&entries[i]);
        let ghost shown = line@;
        items.push(line);
        assert(items.deep_view() =~= before.push(shown));
        i += 1;
    }
    assert(items.deep_view() =~= list_items(all));
    answer(Response::ListResponse { items })
}

fn record_stop(manager: &mut ContainerManager, id: String) -> (done: (Phase, Vec<Action>))
    requires
        old(manager).wf(),
    ensures
        final(manager).wf(),
        (Step {
            manager: final(manager)@,
            phase: done.0@,
            actions: done.1.deep_view(),
        }) == record_stop_step(old(manager)@, id@),
{
    match manager.stop(id.as_str()) {
        Some((id, plan)) => (Phase::SavingStop { id }, one(Action::Save(plan))),
        None => refuse(&AppError::NotFound(id)),
    }
}

fn stop_container(manager: &mut ContainerManager, id: String) -> (done: (Phase, Vec<Action>))
    requires
        old(manager).wf(),
    ensures
        final(manager).wf(),
        (Step {
            manager: final(manager)@,
            phase: done.0@,
            actions: done.1.deep_view(),
        }) == stop_step(old(manager)@, id@),
{
    match manager.kill_container(id.as_str(), Signal::Terminate) {
        Some(kill) => (Phase::Terminating { id }, one(Action::Kill(kill))),
        None => {
            proof {
                if manager@.containers.contains_key(id@) {
                    if let Some(pid) = manager@.containers[id@].pid {
                        assert(manager@.runs(id@, pid));
                    }
                }
            }
            record_stop(manager, id)
        },
    }
}

fn kill_after_grace(manager: &ContainerManager, id: String) -> (done: (Phase, Vec<Action>))
    requires
        manager.wf(),
    ensures
        (Step {
            manager: manager@,
            phase: done.0@,
            actions: done.1.deep_view(),
        }) == kill_step(manager@, id@),
{
    let mut actions: Vec<Action> = Vec::new();
    match manager.kill_container(id.as_str(), Signal::Kill) {
        Some(kill) => {
            actions.push(Action::Kill(kill));
        },
        None => {
            proof {
                if manager@.containers.contains_key(id@) {
                    if let Some(pid) = manager@.containers[id@].pid {
                        assert(manager@.runs(id@, pid));
                    }
                }
            }
        },
    }
    let ghost name = id@;
    let response = Response::StopResponse { container_id: id, state: "Stopping".to_owned() };
    actions.push(Action::Respond(response));
    assert(actions.deep_view() =~= kill_step(manager@, name).actions);
    (Phase::Done, actions)
}

fn launch_container(launch: Launch, pty: Option<Pty>) -> (done: (Phase, Vec<Action>))
    requires
        sandbox::has_short_id(launch.id@),
    ensures
        done.0@ == (PhaseView::Launching { launch: launch@, pty }),
        done.1.deep_view() == seq![ActionView::Launch(config_of(launch@, pty))],
{
    let cfg = SandboxConfig {
        container_id: launch.id.clone(),
        command: text::copy_words(&launch.command),
        memory_limit: launch.memory_limit.clone(),
        hostname: text::join("cb-", text::take_bytes(launch.id.as_str(), 8)),
        ip: launch.ip.clone(),
        stdio: match pty {
            Some(pty) => Some(pty.slave),
            None => None,
        },
    };
    (Phase::Launching { launch, pty }, one(Action::Launch(cfg)))
}

/// Begins the start of a container.
fn create_container(
    manager: &mut ContainerManager,
    command: Vec<String>,
    memory_limit: String,
    interactive: bool,
    nanos: u32,
) -> (done: (Phase, Vec<Action>))
    requires
        old(manager).wf(),
    ensures
        final(manager).wf(),
        (Step {
            manager: final(manager)@,
            phase: done.0@,
            actions: done.1.deep_view(),
        }) == run_step(
            old(manager)@,
            command.deep_view(),
            memory_limit@,
            interactive,
            nanos,
        ),
{
    let id = generate_id(nanos);
    match manager.allocate_ip() {
        None => refuse(&AppError::IpExhausted),
        Some(ip) => {
            let launch = Launch { id, command, memory_limit, ip };
            if interactive {
                (Phase::OpeningPty { launch }, one(Action::OpenPty))
            } else {
                proof {
                    laws::id_is_short_enough_to_cut(nanos);
                }
                launch_container(launch, None)
            }
        },
    }
}

fn launched(
    manager: &mut ContainerManager,
    launch: Launch,
    pty: Option<Pty>,
    pid: Result<u32, AppError>,
) -> (done: (Phase, Vec<Action>))
    requires
        old(manager).wf(),
    ensures
        final(manager).wf(),
        (Step {
            manager: final(manager)@,
            phase: done.0@,
            actions: done.1.deep_view(),
        }) == launched_step(old(manager)@, launch@, pty, result_view(pid)),
{
    match pid {
        Ok(pid) => {
            let info = ContainerInfo {
                id: launch.id,
                command: launch.command,
                state: "Running".to_owned(),
                memory_limit: launch.memory_limit,
                pid: Some(pid),
                ip: Some(launch.ip),
            };
            let plan = storage::save(&info);
            (Phase::SavingRun { info, pty }, one(Action::Save(plan)))
        },
        Err(error) => {
            manager.free_ip(launch.ip.as_str());
            let mut actions: Vec<Action> = Vec::new();
            if let Some(pty) = pty {
                actions.push(Action::CloseFd { fd: pty.master });
                actions.push(Action::CloseFd { fd: pty.slave });
            }
            actions.push(
                Action::Respond(Response::ErrorResponse { message: error.message() }),
            );
            assert(actions.deep_view() =~= launched_step(
                old(manager)@,
                launch@,
                pty,
                Err(error@),
            ).actions);
            (Phase::Done, actions)
        },
    }
}

fn record_run(manager: &mut ContainerManager, info: ContainerInfo, pty: Option<Pty>) -> (done: (
    Phase,
    Vec<Action>,
))
    requires
        old(manager).wf(),
    ensures
        final(manager).wf(),
        (Step {
            manager: final(manager)@,
            phase: done.0@,
            actions: done.1.deep_view(),
        }) == recorded_step(old(manager)@, info@, pty),
{
    let container_id = info.id.clone();
    manager.insert(info);
    match pty {
        Some(pty) => {
            let actions = vec![
                Action::CloseFd { fd: pty.slave },
                Action::Forward { master: pty.master },
            ];
            assert(actions.deep_view() =~= seq![actions[0]@, actions[1]@]);
            (Phase::Done, actions)
        },
        None => answer(Response::RunResponse { container_id }),
    }
}

/// What cleans up after a container.
pub fn clean_up(id: &str) -> (script: Vec<Op>)
    ensures
        script.deep_view() == removal_script(id@),
        script::well_formed(script.deep_view()),
{
    let mut script = ContainerFs::remove(id);
    script.push(Cgroup::remove(id));
    script.push(storage::delete(id));
    assert(script.deep_view() =~= removal_script(id@));
    script
}

fn remove_container(manager: &ContainerManager, id: String) -> (done: (Phase, Vec<Action>))
    requires
        manager.wf(),
    ensures
        (Step {
            manager: manager@,
            phase: done.0@,
            actions: done.1.deep_view(),
        }) == remove_step(manager@, id@),
{
    match manager.check_removable(id.as_str()) {
        Ok(()) => {
            let script = clean_up(id.as_str());
            (Phase::Cleaning { id }, one(Action::Clean(script)))
        },
        Err(error) => refuse(&error),
    }
}

fn removed(manager: &mut ContainerManager, id: String, result: Result<(), AppError>) -> (done: (
    Phase,
    Vec<Action>,
))
    requires
        old(manager).wf(),
    ensures
        final(manager).wf(),
        (Step {
            manager: final(manager)@,
            phase: done.0@,
            actions: done.1.deep_view(),
        }) == removed_step(old(manager)@, id@, result_view(result)),
{
    match manager.remove(id.as_str(), result) {
        Ok(()) => answer(
            Response::StopResponse { container_id: id, state: "Removed".to_owned() },
        ),
        Err(error) => refuse(&error),
    }
}

fn handle_request(manager: &mut ContainerManager, request: Request, nanos: u32) -> (done: (
    Phase,
    Vec<Action>,
))
    requires
        old(manager).wf(),
        request is ListRequest ==> is_listable(old(manager)@),
    ensures
        final(manager).wf(),
        in_order(done.0@),
        is_step(
            old(manager)@,
            PhaseView::Idle,
            EventView::Requested { request: request@, nanos },
            (Step { manager: final(manager)@, phase: done.0@, actions: done.1.deep_view() }),
        ),
{
    proof {
        laws::id_is_short_enough_to_cut(nanos);
        if let Some(n) = container::first_free(manager@.pool) {
            container::laws::address_has_its_octet(n);
        }
    }
    match request {
        Request::ListRequest { .. } => list_containers(manager),
        Request::StopRequest { container_id, .. } => stop_container(manager, container_id),
        Request::RunRequest { command, memory_limit, interactive } => create_container(
            manager,
            command,
            memory_limit,
            interactive,
            nanos,
        ),
        Request::RemoveRequest { container_id } => remove_container(manager, container_id),
    }
}

/// Takes a connection on by an event: says how far it has come now, and what
/// is to be done.
pub fn handel_one_connection(manager: &mut ContainerManager, phase: Phase, event: Event) -> (done: (
    Phase,
    Vec<Action>,
))
    requires
        old(manager).wf(),
        asks_for_list(phase@, event@) ==> is_listable(old(manager)@),
        in_order(phase@),
    ensures
        final(manager).wf(),
        in_order(done.0@),
        is_step(
            old(manager)@,
            phase@,
            event@,
            (Step { manager: final(manager)@, phase: done.0@, actions: done.1.deep_view() }),
        ),
{
    match (phase, event) {
        (Phase::Idle, Event::Requested { request, nanos }) => handle_request(
            manager,
            request,
            nanos,
        ),
        (Phase::Terminating { id }, Event::Signalled { sent }) => if sent {
            (Phase::Grace { id }, one(Action::Sleep { seconds: GRACE_SECONDS }))
        } else {
            record_stop(manager, id)
        },
        (Phase::Grace { id }, Event::Woke) => kill_after_grace(manager, id),
        (Phase::SavingStop { id }, Event::Saved) => answer(
            Response::StopResponse { container_id: id, state: "Stopped".to_owned() },
        ),
        (Phase::OpeningPty { launch }, Event::PtyOpened { pty }) => match pty {
            Ok(pty) => launch_container(launch, Some(pty)),
            Err(error) => {
                manager.free_ip(launch.ip.as_str());
                refuse(&error)
            },
        },
        (Phase::Launching { launch, pty }, Event::Launched { pid }) => launched(
            manager,
            launch,
            pty,
            pid,
        ),
        (Phase::SavingRun { info, pty }, Event::Saved) => record_run(manager, info, pty),
        (Phase::Cleaning { id }, Event::Cleaned { result }) => removed(manager, id, result),
        (phase, _) => {
            let actions: Vec<Action> = Vec::new();
            assert(actions.deep_view() =~= seq![]);
            (phase, actions)
        },
    }
}

/// How a child of the daemon has ended, if one has.
#[derive(Debug, Clone, Copy, PartialEq, Eq, Structural)]
pub enum ChildStatus {
    Exited { pid: i32, code: i32 },
    Signaled { pid: i32 },
    Other,
}

/// What the daemon makes of a child's end.
pub struct Reaped {
    /// Whether another child may have ended.
    pub again: bool,
    /// What has changed of a container, to be saved.
    pub save: Option<SavePlan>,
}

/// Whether `after` and `reaped` are what comes of the end of the process `pid`
/// with `code`: the container that it belonged to, if there is one, has exited,
/// and this is saved.
pub open spec fn is_exit(
    before: ManagerView,
    pid: u32,
    code: int,
    after: ManagerView,
    reaped: Reaped,
) -> bool {
    &&& reaped.again
    &&& match reaped.save {
        Some(plan) => exists|id: Seq<char>| #[trigger]
            before.runs(id, pid) && after == before.after_exit(before.containers[id], code)
                && plan@ == storage::save_plan(container::exited(before.containers[id], code)),
        None => after == before && forall|id: Seq<char>| !before.runs(id, pid),
    }
}

fn child_exited(manager: &mut ContainerManager, pid: u32, code: i32) -> (reaped: Reaped)
    requires
        old(manager).wf(),
    ensures
        final(manager).wf(),
        is_exit(old(manager)@, pid, code as int, final(manager)@, reaped),
{
    let save = manager.on_container_exit(pid, code);
    Reaped { again: true, save }
}

/// Records the end of a child. A child that was ended by a signal counts as
/// one that exited with -1.
pub fn reap(manager: &mut ContainerManager, status: ChildStatus) -> (reaped: Reaped)
    requires
        old(manager).wf(),
    ensures
        final(manager).wf(),
        match status {
            ChildStatus::Exited { pid, code } => is_exit(
                old(manager)@,
                pid as u32,
                code as int,
                final(manager)@,
                reaped,
            ),
            ChildStatus::Signaled { pid } => is_exit(
                old(manager)@,
                pid as u32,
                -1,
                final(manager)@,
                reaped,
            ),
            ChildStatus::Other => final(manager)@ == old(manager)@ && reaped == (Reaped {
                again: false,
                save: None,
            }),
        },
{
    match status {
        ChildStatus::Exited { pid, code } => child_exited(manager, pid as u32, code),
        ChildStatus::Signaled { pid } => child_exited(manager, pid as u32, -1),
        ChildStatus::Other => Reaped { again: false, save: None },
    }
}

/// What the daemon does before it listens: it makes the directories that the
/// containers need, and removes the socket of an earlier daemon.
pub fn run_daemon() -> (script: Vec<Op>)
    ensures
        script.deep_view() == seq![
            OpView::CreateDirAll { path: sandbox::fs::CONTAINERS_DIR@ },
            OpView::CreateDirAll { path: sandbox::cgroup::CGROUP_BASE@ },
            OpView::Discard { path: SOCKET_PATH@ },
        ],
        script::well_formed(script.deep_view()),
{
    let script = vec![
        Op::CreateDirAll { path: sandbox::fs::CONTAINERS_DIR.to_owned() },
        Op::CreateDirAll { path: sandbox::cgroup::CGROUP_BASE.to_owned() },
        Op::Discard { path: SOCKET_PATH.to_owned() },
    ];
    assert(script.deep_view() =~= seq![script[0]@, script[1]@, script[2]@]);
    script
}

/// What the daemon waits for while it listens.
#[derive(Debug, Clone, Copy, PartialEq, Eq, Structural)]
pub enum Arrival {
    Connection,
    FailedConnection,
    /// The user wants it to end.
    Interrupt,
}

/// What the daemon does of what it waited for.
pub enum Reply {
    /// Serve the connection, and listen on.
    Serve,
    /// Listen on.
    Ignore,
    /// Do this, and end.
    ShutDown(Vec<Op>),
}

/// Says what the daemon does of what it waited for. A daemon that ends removes
/// its socket.
pub fn on_arrival(arrival: Arrival) -> (reply: Reply)
    ensures
        match arrival {
            Arrival::Connection => reply is Serve,
            Arrival::FailedConnection => reply is Ignore,
            Arrival::Interrupt => match reply {
                Reply::ShutDown(script) => script.deep_view() == seq![
                    OpView::Discard { path: SOCKET_PATH@ },
                ] && script::well_formed(script.deep_view()),
                _ => false,
            },
        },
{
    match arrival {
        Arrival::Connection => Reply::Serve,
        Arrival::FailedConnection => Reply::Ignore,
        Arrival::Interrupt => {
            let script = vec![Op::Discard { path: SOCKET_PATH.to_owned() }];
            assert(script.deep_view() =~= seq![script[0]@]);
            Reply::ShutDown(script)
        },
    }
}

} // verus!
